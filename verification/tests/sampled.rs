use norem_lang::common::lit::{LitType, LitVal};
use norem_lang::common::name::Name;
use norem_lang::common::prim::{Compare, Prim};
use norem_lang::corelang::check::check_prog;
use norem_lang::corelang::eval::{eval_prog, EvalError};
use norem_lang::corelang::fragment::is_simple_program;
use norem_lang::corelang::syntax::{Decl, Expr, Program, Type};

/// A small generator of numbers, the same on every run.
struct Dice(u64);

impl Dice {
    fn roll(&mut self, sides: usize) -> usize {
        self.0 = self.0.wrapping_mul(6364136223846793005).wrapping_add(1442695040888963407);
        ((self.0 >> 33) as usize) % sides
    }
}

fn raw(s: &str) -> Name {
    Name::RawId(s.to_string())
}

fn var(s: &str) -> Expr {
    Expr::Var { var: raw(s) }
}

fn tint() -> Type {
    Type::Lit { lit: LitType::TyInt }
}

fn tbool() -> Type {
    Type::Lit { lit: LitType::TyBool }
}

fn tvar(s: &str) -> Type {
    Type::Var { var: raw(s) }
}

fn pair(a: Type, b: Type) -> Type {
    Type::Tup { flds: vec![a, b] }
}

fn call(f: Expr, args: Vec<Expr>) -> Expr {
    Expr::App { func: Box::new(f), args }
}

fn inst(f: &str, typs: Vec<Type>) -> Expr {
    Expr::Inst { expr: Box::new(var(f)), typs }
}

fn sel(e: Expr, idx: usize) -> Expr {
    Expr::Sel { expr: Box::new(e), idx }
}

/// The declarations that every sampled program starts with.
fn library() -> Vec<Decl> {
    let mono = |name: &str, pars: Vec<(&str, Type)>, res: Type, body: Expr| Decl {
        name: raw(name),
        gens: None,
        pars: pars.into_iter().map(|(n, t)| (raw(n), t)).collect(),
        res,
        body,
    };
    vec![
        mono(
            "negate",
            vec![("x", tint())],
            tint(),
            Expr::Prim { prim: Prim::INeg, args: vec![var("x")] },
        ),
        mono(
            "invert",
            vec![("x", tbool())],
            tbool(),
            Expr::Prim { prim: Prim::BNot, args: vec![var("x")] },
        ),
        mono(
            "count",
            vec![("n", tint())],
            tint(),
            Expr::Ifte {
                cond: Box::new(Expr::Prim {
                    prim: Prim::ICmp(Compare::Le),
                    args: vec![var("n"), Expr::Lit { lit: LitVal::Int(0) }],
                }),
                trbr: Box::new(Expr::Lit { lit: LitVal::Int(0) }),
                flbr: Box::new(Expr::Prim {
                    prim: Prim::IAdd,
                    args: vec![
                        Expr::Lit { lit: LitVal::Int(1) },
                        call(
                            var("count"),
                            vec![Expr::Prim {
                                prim: Prim::ISub,
                                args: vec![var("n"), Expr::Lit { lit: LitVal::Int(1) }],
                            }],
                        ),
                    ],
                }),
            },
        ),
        Decl {
            name: raw("same"),
            gens: Some(vec![raw("T")]),
            pars: vec![(raw("x"), tvar("T"))],
            res: tvar("T"),
            body: var("x"),
        },
        Decl {
            name: raw("first"),
            gens: Some(vec![raw("A"), raw("B")]),
            pars: vec![(raw("p"), pair(tvar("A"), tvar("B")))],
            res: tvar("A"),
            body: sel(var("p"), 0),
        },
        Decl {
            name: raw("swap"),
            gens: Some(vec![raw("A"), raw("B")]),
            pars: vec![(raw("p"), pair(tvar("A"), tvar("B")))],
            res: pair(tvar("B"), tvar("A")),
            body: Expr::Tup { flds: vec![sel(var("p"), 1), sel(var("p"), 0)] },
        },
    ]
}

/// The kinds of type that the sampler aims at.
#[derive(Clone, Copy, PartialEq)]
enum Kind {
    Int,
    Bool,
    Pair,
}

fn type_of(kind: Kind) -> Type {
    match kind {
        Kind::Int => tint(),
        Kind::Bool => tbool(),
        Kind::Pair => pair(tint(), tbool()),
    }
}

struct Sampler {
    dice: Dice,
    scope: Vec<(String, Kind)>,
    fresh: usize,
}

impl Sampler {
    fn kind(&mut self) -> Kind {
        match self.dice.roll(3) {
            0 => Kind::Int,
            1 => Kind::Bool,
            _ => Kind::Pair,
        }
    }

    fn name(&mut self, stem: &str) -> String {
        self.fresh += 1;
        // Now and then a name is taken again.
        if self.dice.roll(12) == 0 {
            format!("{}0", stem)
        } else {
            format!("{}{}", stem, self.fresh)
        }
    }

    fn leaf(&mut self, kind: Kind) -> Expr {
        let known: Vec<String> =
            self.scope.iter().filter(|(_, k)| *k == kind).map(|(n, _)| n.clone()).collect();
        if !known.is_empty() && self.dice.roll(2) == 0 {
            return var(&known[self.dice.roll(known.len())]);
        }
        match kind {
            Kind::Int => Expr::Lit { lit: LitVal::Int(self.dice.roll(7) as i64 - 2) },
            Kind::Bool => Expr::Lit { lit: LitVal::Bool(self.dice.roll(2) == 0) },
            Kind::Pair => Expr::Tup {
                flds: vec![
                    Expr::Lit { lit: LitVal::Int(self.dice.roll(5) as i64) },
                    Expr::Lit { lit: LitVal::Bool(self.dice.roll(2) == 0) },
                ],
            },
        }
    }

    /// An expression that mostly has the kind asked for.
    fn expr(&mut self, kind: Kind, depth: usize) -> Expr {
        if depth == 0 {
            return self.leaf(kind);
        }
        // Now and then the sampler aims at another kind than it was asked for.
        let kind = if self.dice.roll(25) == 0 { self.kind() } else { kind };
        let d = depth - 1;
        match self.dice.roll(12) {
            0 => self.leaf(kind),
            1 => {
                let bound = self.kind();
                let name = self.name("v");
                let first = self.expr(bound, d);
                self.scope.push((name.clone(), bound));
                let cont = self.expr(kind, d);
                self.scope.pop();
                Expr::Let { bind: raw(&name), expr: Box::new(first), cont: Box::new(cont) }
            }
            2 => Expr::Ifte {
                cond: Box::new(self.expr(Kind::Bool, d)),
                trbr: Box::new(self.expr(kind, d)),
                flbr: Box::new(self.expr(kind, d)),
            },
            3 => call(inst("same", vec![type_of(kind)]), vec![self.expr(kind, d)]),
            4 => match kind {
                Kind::Int => {
                    let ops = [Prim::IAdd, Prim::ISub, Prim::IMul, Prim::IDiv, Prim::IRem];
                    let op = ops[self.dice.roll(ops.len())];
                    Expr::Prim { prim: op, args: vec![self.expr(kind, d), self.expr(kind, d)] }
                }
                Kind::Bool => {
                    let ops = [Prim::BAnd, Prim::BOr, Prim::BXor, Prim::ICmp(Compare::Lt)];
                    let op = ops[self.dice.roll(ops.len())];
                    let of = if op == Prim::ICmp(Compare::Lt) { Kind::Int } else { Kind::Bool };
                    Expr::Prim { prim: op, args: vec![self.expr(of, d), self.expr(of, d)] }
                }
                Kind::Pair => Expr::Tup {
                    flds: vec![self.expr(Kind::Int, d), self.expr(Kind::Bool, d)],
                },
            },
            5 => match kind {
                Kind::Int => call(var("negate"), vec![self.expr(Kind::Int, d)]),
                Kind::Bool => call(var("invert"), vec![self.expr(Kind::Bool, d)]),
                Kind::Pair => call(
                    inst("swap", vec![tbool(), tint()]),
                    vec![Expr::Tup {
                        flds: vec![self.expr(Kind::Bool, d), self.expr(Kind::Int, d)],
                    }],
                ),
            },
            6 => match kind {
                Kind::Int => sel(self.expr(Kind::Pair, d), 0),
                Kind::Bool => sel(self.expr(Kind::Pair, d), 1),
                Kind::Pair => self.leaf(kind),
            },
            7 => match kind {
                Kind::Int => call(
                    inst("first", vec![tint(), tbool()]),
                    vec![self.expr(Kind::Pair, d)],
                ),
                Kind::Bool => call(
                    inst("first", vec![tbool(), tint()]),
                    vec![Expr::Tup {
                        flds: vec![self.expr(Kind::Bool, d), self.expr(Kind::Int, d)],
                    }],
                ),
                Kind::Pair => self.leaf(kind),
            },
            8 => self.package(kind, d),
            9 => self.group(kind, d),
            10 => match kind {
                Kind::Int => call(
                    var("count"),
                    vec![Expr::Lit { lit: LitVal::Int(self.dice.roll(4) as i64) }],
                ),
                _ => self.leaf(kind),
            },
            _ => {
                // A function literal, which the check gives the type of its body.
                let name = self.name("w");
                let body = self.expr(kind, d);
                Expr::Func { pars: vec![(raw(&name), tint())], body: Box::new(body) }
            }
        }
    }

    /// An unpacking of a package that hides the kind of its first field.
    fn package(&mut self, kind: Kind, depth: usize) -> Expr {
        let hidden = if self.dice.roll(2) == 0 { Kind::Int } else { Kind::Bool };
        let (operation, result) = match hidden {
            Kind::Int => ("negate", tint()),
            _ => ("invert", tbool()),
        };
        let seal = self.name("S");
        let open = self.name("O");
        let bind = self.name("p");
        let packed = Expr::Pack {
            expr: Box::new(Expr::Tup { flds: vec![self.expr(hidden, depth), var(operation)] }),
            seals: vec![(raw(&seal), type_of(hidden))],
            flds: vec![
                tvar(&seal),
                Type::Func { pars: vec![tvar(&seal)], res: Box::new(result) },
            ],
        };
        let used = call(sel(var(&bind), 1), vec![sel(var(&bind), 0)]);
        let cont = match self.dice.roll(6) {
            // The hidden value itself leaves the unpacking.
            0 => sel(var(&bind), 0),
            1 => Expr::Tup { flds: vec![used, self.expr(kind, depth)] },
            _ if hidden == kind => used,
            _ => Expr::Let {
                bind: raw(&self.name("u")),
                expr: Box::new(used),
                cont: Box::new(self.expr(kind, depth)),
            },
        };
        Expr::Unpack {
            bind: raw(&bind),
            opens: vec![raw(&open)],
            expr: Box::new(packed),
            cont: Box::new(cont),
        }
    }

    /// A group of one declaration, generic now and then, and a call of it.
    fn group(&mut self, kind: Kind, depth: usize) -> Expr {
        let name = self.name("f");
        let par = self.name("a");
        let of = self.kind();
        let generic = self.dice.roll(3) == 0;
        let gen_name = if self.dice.roll(4) == 0 { "T".to_string() } else { self.name("G") };
        self.scope.push((par.clone(), of));
        let body = if generic { var(&par) } else { self.expr(kind, depth) };
        self.scope.pop();
        let decl = Decl {
            name: raw(&name),
            gens: if generic { Some(vec![raw(&gen_name)]) } else { None },
            pars: vec![(raw(&par), if generic { tvar(&gen_name) } else { type_of(of) })],
            res: if generic { tvar(&gen_name) } else { type_of(kind) },
            body,
        };
        let cont = if generic {
            call(inst(&name, vec![type_of(kind)]), vec![self.expr(kind, depth)])
        } else {
            call(var(&name), vec![self.expr(of, depth)])
        };
        Expr::Letrec { decls: vec![decl], cont: Box::new(cont) }
    }
}

fn sample(seed: u64) -> Program {
    let mut sampler = Sampler { dice: Dice(seed), scope: Vec::new(), fresh: 0 };
    let kind = sampler.kind();
    let depth = 1 + sampler.dice.roll(4);
    let body = sampler.expr(kind, depth);
    let mut decls = library();
    decls.push(Decl { name: raw("main"), gens: None, pars: vec![], res: type_of(kind), body });
    Program { datas: vec![], decls }
}

#[test]
fn sampled_programs_that_check_and_are_simple_do_not_get_stuck() {
    let mut checked = 0;
    let mut simple = 0;
    let mut stuck_outside = 0;
    for seed in 0..3000u64 {
        let prog = sample(seed);
        if check_prog(&prog).is_err() {
            continue;
        }
        checked += 1;
        let outcome = eval_prog(&prog, 200_000).outcome();
        let fine = match &outcome {
            Some(Ok(_)) => true,
            Some(Err(EvalError::DivByZero(_))) => true,
            _ => false,
        };
        if is_simple_program(&prog) {
            simple += 1;
            assert!(fine, "seed {}: {:?}", seed, outcome);
        } else if !fine {
            stuck_outside += 1;
        }
    }
    // The samples reach both sides of the line.
    assert!(checked >= 1000, "checked: {}", checked);
    assert!(simple >= 500, "simple: {}", simple);
    assert!(checked > simple);
    assert!(stuck_outside > 0);
}
