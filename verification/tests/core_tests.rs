use norem_lang::common::lit::{LitType, LitVal};
use norem_lang::common::name::Name;
use norem_lang::common::prim::{Compare, Prim};
use norem_lang::corelang::check::check_prog;
use norem_lang::corelang::eval::eval_prog;
use norem_lang::corelang::syntax::{Decl, Expr, Program, Type};

fn raw(s: &str) -> Name {
    Name::RawId(s.to_string())
}

fn var(s: &str) -> Expr {
    Expr::Var { var: raw(s) }
}

fn tvar(s: &str) -> Type {
    Type::Var { var: raw(s) }
}

fn tlit(lit: LitType) -> Type {
    Type::Lit { lit }
}

fn num(i: i64) -> Expr {
    Expr::Lit { lit: LitVal::Int(i) }
}

fn run_program(prog: &Program) -> String {
    let mut res = String::new();
    match check_prog(prog) {
        Ok(()) => res.push_str("typecheck passed!\n"),
        Err(err) => res.push_str(&format!("typecheck failed! {:?}\n", err)),
    }
    match eval_prog(prog, 10_000_000).outcome() {
        Some(Ok(val)) => res.push_str(&format!("evaluation result: {:?}\n", val)),
        Some(Err(err)) => res.push_str(&format!("evaluation failed! {:?}\n", err)),
        None => res.push_str("evaluation did not end\n"),
    }
    res
}

fn pair_program() -> Program {
    let pair_of_t_u = Type::Tup { flds: vec![tvar("T"), tvar("U")] };
    let fst = Decl {
        name: raw("fst"),
        gens: Some(vec![raw("T"), raw("U")]),
        pars: vec![(raw("x"), pair_of_t_u.clone())],
        res: tvar("T"),
        body: Expr::Sel { expr: Box::new(var("x")), idx: 0 },
    };
    let snd = Decl {
        name: raw("snd"),
        gens: Some(vec![raw("T"), raw("U")]),
        pars: vec![(raw("x"), pair_of_t_u)],
        res: tvar("U"),
        body: Expr::Sel { expr: Box::new(var("x")), idx: 1 },
    };
    let char_int = Type::Tup { flds: vec![tlit(LitType::TyChar), tlit(LitType::TyInt)] };
    let main = Decl {
        name: raw("main"),
        gens: None,
        pars: vec![],
        res: tlit(LitType::TyInt),
        body: Expr::Let {
            bind: raw("x"),
            expr: Box::new(Expr::Tup {
                flds: vec![
                    Expr::Tup {
                        flds: vec![Expr::Lit { lit: LitVal::Char('a') }, num(42)],
                    },
                    Expr::Lit { lit: LitVal::Bool(true) },
                ],
            }),
            cont: Box::new(Expr::App {
                func: Box::new(Expr::Inst {
                    expr: Box::new(var("snd")),
                    typs: vec![tlit(LitType::TyChar), tlit(LitType::TyInt)],
                }),
                args: vec![Expr::App {
                    func: Box::new(Expr::Inst {
                        expr: Box::new(var("fst")),
                        typs: vec![char_int, tlit(LitType::TyBool)],
                    }),
                    args: vec![var("x")],
                }],
            }),
        },
    };
    Program { datas: vec![], decls: vec![fst, snd, main] }
}

fn call(f: &str, args: Vec<Expr>) -> Expr {
    Expr::App { func: Box::new(var(f)), args }
}

fn prim(prim: Prim, args: Vec<Expr>) -> Expr {
    Expr::Prim { prim, args }
}

fn fib_program(n: i64) -> Program {
    let fib = Decl {
        name: raw("fib"),
        gens: None,
        pars: vec![(raw("n"), tlit(LitType::TyInt))],
        res: tlit(LitType::TyInt),
        body: Expr::Ifte {
            cond: Box::new(prim(Prim::ICmp(Compare::Lt), vec![var("n"), num(1)])),
            trbr: Box::new(num(0)),
            flbr: Box::new(Expr::Ifte {
                cond: Box::new(prim(Prim::ICmp(Compare::Eq), vec![var("n"), num(1)])),
                trbr: Box::new(num(1)),
                flbr: Box::new(prim(
                    Prim::IAdd,
                    vec![
                        call("fib", vec![prim(Prim::ISub, vec![var("n"), num(1)])]),
                        call("fib", vec![prim(Prim::ISub, vec![var("n"), num(2)])]),
                    ],
                )),
            }),
        },
    };
    let main = Decl {
        name: raw("main"),
        gens: None,
        pars: vec![],
        res: tlit(LitType::TyInt),
        body: call("fib", vec![num(n)]),
    };
    Program { datas: vec![], decls: vec![fib, main] }
}

#[test]
fn test_pair() {
    let actual = run_program(&pair_program());
    assert_eq!(actual, "typecheck passed!\nevaluation result: Lit(Int(42))\n");
}

#[test]
fn test_rec_fib() {
    let actual = run_program(&fib_program(10));
    assert_eq!(actual, "typecheck passed!\nevaluation result: Lit(Int(55))\n");
}
