use norem_lang::common::lit::{LitType, LitVal};
use norem_lang::common::name::Name;
use norem_lang::common::prim::{Compare, Prim};
use norem_lang::corelang::check::{check_prog, InferError};
use norem_lang::corelang::eval::{eval, eval_prog, Control, Env, EvalError, Value};
use norem_lang::corelang::fragment::is_simple_program;
use norem_lang::corelang::syntax::{Decl, Expr, Program, Type};

const FUEL: usize = 1_000_000;

fn raw(s: &str) -> Name {
    Name::RawId(s.to_string())
}

fn var(s: &str) -> Expr {
    Expr::Var { var: raw(s) }
}

fn tlit(lit: LitType) -> Type {
    Type::Lit { lit }
}

fn tint() -> Type {
    tlit(LitType::TyInt)
}

fn tbool() -> Type {
    tlit(LitType::TyBool)
}

fn num(i: i64) -> Expr {
    Expr::Lit { lit: LitVal::Int(i) }
}

fn truth(b: bool) -> Expr {
    Expr::Lit { lit: LitVal::Bool(b) }
}

fn call(f: &str, args: Vec<Expr>) -> Expr {
    Expr::App { func: Box::new(var(f)), args }
}

fn prim(prim: Prim, args: Vec<Expr>) -> Expr {
    Expr::Prim { prim, args }
}

fn func(name: &str, pars: Vec<(&str, Type)>, res: Type, body: Expr) -> Decl {
    Decl {
        name: raw(name),
        gens: None,
        pars: pars.into_iter().map(|(n, t)| (raw(n), t)).collect(),
        res,
        body,
    }
}

fn program(decls: Vec<Decl>) -> Program {
    Program { datas: vec![], decls }
}

fn result_of(prog: &Program) -> Option<Result<Value<'_>, EvalError<'_>>> {
    eval_prog(prog, FUEL).outcome()
}

fn even_odd(main_body: Expr, main_res: Type) -> Program {
    let is_even = func(
        "is_even",
        vec![("n", tint())],
        tbool(),
        Expr::Ifte {
            cond: Box::new(prim(Prim::ICmp(Compare::Eq), vec![var("n"), num(0)])),
            trbr: Box::new(truth(true)),
            flbr: Box::new(call("is_odd", vec![prim(Prim::ISub, vec![var("n"), num(1)])])),
        },
    );
    let is_odd = func(
        "is_odd",
        vec![("n", tint())],
        tbool(),
        Expr::Ifte {
            cond: Box::new(prim(Prim::ICmp(Compare::Eq), vec![var("n"), num(0)])),
            trbr: Box::new(truth(false)),
            flbr: Box::new(call("is_even", vec![prim(Prim::ISub, vec![var("n"), num(1)])])),
        },
    );
    program(vec![is_even, is_odd, func("main", vec![], main_res, main_body)])
}

#[test]
fn mutual_recursion_checks_and_runs() {
    let prog = even_odd(call("is_even", vec![num(10)]), tbool());
    assert_eq!(check_prog(&prog), Ok(()));
    assert_eq!(result_of(&prog), Some(Ok(Value::Lit(LitVal::Bool(true)))));

    let prog = even_odd(call("is_even", vec![num(7)]), tbool());
    assert_eq!(check_prog(&prog), Ok(()));
    assert_eq!(result_of(&prog), Some(Ok(Value::Lit(LitVal::Bool(false)))));

    let prog = even_odd(call("is_odd", vec![num(7)]), tbool());
    assert_eq!(check_prog(&prog), Ok(()));
    assert_eq!(result_of(&prog), Some(Ok(Value::Lit(LitVal::Bool(true)))));
}

#[test]
fn mutual_recursion_inside_an_expression() {
    let Program { decls, .. } = even_odd(num(0), tint());
    let group: Vec<Decl> = decls.into_iter().take(2).collect();
    let body = Expr::Letrec { decls: group, cont: Box::new(call("is_odd", vec![num(3)])) };
    let prog = program(vec![func("main", vec![], tbool(), body)]);
    assert_eq!(check_prog(&prog), Ok(()));
    assert_eq!(result_of(&prog), Some(Ok(Value::Lit(LitVal::Bool(true)))));
}

fn counter_program() -> Program {
    let int_to_int = Type::Func { pars: vec![tint()], res: Box::new(tint()) };
    let counter = Expr::Pack {
        expr: Box::new(Expr::Tup {
            flds: vec![
                num(42),
                Expr::Func { pars: vec![(raw("x"), tint())], body: Box::new(var("x")) },
            ],
        }),
        seals: vec![(raw("T"), tint())],
        flds: vec![tint(), int_to_int],
    };
    let body = Expr::Let {
        bind: raw("counter"),
        expr: Box::new(counter),
        cont: Box::new(Expr::Unpack {
            bind: raw("c"),
            opens: vec![raw("T")],
            expr: Box::new(var("counter")),
            cont: Box::new(Expr::App {
                func: Box::new(Expr::Sel { expr: Box::new(var("c")), idx: 1 }),
                args: vec![Expr::Sel { expr: Box::new(var("c")), idx: 0 }],
            }),
        }),
    };
    program(vec![func("main", vec![], tint(), body)])
}

#[test]
fn counter_is_packed_and_unpacked() {
    let prog = counter_program();
    assert_eq!(result_of(&prog), Some(Ok(Value::Lit(LitVal::Int(42)))));
}

#[test]
fn function_literal_checks_to_the_type_of_its_body() {
    // The literal `fn(x: Int) => x` has the type of its body, `Int`, so the
    // tuple that holds it is no `(Int, fn(Int) -> Int)`.
    let int_to_int = Type::Func { pars: vec![tint()], res: Box::new(tint()) };
    assert_eq!(
        check_prog(&counter_program()),
        Err(InferError::CantUnifyType(int_to_int, tint()))
    );
    let literal = Expr::Func { pars: vec![(raw("x"), tint())], body: Box::new(var("x")) };
    assert_eq!(check_prog(&program(vec![func("main", vec![], tint(), literal)])), Ok(()));
}

#[test]
fn counter_with_a_declared_function_checks() {
    let int_to_int = Type::Func { pars: vec![tint()], res: Box::new(tint()) };
    let id = func("id", vec![("x", tint())], tint(), var("x"));
    let counter = Expr::Pack {
        expr: Box::new(Expr::Tup { flds: vec![num(42), var("id")] }),
        seals: vec![(raw("T"), tint())],
        flds: vec![Type::Var { var: raw("T") }, int_to_int],
    };
    let body = Expr::Unpack {
        bind: raw("c"),
        opens: vec![raw("S")],
        expr: Box::new(counter),
        cont: Box::new(Expr::App {
            func: Box::new(Expr::Sel { expr: Box::new(var("c")), idx: 1 }),
            args: vec![num(41)],
        }),
    };
    let prog = program(vec![id, func("main", vec![], tint(), body)]);
    assert_eq!(check_prog(&prog), Ok(()));
    assert_eq!(result_of(&prog), Some(Ok(Value::Lit(LitVal::Int(41)))));
}

#[test]
fn wrong_number_of_type_arguments() {
    let pair = Type::Tup {
        flds: vec![Type::Var { var: raw("T") }, Type::Var { var: raw("U") }],
    };
    let fst = Decl {
        name: raw("fst"),
        gens: Some(vec![raw("T"), raw("U")]),
        pars: vec![(raw("x"), pair)],
        res: Type::Var { var: raw("T") },
        body: Expr::Sel { expr: Box::new(var("x")), idx: 0 },
    };
    let body = Expr::App {
        func: Box::new(Expr::Inst { expr: Box::new(var("fst")), typs: vec![tint()] }),
        args: vec![Expr::Tup { flds: vec![num(1), num(2)] }],
    };
    let prog = program(vec![fst, func("main", vec![], tint(), body)]);
    assert_eq!(
        check_prog(&prog),
        Err(InferError::InstLengthNotMatch(vec![tint()], vec![raw("T"), raw("U")]))
    );
}

#[test]
fn unbound_identifier_is_named() {
    let prog = program(vec![func("main", vec![], tint(), var("y"))]);
    assert_eq!(check_prog(&prog), Err(InferError::ValVarNotInScope(raw("y"))));
    assert_eq!(result_of(&prog), Some(Err(EvalError::ValVarNotInScope(raw("y")))));
}

#[test]
fn division_by_zero_is_a_fault() {
    let quotient = prim(Prim::IDiv, vec![num(1), num(0)]);
    let remainder = prim(Prim::IRem, vec![num(1), num(0)]);
    let env = Env::new();
    let m = eval(&env, &quotient, FUEL);
    assert_eq!(m.ctrl, Control::Fail(EvalError::DivByZero(Prim::IDiv)));
    assert_eq!(m.outcome(), Some(Err(EvalError::DivByZero(Prim::IDiv))));
    assert_eq!(
        eval(&env, &remainder, FUEL).outcome(),
        Some(Err(EvalError::DivByZero(Prim::IRem)))
    );
}

#[test]
fn program_without_entry_is_unit() {
    let prog = program(vec![func("start", vec![], tint(), num(1))]);
    assert_eq!(result_of(&prog), Some(Ok(Value::Lit(LitVal::Unit))));
    let prog = program(vec![]);
    assert_eq!(check_prog(&prog), Ok(()));
    assert_eq!(result_of(&prog), Some(Ok(Value::Lit(LitVal::Unit))));
}

#[test]
fn entry_with_parameters_is_not_run() {
    let prog = program(vec![func("main", vec![("n", tint())], tint(), var("n"))]);
    assert_eq!(check_prog(&prog), Ok(()));
    assert_eq!(result_of(&prog), Some(Ok(Value::Lit(LitVal::Unit))));
}

#[test]
fn entry_must_be_a_raw_name() {
    let mut main = func("main", vec![], tint(), num(1));
    main.name = Name::UniqId("main".to_string(), 0);
    assert_eq!(result_of(&program(vec![main])), Some(Ok(Value::Lit(LitVal::Unit))));
}

#[test]
fn last_declaration_of_a_name_wins() {
    let prog = program(vec![
        func("main", vec![], tint(), num(1)),
        func("main", vec![], tint(), num(2)),
    ]);
    assert_eq!(result_of(&prog), Some(Ok(Value::Lit(LitVal::Int(2)))));
}

#[test]
fn simple_programs_are_told_apart() {
    // Monomorphic recursion.
    let prog = even_odd(call("is_even", vec![num(10)]), tbool());
    assert!(is_simple_program(&prog));
    // A function literal.
    assert!(!is_simple_program(&counter_program()));
    // A parameter of a quantified type.
    let generic = Type::Forall {
        gens: vec![raw("T")],
        pars: vec![Type::Var { var: raw("T") }],
        res: Box::new(Type::Var { var: raw("T") }),
    };
    let prog = program(vec![func("f", vec![("g", generic)], tint(), num(1))]);
    assert!(!is_simple_program(&prog));
    // A generic declaration inside another that takes its generic name again.
    let inner = Decl {
        name: raw("g"),
        gens: Some(vec![raw("T")]),
        pars: vec![(raw("y"), Type::Var { var: raw("T") })],
        res: Type::Var { var: raw("T") },
        body: var("y"),
    };
    let outer = |inner_gens: &str| Decl {
        name: raw("f"),
        gens: Some(vec![raw("T")]),
        pars: vec![(raw("x"), Type::Var { var: raw("T") })],
        res: tint(),
        body: Expr::Letrec {
            decls: vec![Decl { gens: Some(vec![raw(inner_gens)]), ..inner.clone() }],
            cont: Box::new(num(1)),
        },
    };
    assert!(!is_simple_program(&program(vec![outer("T")])));
    let inner_u = Decl {
        pars: vec![(raw("y"), Type::Var { var: raw("U") })],
        res: Type::Var { var: raw("U") },
        ..inner.clone()
    };
    let renamed = Decl {
        body: Expr::Letrec {
            decls: vec![Decl { gens: Some(vec![raw("U")]), ..inner_u }],
            cont: Box::new(num(1)),
        },
        ..outer("U")
    };
    assert!(is_simple_program(&program(vec![renamed.clone()])));
    assert_eq!(check_prog(&program(vec![renamed])), Ok(()));
}

#[test]
fn shadowed_generic_name_breaks_typing() {
    // function f[T](x: T) -> Int = letrec function g[T](y: T) -> T = x in g[Int](5) + 1
    // The inner T hides the outer one, so the check takes x for a value of
    // the inner T; called at Bool, the program adds to a truth value.
    let tv = || Type::Var { var: raw("T") };
    let g = Decl {
        name: raw("g"),
        gens: Some(vec![raw("T")]),
        pars: vec![(raw("y"), tv())],
        res: tv(),
        body: var("x"),
    };
    let f = Decl {
        name: raw("f"),
        gens: Some(vec![raw("T")]),
        pars: vec![(raw("x"), tv())],
        res: tint(),
        body: Expr::Letrec {
            decls: vec![g],
            cont: Box::new(prim(
                Prim::IAdd,
                vec![
                    Expr::App {
                        func: Box::new(Expr::Inst { expr: Box::new(var("g")), typs: vec![tint()] }),
                        args: vec![num(5)],
                    },
                    num(1),
                ],
            )),
        },
    };
    let main = func(
        "main",
        vec![],
        tint(),
        Expr::App {
            func: Box::new(Expr::Inst { expr: Box::new(var("f")), typs: vec![tbool()] }),
            args: vec![truth(true)],
        },
    );
    let prog = program(vec![f, main]);
    assert!(!is_simple_program(&prog));
    assert_eq!(check_prog(&prog), Ok(()));
    assert_eq!(
        result_of(&prog),
        Some(Err(EvalError::PrimGotStuck(
            Prim::IAdd,
            vec![Value::Lit(LitVal::Bool(true)), Value::Lit(LitVal::Int(1))]
        )))
    );
}

#[test]
fn function_literal_breaks_typing() {
    // main = if (fn(x: Bool) => x) then 1 else 2
    let literal = Expr::Func { pars: vec![(raw("x"), tbool())], body: Box::new(var("x")) };
    let body = Expr::Ifte {
        cond: Box::new(literal),
        trbr: Box::new(num(1)),
        flbr: Box::new(num(2)),
    };
    let prog = program(vec![func("main", vec![], tint(), body)]);
    assert_eq!(check_prog(&prog), Ok(()));
    assert!(matches!(result_of(&prog), Some(Err(EvalError::IfteNotABool(Value::Clos(..))))));
}

#[test]
fn checked_simple_programs_run_without_getting_stuck() {
    for n in [0, 1, 2, 7, 50] {
        let prog = even_odd(call("is_odd", vec![num(n)]), tbool());
        assert!(is_simple_program(&prog));
        assert_eq!(check_prog(&prog), Ok(()));
        assert_eq!(result_of(&prog), Some(Ok(Value::Lit(LitVal::Bool(n % 2 == 1)))));
    }
    // main = 1 / (0 - 0): a fault, but not a stuck one.
    let body = prim(Prim::IDiv, vec![num(1), prim(Prim::ISub, vec![num(0), num(0)])]);
    let prog = program(vec![func("main", vec![], tint(), body)]);
    assert!(is_simple_program(&prog));
    assert_eq!(check_prog(&prog), Ok(()));
    assert_eq!(result_of(&prog), Some(Err(EvalError::DivByZero(Prim::IDiv))));
}

fn package(first: Expr, second: &str, hidden: Type, result: Type) -> Expr {
    // pack (first, second) as [T = hidden](T, fn(T) -> result)
    Expr::Pack {
        expr: Box::new(Expr::Tup { flds: vec![first, var(second)] }),
        seals: vec![(raw("T"), hidden)],
        flds: vec![
            Type::Var { var: raw("T") },
            Type::Func { pars: vec![Type::Var { var: raw("T") }], res: Box::new(result) },
        ],
    }
}

fn unpack(bind: &str, open: &str, expr: Expr, cont: Expr) -> Expr {
    Expr::Unpack {
        bind: raw(bind),
        opens: vec![raw(open)],
        expr: Box::new(expr),
        cont: Box::new(cont),
    }
}

fn sel(e: &str, idx: usize) -> Expr {
    Expr::Sel { expr: Box::new(var(e)), idx }
}

fn negate_and_invert(main_body: Expr) -> Program {
    program(vec![
        func("negate", vec![("x", tint())], tint(), prim(Prim::INeg, vec![var("x")])),
        func("invert", vec![("x", tbool())], tbool(), prim(Prim::BNot, vec![var("x")])),
        func("main", vec![], tint(), main_body),
    ])
}

#[test]
fn packages_are_simple_where_nothing_opened_leaves() {
    // unpack a[X] = pack (5, negate) as [T = Int](T, fn(T) -> Int) in a.1(a.0)
    let body = unpack(
        "a",
        "X",
        package(num(5), "negate", tint(), tint()),
        Expr::App { func: Box::new(sel("a", 1)), args: vec![sel("a", 0)] },
    );
    let prog = negate_and_invert(body);
    assert!(is_simple_program(&prog));
    assert_eq!(check_prog(&prog), Ok(()));
    assert_eq!(result_of(&prog), Some(Ok(Value::Lit(LitVal::Int(-5)))));
}

#[test]
fn opened_type_that_leaves_breaks_typing() {
    // (unpack a[X] = pack (1, negate) as [T = Int](T, fn(T) -> Int) in a.1)
    //     (unpack b[X] = pack (true, invert) as [T = Bool](T, fn(T) -> Bool) in b.0)
    // Both unpackings yield a type that names X, for two different hidden
    // types: the check takes them for one.
    let function = unpack("a", "X", package(num(1), "negate", tint(), tint()), sel("a", 1));
    let argument = unpack("b", "X", package(truth(true), "invert", tbool(), tbool()), sel("b", 0));
    let prog = negate_and_invert(Expr::App { func: Box::new(function), args: vec![argument] });
    assert!(!is_simple_program(&prog));
    assert_eq!(check_prog(&prog), Ok(()));
    assert_eq!(
        result_of(&prog),
        Some(Err(EvalError::PrimGotStuck(Prim::INeg, vec![Value::Lit(LitVal::Bool(true))])))
    );
}

#[test]
fn unpacking_must_open_fresh_and_distinct_names() {
    let cont = || Expr::App { func: Box::new(sel("a", 1)), args: vec![sel("a", 0)] };
    let twice = Expr::Unpack {
        bind: raw("a"),
        opens: vec![raw("X"), raw("X")],
        expr: Box::new(package(num(5), "negate", tint(), tint())),
        cont: Box::new(cont()),
    };
    assert!(!is_simple_program(&negate_and_invert(twice)));
    // Inside a declaration that is generic in X, X cannot be opened again.
    let inner = unpack("a", "X", package(num(5), "negate", tint(), tint()), cont());
    let generic = |open: &str| Decl {
        name: raw("f"),
        gens: Some(vec![raw("X")]),
        pars: vec![],
        res: tint(),
        body: unpack("a", open, package(num(5), "negate", tint(), tint()), cont()),
    };
    let with = |f: Decl| {
        program(vec![func("negate", vec![("x", tint())], tint(), prim(Prim::INeg, vec![var("x")])), f])
    };
    assert!(!is_simple_program(&with(generic("X"))));
    assert!(is_simple_program(&with(generic("Y"))));
    assert!(is_simple_program(&negate_and_invert(inner)));
}
