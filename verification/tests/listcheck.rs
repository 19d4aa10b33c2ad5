use norem_lang::common::lit::{LitType, LitVal};
use norem_lang::common::name::Name;
use norem_lang::common::prim::{Compare, Prim};
use norem_lang::corelang::infer::{
    check, check_decl, lookup, pop_all, push_all, push_one, Env, InferError,
};
use norem_lang::corelang::syntax::{Decl, Expr, Type};

fn raw(s: &str) -> Name {
    Name::RawId(s.to_string())
}

fn var(s: &str) -> Expr {
    Expr::Var { var: raw(s) }
}

fn tvar(s: &str) -> Type {
    Type::Var { var: raw(s) }
}

fn tint() -> Type {
    Type::Lit { lit: LitType::TyInt }
}

fn tbool() -> Type {
    Type::Lit { lit: LitType::TyBool }
}

fn tfn(pars: Vec<Type>, res: Type) -> Type {
    Type::Func { pars, res: Box::new(res) }
}

fn num(i: i64) -> Expr {
    Expr::Lit { lit: LitVal::Int(i) }
}

fn truth(b: bool) -> Expr {
    Expr::Lit { lit: LitVal::Bool(b) }
}

fn list_of(bindings: Vec<(&str, Type)>) -> Env {
    let mut env = im::Vector::new();
    for (n, t) in bindings {
        env.push_back((raw(n), t));
    }
    env
}

fn infer(bindings: Vec<(&str, Type)>, expr: &Expr) -> Result<Type, InferError> {
    check(&mut list_of(bindings), expr)
}

#[test]
fn lists_grow_and_shrink_at_the_end() {
    let mut env = list_of(vec![("x", tint())]);
    assert_eq!(env.len(), 1);
    env.push_back((raw("y"), tbool()));
    assert_eq!(env.len(), 2);
    assert_eq!(env.get(0), Some(&(raw("x"), tint())));
    assert_eq!(env.get(1), Some(&(raw("y"), tbool())));
    assert_eq!(env.get(2), None);
    env.pop_back();
    assert_eq!(env.len(), 1);
    assert_eq!(env.get(0), Some(&(raw("x"), tint())));
    env.pop_back();
    env.pop_back();
    assert_eq!(env.len(), 0);
    assert!(push_one(&mut env, raw("a"), tint()));
    assert!(push_all(&mut env, &vec![(raw("b"), tint()), (raw("c"), tbool())]));
    assert_eq!(env.len(), 3);
    assert_eq!(env.get(2), Some(&(raw("c"), tbool())));
    pop_all(&mut env, 2);
    assert_eq!(env.len(), 1);
    assert_eq!(env.get(0), Some(&(raw("a"), tint())));
    pop_all(&mut env, 5);
    assert_eq!(env.len(), 0);
}

#[test]
fn the_innermost_binding_is_found() {
    let env = list_of(vec![("x", tint()), ("y", tint()), ("x", tbool())]);
    assert_eq!(lookup(&env, &raw("x")), Some(tbool()));
    assert_eq!(lookup(&env, &raw("y")), Some(tint()));
    assert_eq!(lookup(&env, &raw("z")), None);
    assert_eq!(lookup(&im::Vector::new(), &raw("x")), None);
}

#[test]
fn list_checker_types() {
    assert_eq!(infer(vec![], &num(1)), Ok(tint()));
    assert_eq!(infer(vec![], &var("x")), Err(InferError::Error));
    assert_eq!(infer(vec![("x", tint()), ("x", tbool())], &var("x")), Ok(tbool()));
    let shadow =
        Expr::Let { bind: raw("x"), expr: Box::new(truth(true)), cont: Box::new(var("x")) };
    let mut env = list_of(vec![("x", tint())]);
    assert_eq!(check(&mut env, &shadow), Ok(tbool()));
    assert_eq!(env.len(), 1);
    assert_eq!(lookup(&env, &raw("x")), Some(tint()));
    let f = Expr::Func {
        pars: vec![(raw("a"), tint()), (raw("b"), tvar("Anything"))],
        body: Box::new(var("b")),
    };
    assert_eq!(check(&mut env, &f), Ok(tvar("Anything")));
    assert_eq!(env.len(), 1);
    let pair = Expr::Tup { flds: vec![num(1), truth(false)] };
    assert_eq!(infer(vec![], &pair), Ok(Type::Tup { flds: vec![tint(), tbool()] }));
    let sel = Expr::Sel { expr: Box::new(pair), idx: 1 };
    assert_eq!(infer(vec![], &sel), Ok(tbool()));
    let sel = Expr::Sel { expr: Box::new(num(1)), idx: 0 };
    assert_eq!(infer(vec![], &sel), Err(InferError::Error));
    let add = Expr::Prim { prim: Prim::IAdd, args: vec![num(1), var("n")] };
    assert_eq!(infer(vec![("n", tint())], &add), Ok(tint()));
    assert_eq!(infer(vec![("n", tbool())], &add), Err(InferError::Error));
    let less = Expr::Prim { prim: Prim::ICmp(Compare::Lt), args: vec![num(1), num(2)] };
    let ifte = Expr::Ifte {
        cond: Box::new(less),
        trbr: Box::new(num(1)),
        flbr: Box::new(num(2)),
    };
    assert_eq!(infer(vec![], &ifte), Ok(tint()));
    let ifte = Expr::Ifte {
        cond: Box::new(num(0)),
        trbr: Box::new(num(1)),
        flbr: Box::new(num(2)),
    };
    assert_eq!(infer(vec![], &ifte), Err(InferError::Error));
}

#[test]
fn list_checker_calls_and_quantifiers() {
    let env = || {
        vec![
            ("f", tfn(vec![tint()], tbool())),
            (
                "id",
                Type::Forall { gens: vec![raw("T")], pars: vec![tvar("T")], res: Box::new(tvar("T")) },
            ),
            ("p", Type::Exist { seals: vec![raw("S")], flds: vec![tvar("S")] }),
        ]
    };
    let call = |f: Expr, args: Vec<Expr>| Expr::App { func: Box::new(f), args };
    assert_eq!(infer(env(), &call(var("f"), vec![num(1)])), Ok(tbool()));
    assert_eq!(infer(env(), &call(var("f"), vec![truth(true)])), Err(InferError::Error));
    assert_eq!(infer(env(), &call(var("f"), vec![])), Err(InferError::Error));
    assert_eq!(infer(env(), &call(var("id"), vec![num(1)])), Err(InferError::Error));
    let inst = |typs: Vec<Type>| Expr::Inst { expr: Box::new(var("id")), typs };
    assert_eq!(infer(env(), &inst(vec![tint()])), Ok(tfn(vec![tint()], tint())));
    assert_eq!(infer(env(), &inst(vec![])), Err(InferError::Error));
    assert_eq!(infer(env(), &call(inst(vec![tint()]), vec![num(1)])), Ok(tint()));
    let pack = Expr::Pack {
        expr: Box::new(Expr::Tup { flds: vec![num(1)] }),
        seals: vec![(raw("S"), tint())],
        flds: vec![tvar("S")],
    };
    assert_eq!(
        infer(vec![], &pack),
        Ok(Type::Exist { seals: vec![raw("S")], flds: vec![tvar("S")] })
    );
    let unpack = Expr::Unpack {
        bind: raw("c"),
        opens: vec![raw("O")],
        expr: Box::new(var("p")),
        cont: Box::new(Expr::Sel { expr: Box::new(var("c")), idx: 0 }),
    };
    assert_eq!(infer(env(), &unpack), Ok(tvar("O")));
}

#[test]
fn list_checker_groups() {
    let f = Decl {
        name: raw("f"),
        gens: None,
        pars: vec![(raw("x"), tint())],
        res: tint(),
        body: Expr::App { func: Box::new(var("g")), args: vec![var("x")] },
    };
    let g = Decl {
        name: raw("g"),
        gens: None,
        pars: vec![(raw("y"), tint())],
        res: tint(),
        body: Expr::App { func: Box::new(var("f")), args: vec![var("y")] },
    };
    let group = Expr::Letrec { decls: vec![f.clone(), g.clone()], cont: Box::new(var("f")) };
    let mut env = im::Vector::new();
    assert_eq!(check(&mut env, &group), Ok(tfn(vec![tint()], tint())));
    assert_eq!(env.len(), 0);
    let mut env = list_of(vec![("g", tfn(vec![tint()], tint()))]);
    assert_eq!(check_decl(&mut env, &f), Ok(()));
    assert_eq!(env.len(), 1);
    let wrong = Decl { res: tbool(), ..f };
    assert_eq!(check_decl(&mut env, &wrong), Err(InferError::Error));
    // After a fault in the body the list is as it was.
    let broken = Decl { body: var("nowhere"), ..g };
    assert_eq!(check_decl(&mut env, &broken), Err(InferError::Error));
    assert_eq!(env.len(), 1);
    assert_eq!(env.get(0), Some(&(raw("g"), tfn(vec![tint()], tint()))));
    let deep = Expr::Let {
        bind: raw("a"),
        expr: Box::new(num(1)),
        cont: Box::new(Expr::Func {
            pars: vec![(raw("b"), tint())],
            body: Box::new(var("nowhere")),
        }),
    };
    assert_eq!(check(&mut env, &deep), Err(InferError::Error));
    assert_eq!(env.len(), 1);
}
