use norem_lang::common::lit::{LitType, LitVal};
use norem_lang::common::name::Name;
use norem_lang::common::prim::{binop, binop_comp, print, scan, unop, Compare, Prim};
use norem_lang::corelang::check::{
    check_decl, check_expr, check_prog, check_typ, get_decl_type, subst, InferError,
};
use norem_lang::corelang::scope::{Env, TyEnv};
use norem_lang::corelang::fragment::{is_simple_decl, is_simple_expr};
use norem_lang::corelang::simple::{
    are_distinct, are_fresh, are_simple_types, is_scoped, is_simple_type,
};
use norem_lang::corelang::syntax::{Decl, Expr, Program, Type};

fn raw(s: &str) -> Name {
    Name::RawId(s.to_string())
}

fn var(s: &str) -> Expr {
    Expr::Var { var: raw(s) }
}

fn tvar(s: &str) -> Type {
    Type::Var { var: raw(s) }
}

fn tlit(lit: LitType) -> Type {
    Type::Lit { lit }
}

fn tint() -> Type {
    tlit(LitType::TyInt)
}

fn tbool() -> Type {
    tlit(LitType::TyBool)
}

fn tchar() -> Type {
    tlit(LitType::TyChar)
}

fn tfn(pars: Vec<Type>, res: Type) -> Type {
    Type::Func { pars, res: Box::new(res) }
}

fn num(i: i64) -> Expr {
    Expr::Lit { lit: LitVal::Int(i) }
}

fn truth(b: bool) -> Expr {
    Expr::Lit { lit: LitVal::Bool(b) }
}

fn scope_of(names: &[&str]) -> TyEnv {
    let mut scope = TyEnv::new();
    for n in names {
        scope.insert(raw(n));
    }
    scope
}

fn env_of(bindings: Vec<(&str, Type)>) -> Env {
    let mut env = Env::new();
    for (n, t) in bindings {
        env.insert(raw(n), t);
    }
    env
}

fn check(expr: &Expr) -> Result<Type, InferError> {
    check_expr(&mut TyEnv::new(), &mut Env::new(), expr)
}

fn check_in(names: &[&str], bindings: Vec<(&str, Type)>, expr: &Expr) -> Result<Type, InferError> {
    check_expr(&mut scope_of(names), &mut env_of(bindings), expr)
}

#[test]
fn literal_types() {
    assert_eq!(LitVal::Int(3).get_typ(), LitType::TyInt);
    assert_eq!(LitVal::Float(0).get_typ(), LitType::TyFloat);
    assert_eq!(LitVal::Char('c').get_typ(), LitType::TyChar);
    assert_eq!(LitVal::Bool(true).get_typ(), LitType::TyBool);
    assert_eq!(LitVal::Unit.get_typ(), LitType::TyUnit);
    assert_eq!(check(&num(3)), Ok(tint()));
    assert_eq!(check(&Expr::Lit { lit: LitVal::Unit }), Ok(tlit(LitType::TyUnit)));
}

#[test]
fn primitive_types() {
    let tfloat = || tlit(LitType::TyFloat);
    let tunit = || tlit(LitType::TyUnit);
    assert_eq!(Prim::INeg.get_type(), tfn(vec![tint()], tint()));
    assert_eq!(Prim::IAdd.get_type(), tfn(vec![tint(), tint()], tint()));
    assert_eq!(Prim::IRem.get_type(), tfn(vec![tint(), tint()], tint()));
    assert_eq!(Prim::ICmp(Compare::Le).get_type(), tfn(vec![tint(), tint()], tbool()));
    assert_eq!(Prim::FNeg.get_type(), tfn(vec![tfloat()], tfloat()));
    assert_eq!(Prim::FDiv.get_type(), tfn(vec![tfloat(), tfloat()], tfloat()));
    assert_eq!(Prim::FCmp(Compare::Gt).get_type(), tfn(vec![tfloat(), tfloat()], tbool()));
    assert_eq!(Prim::CCmp(Compare::Eq).get_type(), tfn(vec![tchar(), tchar()], tbool()));
    assert_eq!(Prim::BNot.get_type(), tfn(vec![tbool()], tbool()));
    assert_eq!(Prim::BXor.get_type(), tfn(vec![tbool(), tbool()], tbool()));
    assert_eq!(Prim::IScan.get_type(), tfn(vec![], tint()));
    assert_eq!(Prim::FScan.get_type(), tfn(vec![], tfloat()));
    assert_eq!(Prim::CScan.get_type(), tfn(vec![], tchar()));
    assert_eq!(Prim::IPrint.get_type(), tfn(vec![tint()], tunit()));
    assert_eq!(Prim::FPrint.get_type(), tfn(vec![tfloat()], tunit()));
    assert_eq!(Prim::CPrint.get_type(), tfn(vec![tchar()], tunit()));
    assert_eq!(unop(LitType::TyBool), tfn(vec![tbool()], tbool()));
    assert_eq!(binop(LitType::TyInt), tfn(vec![tint(), tint()], tint()));
    assert_eq!(binop_comp(LitType::TyChar), tfn(vec![tchar(), tchar()], tbool()));
    assert_eq!(scan(LitType::TyChar), tfn(vec![], tchar()));
    assert_eq!(print(LitType::TyInt), tfn(vec![tint()], tunit()));
}

#[test]
fn names_are_equal_by_kind_and_payload() {
    assert!(raw("x").same(&raw("x")));
    assert!(!raw("x").same(&raw("y")));
    assert!(!raw("x").same(&Name::UniqId("x".to_string(), 0)));
    assert!(Name::UniqId("x".to_string(), 1).same(&Name::UniqId("x".to_string(), 1)));
    assert!(!Name::UniqId("x".to_string(), 1).same(&Name::UniqId("x".to_string(), 2)));
    assert!(Name::GenId('t', 3).same(&Name::GenId('t', 3)));
    assert!(!Name::GenId('t', 3).same(&Name::GenId('u', 3)));
    assert_eq!(raw("x").clone(), raw("x"));
}

#[test]
fn types_are_equal_by_structure() {
    let a = Type::Forall {
        gens: vec![raw("T")],
        pars: vec![tvar("T"), Type::Tup { flds: vec![tint(), tvar("T")] }],
        res: Box::new(Type::Exist { seals: vec![raw("S")], flds: vec![tvar("S")] }),
    };
    assert!(a.same(&a.clone()));
    assert_eq!(a.clone(), a);
    let b = Type::Forall {
        gens: vec![raw("T")],
        pars: vec![tvar("T"), Type::Tup { flds: vec![tint(), tvar("T")] }],
        res: Box::new(Type::Exist { seals: vec![raw("S")], flds: vec![tvar("T")] }),
    };
    assert!(!a.same(&b));
    assert!(!tint().same(&tbool()));
    assert!(!tfn(vec![tint()], tint()).same(&tfn(vec![tint(), tint()], tint())));
    assert!(!Type::Tup { flds: vec![] }.same(&Type::Exist { seals: vec![], flds: vec![] }));
}

#[test]
fn scopes_hold_what_was_put_in() {
    let scope = scope_of(&["T"]);
    assert!(scope.contains(&raw("T")));
    assert!(!scope.contains(&raw("U")));
    let mut env = env_of(vec![("x", tint())]);
    assert_eq!(env.get(&raw("x")), Some(&tint()));
    assert_eq!(env.get(&raw("y")), None);
    env.insert(raw("x"), tbool());
    assert_eq!(env.get(&raw("x")), Some(&tbool()));
}

#[test]
fn well_formed_types() {
    let mut scope = scope_of(&["T"]);
    assert_eq!(check_typ(&mut scope, &tint()), Ok(()));
    assert_eq!(check_typ(&mut scope, &tvar("T")), Ok(()));
    assert_eq!(check_typ(&mut scope, &tvar("U")), Err(InferError::TypeVarNotInScope(raw("U"))));
    assert_eq!(
        check_typ(&mut scope, &tfn(vec![tvar("T"), tvar("A")], tvar("B"))),
        Err(InferError::TypeVarNotInScope(raw("A")))
    );
    assert_eq!(
        check_typ(&mut scope, &tfn(vec![tvar("T")], tvar("B"))),
        Err(InferError::TypeVarNotInScope(raw("B")))
    );
    assert_eq!(
        check_typ(&mut scope, &Type::Tup { flds: vec![tint(), tvar("C")] }),
        Err(InferError::TypeVarNotInScope(raw("C")))
    );
    let generic = Type::Forall {
        gens: vec![raw("U")],
        pars: vec![tvar("U"), tvar("T")],
        res: Box::new(tvar("U")),
    };
    assert_eq!(check_typ(&mut scope, &generic), Ok(()));
    // The generic name is in scope inside the quantifier only.
    assert!(!scope.contains(&raw("U")));
    assert_eq!(
        check_typ(&mut scope, &Type::Tup { flds: vec![generic, tvar("U")] }),
        Err(InferError::TypeVarNotInScope(raw("U")))
    );
}

#[test]
fn existential_fields_are_read_in_the_outer_scope() {
    let sealed = Type::Exist { seals: vec![raw("S")], flds: vec![tint(), tvar("S")] };
    assert_eq!(
        check_typ(&mut TyEnv::new(), &sealed),
        Err(InferError::TypeVarNotInScope(raw("S")))
    );
    assert_eq!(check_typ(&mut scope_of(&["S"]), &sealed), Ok(()));
    let closed = Type::Exist { seals: vec![raw("S")], flds: vec![tint()] };
    assert_eq!(check_typ(&mut TyEnv::new(), &closed), Ok(()));
}

#[test]
fn substitution_replaces_and_shadows() {
    let mut map = env_of(vec![("T", tint()), ("U", tbool())]);
    assert_eq!(subst(&mut map, &tvar("T")), tint());
    assert_eq!(subst(&mut map, &tvar("V")), tvar("V"));
    assert_eq!(subst(&mut map, &tchar()), tchar());
    assert_eq!(
        subst(&mut map, &tfn(vec![tvar("T"), tvar("U")], tvar("T"))),
        tfn(vec![tint(), tbool()], tint())
    );
    assert_eq!(
        subst(&mut map, &Type::Tup { flds: vec![tvar("U"), tvar("W")] }),
        Type::Tup { flds: vec![tbool(), tvar("W")] }
    );
    let generic = Type::Forall {
        gens: vec![raw("T")],
        pars: vec![tvar("T"), tvar("U")],
        res: Box::new(tvar("T")),
    };
    assert_eq!(
        subst(&mut map, &generic),
        Type::Forall {
            gens: vec![raw("T")],
            pars: vec![tvar("T"), tbool()],
            res: Box::new(tvar("T")),
        }
    );
    let sealed = Type::Exist { seals: vec![raw("U")], flds: vec![tvar("T"), tvar("U")] };
    assert_eq!(
        subst(&mut map, &sealed),
        Type::Exist { seals: vec![raw("U")], flds: vec![tint(), tvar("U")] }
    );
    // The map is as it was.
    assert_eq!(map.get(&raw("T")), Some(&tint()));
    assert_eq!(map.get(&raw("U")), Some(&tbool()));
}

#[test]
fn substitution_does_not_rename() {
    // The variable U of the argument is caught by the binder of the same name.
    let mut map = env_of(vec![("T", tvar("U"))]);
    let generic = Type::Forall { gens: vec![raw("U")], pars: vec![tvar("U")], res: Box::new(tvar("T")) };
    assert_eq!(
        subst(&mut map, &generic),
        Type::Forall { gens: vec![raw("U")], pars: vec![tvar("U")], res: Box::new(tvar("U")) }
    );
}

#[test]
fn substitution_keeps_types_well_formed() {
    let typ = Type::Forall {
        gens: vec![raw("V")],
        pars: vec![tvar("T"), Type::Tup { flds: vec![tvar("V"), tvar("G")] }],
        res: Box::new(tvar("U")),
    };
    assert_eq!(check_typ(&mut scope_of(&["G", "T", "U"]), &typ), Ok(()));
    assert_eq!(
        check_typ(&mut scope_of(&["G"]), &typ),
        Err(InferError::TypeVarNotInScope(raw("T")))
    );
    let mut map = env_of(vec![("T", tint()), ("U", tfn(vec![tvar("G")], tbool()))]);
    let replaced = subst(&mut map, &typ);
    assert_eq!(check_typ(&mut scope_of(&["G"]), &replaced), Ok(()));
}

#[test]
fn substitution_under_a_seal_of_the_same_name() {
    // Well formed with T in scope, unchanged by the substitution, and so not
    // well formed without T.
    let typ = Type::Exist { seals: vec![raw("T")], flds: vec![tvar("T")] };
    assert_eq!(check_typ(&mut scope_of(&["T"]), &typ), Ok(()));
    let mut map = env_of(vec![("T", tint())]);
    let replaced = subst(&mut map, &typ);
    assert_eq!(replaced, typ);
    assert_eq!(
        check_typ(&mut TyEnv::new(), &replaced),
        Err(InferError::TypeVarNotInScope(raw("T")))
    );
}

#[test]
fn variables_and_bindings() {
    assert_eq!(check(&var("x")), Err(InferError::ValVarNotInScope(raw("x"))));
    assert_eq!(check_in(&[], vec![("x", tint())], &var("x")), Ok(tint()));
    let shadow = Expr::Let {
        bind: raw("x"),
        expr: Box::new(truth(true)),
        cont: Box::new(var("x")),
    };
    let mut env = env_of(vec![("x", tint())]);
    assert_eq!(check_expr(&mut TyEnv::new(), &mut env, &shadow), Ok(tbool()));
    // The binding is seen inside the `let` only.
    assert_eq!(env.get(&raw("x")), Some(&tint()));
    let broken = Expr::Let { bind: raw("x"), expr: Box::new(var("y")), cont: Box::new(num(1)) };
    assert_eq!(check(&broken), Err(InferError::ValVarNotInScope(raw("y"))));
}

#[test]
fn function_literals() {
    let f = Expr::Func {
        pars: vec![(raw("x"), tint()), (raw("y"), tbool())],
        body: Box::new(var("y")),
    };
    assert_eq!(check(&f), Ok(tbool()));
    let g = Expr::Func { pars: vec![(raw("x"), tvar("T"))], body: Box::new(var("x")) };
    assert_eq!(check(&g), Err(InferError::TypeVarNotInScope(raw("T"))));
    assert_eq!(check_in(&["T"], vec![], &g), Ok(tvar("T")));
}

#[test]
fn applications() {
    let f_ty = tfn(vec![tint(), tbool()], tchar());
    let env = || vec![("f", tfn(vec![tint(), tbool()], tchar())), ("n", tint())];
    let app = |args: Vec<Expr>| Expr::App { func: Box::new(var("f")), args };
    assert_eq!(check_in(&[], env(), &app(vec![num(1), truth(true)])), Ok(tchar()));
    assert_eq!(
        check_in(&[], env(), &app(vec![num(1)])),
        Err(InferError::AppLengthNotMatch(vec![num(1)], vec![tint(), tbool()]))
    );
    assert_eq!(
        check_in(&[], env(), &app(vec![truth(true), num(1)])),
        Err(InferError::CantUnifyType(tint(), tbool()))
    );
    assert_eq!(
        check_in(&[], env(), &app(vec![num(1), var("zz")])),
        Err(InferError::ValVarNotInScope(raw("zz")))
    );
    let not_fn = Expr::App { func: Box::new(var("n")), args: vec![] };
    assert_eq!(check_in(&[], env(), &not_fn), Err(InferError::AppNotAFunction(var("n"))));
    assert_eq!(check_in(&[], env(), &var("f")), Ok(f_ty));
}

#[test]
fn primitive_applications() {
    let add = |args: Vec<Expr>| Expr::Prim { prim: Prim::IAdd, args };
    assert_eq!(check(&add(vec![num(1), num(2)])), Ok(tint()));
    assert_eq!(
        check(&add(vec![num(1)])),
        Err(InferError::AppLengthNotMatch(vec![num(1)], vec![tint(), tint()]))
    );
    assert_eq!(
        check(&add(vec![num(1), truth(true)])),
        Err(InferError::CantUnifyType(tint(), tbool()))
    );
    let less = Expr::Prim { prim: Prim::ICmp(Compare::Lt), args: vec![num(1), num(2)] };
    assert_eq!(check(&less), Ok(tbool()));
    let read = Expr::Prim { prim: Prim::CScan, args: vec![] };
    assert_eq!(check(&read), Ok(tchar()));
    let write = Expr::Prim { prim: Prim::IPrint, args: vec![num(1)] };
    assert_eq!(check(&write), Ok(tlit(LitType::TyUnit)));
}

#[test]
fn tuples_and_projections() {
    let pair = Expr::Tup { flds: vec![num(1), truth(true)] };
    assert_eq!(check(&pair), Ok(Type::Tup { flds: vec![tint(), tbool()] }));
    assert_eq!(check(&Expr::Tup { flds: vec![] }), Ok(Type::Tup { flds: vec![] }));
    let broken = Expr::Tup { flds: vec![num(1), var("a"), var("b")] };
    assert_eq!(check(&broken), Err(InferError::ValVarNotInScope(raw("a"))));
    let sel = |idx: usize| Expr::Sel {
        expr: Box::new(Expr::Tup { flds: vec![num(1), truth(true)] }),
        idx,
    };
    assert_eq!(check(&sel(0)), Ok(tint()));
    assert_eq!(check(&sel(1)), Ok(tbool()));
    assert_eq!(
        check(&sel(2)),
        Err(InferError::SelIndexOutOfBound(Expr::Tup { flds: vec![num(1), truth(true)] }, 2))
    );
    let not_tuple = Expr::Sel { expr: Box::new(num(1)), idx: 0 };
    assert_eq!(check(&not_tuple), Err(InferError::SelNotATuple(num(1))));
}

#[test]
fn conditionals() {
    let ifte = |c: Expr, t: Expr, f: Expr| Expr::Ifte {
        cond: Box::new(c),
        trbr: Box::new(t),
        flbr: Box::new(f),
    };
    assert_eq!(check(&ifte(truth(true), num(1), num(2))), Ok(tint()));
    assert_eq!(
        check(&ifte(num(0), num(1), num(2))),
        Err(InferError::CantUnifyType(tbool(), tint()))
    );
    assert_eq!(
        check(&ifte(truth(true), num(1), truth(false))),
        Err(InferError::CantUnifyType(tint(), tbool()))
    );
    assert_eq!(
        check(&ifte(num(0), var("a"), num(2))),
        Err(InferError::CantUnifyType(tbool(), tint()))
    );
    assert_eq!(
        check(&ifte(truth(true), var("a"), var("b"))),
        Err(InferError::ValVarNotInScope(raw("a")))
    );
}

fn id_decl() -> Decl {
    Decl {
        name: raw("id"),
        gens: Some(vec![raw("T")]),
        pars: vec![(raw("x"), tvar("T"))],
        res: tvar("T"),
        body: var("x"),
    }
}

#[test]
fn declared_types() {
    assert_eq!(
        get_decl_type(&id_decl()),
        Type::Forall { gens: vec![raw("T")], pars: vec![tvar("T")], res: Box::new(tvar("T")) }
    );
    let mono = Decl {
        name: raw("f"),
        gens: None,
        pars: vec![(raw("x"), tint()), (raw("y"), tbool())],
        res: tchar(),
        body: var("x"),
    };
    assert_eq!(get_decl_type(&mono), tfn(vec![tint(), tbool()], tchar()));
    let empty_gens = Decl { gens: Some(vec![]), ..mono.clone() };
    assert_eq!(
        get_decl_type(&empty_gens),
        Type::Forall { gens: vec![], pars: vec![tint(), tbool()], res: Box::new(tchar()) }
    );
}

#[test]
fn declarations() {
    assert_eq!(check_decl(&mut TyEnv::new(), &mut Env::new(), &id_decl()), Ok(()));
    let wrong_body = Decl { body: num(1), ..id_decl() };
    assert_eq!(
        check_decl(&mut TyEnv::new(), &mut Env::new(), &wrong_body),
        Err(InferError::CantUnifyType(tint(), tvar("T")))
    );
    let wrong_par = Decl { pars: vec![(raw("x"), tvar("U"))], ..id_decl() };
    assert_eq!(
        check_decl(&mut TyEnv::new(), &mut Env::new(), &wrong_par),
        Err(InferError::TypeVarNotInScope(raw("U")))
    );
    let wrong_res = Decl { res: tvar("R"), ..id_decl() };
    assert_eq!(
        check_decl(&mut TyEnv::new(), &mut Env::new(), &wrong_res),
        Err(InferError::TypeVarNotInScope(raw("R")))
    );
}

#[test]
fn instantiations() {
    let env = || vec![("id", get_decl_type(&id_decl())), ("n", tint())];
    let inst = |e: &str, typs: Vec<Type>| Expr::Inst { expr: Box::new(var(e)), typs };
    assert_eq!(check_in(&[], env(), &inst("id", vec![tint()])), Ok(tfn(vec![tint()], tint())));
    assert_eq!(
        check_in(&["G"], env(), &inst("id", vec![tvar("G")])),
        Ok(tfn(vec![tvar("G")], tvar("G")))
    );
    assert_eq!(
        check_in(&[], env(), &inst("id", vec![tvar("G")])),
        Err(InferError::TypeVarNotInScope(raw("G")))
    );
    assert_eq!(
        check_in(&[], env(), &inst("id", vec![])),
        Err(InferError::InstLengthNotMatch(vec![], vec![raw("T")]))
    );
    assert_eq!(
        check_in(&[], env(), &inst("id", vec![tint(), tbool()])),
        Err(InferError::InstLengthNotMatch(vec![tint(), tbool()], vec![raw("T")]))
    );
    assert_eq!(
        check_in(&[], env(), &inst("n", vec![tint()])),
        Err(InferError::InstNotAForall(var("n")))
    );
    // A generic function is not called before it is instantiated.
    let direct = Expr::App { func: Box::new(var("id")), args: vec![num(1)] };
    assert_eq!(check_in(&[], env(), &direct), Err(InferError::AppNotAFunction(var("id"))));
}

#[test]
fn packing() {
    let pack = |e: Expr, seals: Vec<(&str, Type)>, flds: Vec<Type>| Expr::Pack {
        expr: Box::new(e),
        seals: seals.into_iter().map(|(n, t)| (raw(n), t)).collect(),
        flds,
    };
    let pair = || Expr::Tup { flds: vec![num(1), truth(true)] };
    assert_eq!(
        check(&pack(pair(), vec![("S", tint())], vec![tvar("S"), tbool()])),
        Ok(Type::Exist { seals: vec![raw("S")], flds: vec![tvar("S"), tbool()] })
    );
    assert_eq!(
        check(&pack(pair(), vec![("S", tint())], vec![tvar("S"), tvar("S")])),
        Err(InferError::CantUnifyType(tint(), tbool()))
    );
    assert_eq!(
        check(&pack(pair(), vec![("S", tint())], vec![tvar("S")])),
        Err(InferError::PackLengthNotMatch(vec![tint(), tbool()], vec![tvar("S")]))
    );
    assert_eq!(
        check(&pack(num(1), vec![("S", tint())], vec![tvar("S")])),
        Err(InferError::PackNotATuple(num(1)))
    );
    assert_eq!(
        check(&pack(pair(), vec![("S", tvar("Q"))], vec![tvar("S"), tbool()])),
        Err(InferError::TypeVarNotInScope(raw("Q")))
    );
    assert_eq!(
        check(&pack(pair(), vec![("S", tint())], vec![tvar("R"), tbool()])),
        Err(InferError::TypeVarNotInScope(raw("R")))
    );
}

#[test]
fn unpacking() {
    let sealed = Type::Exist { seals: vec![raw("S")], flds: vec![tvar("S"), tbool()] };
    let env = || {
        vec![
            ("p", Type::Exist { seals: vec![raw("S")], flds: vec![tvar("S"), tbool()] }),
            ("n", tint()),
        ]
    };
    let unpack = |opens: Vec<&str>, e: &str, cont: Expr| Expr::Unpack {
        bind: raw("c"),
        opens: opens.into_iter().map(raw).collect(),
        expr: Box::new(var(e)),
        cont: Box::new(cont),
    };
    assert_eq!(
        check_in(&[], env(), &unpack(vec!["O"], "p", var("c"))),
        Ok(Type::Tup { flds: vec![tvar("O"), tbool()] })
    );
    let second = Expr::Sel { expr: Box::new(var("c")), idx: 1 };
    assert_eq!(check_in(&[], env(), &unpack(vec!["O"], "p", second)), Ok(tbool()));
    assert_eq!(
        check_in(&[], env(), &unpack(vec![], "p", var("c"))),
        Err(InferError::UnpackLengthNotMatch(vec![], vec![raw("S")]))
    );
    assert_eq!(
        check_in(&[], env(), &unpack(vec!["O"], "n", var("c"))),
        Err(InferError::UnpackNotAExist(var("n")))
    );
    // The opened name is in scope in the continuation.
    let uses_open = Expr::Func { pars: vec![(raw("y"), tvar("O"))], body: Box::new(var("y")) };
    assert_eq!(check_in(&[], env(), &unpack(vec!["O"], "p", uses_open)), Ok(tvar("O")));
    assert_eq!(check_in(&[], env(), &var("p")), Ok(sealed));
}

#[test]
fn groups_see_every_member() {
    let f = Decl {
        name: raw("f"),
        gens: None,
        pars: vec![(raw("x"), tint())],
        res: tint(),
        body: Expr::App { func: Box::new(var("g")), args: vec![var("x")] },
    };
    let g = Decl {
        name: raw("g"),
        gens: None,
        pars: vec![(raw("y"), tint())],
        res: tint(),
        body: Expr::App { func: Box::new(var("f")), args: vec![var("y")] },
    };
    let group = Expr::Letrec {
        decls: vec![f.clone(), g.clone()],
        cont: Box::new(var("g")),
    };
    assert_eq!(check(&group), Ok(tfn(vec![tint()], tint())));
    // Outside the group its names are not in scope.
    let mut env = Env::new();
    assert_eq!(check_expr(&mut TyEnv::new(), &mut env, &group), Ok(tfn(vec![tint()], tint())));
    assert_eq!(env.get(&raw("f")), None);
    let bad_body = Decl { body: truth(true), ..g.clone() };
    let group = Expr::Letrec { decls: vec![f.clone(), bad_body], cont: Box::new(num(0)) };
    assert_eq!(check(&group), Err(InferError::CantUnifyType(tbool(), tint())));
    let bad_sig = Decl { res: tvar("Z"), ..g };
    let group = Expr::Letrec { decls: vec![f.clone(), bad_sig], cont: Box::new(num(0)) };
    assert_eq!(check(&group), Err(InferError::TypeVarNotInScope(raw("Z"))));
    let program = Program { datas: vec![], decls: vec![f] };
    assert_eq!(check_prog(&program), Err(InferError::ValVarNotInScope(raw("g"))));
}

#[test]
fn simple_and_scoped_types() {
    let generic = Type::Forall {
        gens: vec![raw("T")],
        pars: vec![tvar("T"), tvar("G")],
        res: Box::new(tvar("T")),
    };
    let sealed = Type::Exist { seals: vec![raw("S")], flds: vec![tvar("S"), tint()] };
    assert!(is_simple_type(&tint()));
    assert!(is_simple_type(&tfn(vec![tvar("T"), Type::Tup { flds: vec![tbool()] }], tvar("U"))));
    assert!(!is_simple_type(&generic));
    assert!(!is_simple_type(&sealed));
    assert!(!is_simple_type(&Type::Tup { flds: vec![tint(), sealed.clone()] }));
    assert!(!is_simple_type(&tfn(vec![generic.clone()], tint())));
    assert!(are_simple_types(&vec![tint(), tvar("T")]));
    assert!(!are_simple_types(&vec![tint(), generic.clone()]));

    assert!(is_scoped(&tint(), &scope_of(&[])));
    assert!(is_scoped(&tvar("T"), &scope_of(&["T"])));
    assert!(!is_scoped(&tvar("T"), &scope_of(&["U"])));
    assert!(is_scoped(&generic, &scope_of(&["G"])));
    assert!(!is_scoped(&generic, &scope_of(&[])));
    // Unlike the check of a written type, scoping counts the sealed names as
    // bound in the fields.
    assert!(is_scoped(&sealed, &scope_of(&[])));
    assert_eq!(
        check_typ(&mut scope_of(&[]), &sealed),
        Err(InferError::TypeVarNotInScope(raw("S")))
    );
    assert!(!is_scoped(&Type::Tup { flds: vec![sealed, tvar("S")] }, &scope_of(&[])));
}

#[test]
fn fresh_and_distinct_names() {
    let names = |ns: &[&str]| -> Vec<Name> { ns.iter().map(|n| raw(n)).collect() };
    assert!(are_distinct(&names(&[])));
    assert!(are_distinct(&names(&["a", "b", "c"])));
    assert!(!are_distinct(&names(&["a", "b", "a"])));
    assert!(!are_distinct(&names(&["a", "a"])));
    assert!(are_distinct(&vec![raw("a"), Name::UniqId("a".to_string(), 0)]));
    assert!(are_fresh(&names(&["a", "b"]), &scope_of(&["c"])));
    assert!(!are_fresh(&names(&["a", "b"]), &scope_of(&["c", "b"])));
    assert!(are_fresh(&names(&[]), &scope_of(&["c"])));
}

#[test]
fn simple_expressions_follow_the_types_of_bindings() {
    let mut tys = scope_of(&[]);
    let mut env = env_of(vec![]);
    assert!(is_simple_expr(&num(1), &mut tys, &mut env));
    let literal = Expr::Func { pars: vec![], body: Box::new(num(1)) };
    assert!(!is_simple_expr(&literal, &mut tys, &mut env));
    let hidden = Expr::Let {
        bind: raw("x"),
        expr: Box::new(num(1)),
        cont: Box::new(Expr::Tup { flds: vec![var("x"), literal] }),
    };
    assert!(!is_simple_expr(&hidden, &mut tys, &mut env));
    // What follows a binding that does not check is not looked at.
    let unchecked = Expr::Let {
        bind: raw("x"),
        expr: Box::new(var("nowhere")),
        cont: Box::new(Expr::Func { pars: vec![], body: Box::new(num(1)) }),
    };
    assert!(is_simple_expr(&unchecked, &mut tys, &mut env));
    let inst = Expr::Inst {
        expr: Box::new(var("f")),
        typs: vec![Type::Exist { seals: vec![], flds: vec![] }],
    };
    assert!(!is_simple_expr(&inst, &mut tys, &mut env));
    assert!(is_simple_decl(&id_decl(), &mut tys, &mut env));
    let mut taken = scope_of(&["T"]);
    assert!(!is_simple_decl(&id_decl(), &mut taken, &mut env));
}
