//! The static checker: well-formed types, substitution, expression typing.

use vstd::prelude::*;
use crate::common::lit::LitType;
use crate::common::name::{Name, SpecName, clone_names, lemma_prefix_set, names_view};
use crate::corelang::scope::{
    Env, TyEnv, env_clone, env_get, env_insert, env_new, env_remove, env_types, scope_clone,
    scope_contains, scope_insert, scope_names, scope_new,
};
use crate::corelang::syntax::{
    Decl, Expr, Program, SpecDecl, SpecExpr, SpecType, Type, clone_exprs, clone_types, decls_view,
    exprs_view, lemma_decls_view, lemma_exprs_view, lemma_params_view, lemma_types_view,
    params_view, types_view,
};

verus! {

/// The type that `typ` becomes when each variable bound by `map` is replaced
/// by the type it is bound to.
///
/// A quantifier shadows: below `Forall` or `Exist` the names it binds are no
/// longer replaced. Nothing is renamed.
pub open spec fn subst_spec(map: Map<SpecName, SpecType>, typ: SpecType) -> SpecType
    decreases typ,
{
    match typ {
        SpecType::Lit { lit } => typ,
        SpecType::Var { var } => if map.contains_key(var) {
            map[var]
        } else {
            typ
        },
        SpecType::Func { pars, res } => SpecType::Func {
            pars: subst_all(map, pars),
            res: Box::new(subst_spec(map, *res)),
        },
        SpecType::Tup { flds } => SpecType::Tup { flds: subst_all(map, flds) },
        SpecType::Forall { gens, pars, res } => SpecType::Forall {
            gens,
            pars: subst_all(map.remove_keys(gens.to_set()), pars),
            res: Box::new(subst_spec(map.remove_keys(gens.to_set()), *res)),
        },
        SpecType::Exist { seals, flds } => SpecType::Exist {
            seals,
            flds: subst_all(map.remove_keys(seals.to_set()), flds),
        },
    }
}

/// [`subst_spec`] on each type of a list.
pub open spec fn subst_all(map: Map<SpecName, SpecType>, typs: Seq<SpecType>) -> Seq<SpecType>
    decreases typs,
{
    Seq::new(
        typs.len(),
        |i: int|
            if 0 <= i < typs.len() {
                subst_spec(map, typs[i])
            } else {
                SpecType::Tup { flds: Seq::empty() }
            },
    )
}

/// A copy of `map` without the bindings of `names`.
pub fn without_names(map: &Env, names: &Vec<Name>) -> (r: Env)
    ensures
        env_types(r) == env_types(*map).remove_keys(names_view(names@).to_set()),
{
    let mut out = env_clone(map);
    let mut i: usize = 0;
    while i < names.len()
        invariant
            i <= names.len(),
            env_types(out) == env_types(*map).remove_keys(
                names_view(names@).subrange(0, i as int).to_set(),
            ),
        decreases names.len() - i,
    {
        env_remove(&mut out, &names[i]);
        proof {
            let all = names_view(names@);
            lemma_prefix_set(all, i as int);
            assert(env_types(out) =~= env_types(*map).remove_keys(
                all.subrange(0, i + 1).to_set(),
            ));
        }
        i += 1;
    }
    assert(names_view(names@).subrange(0, names.len() as int) == names_view(names@));
    out
}

/// Replaces in `typ` each variable that `map` binds by the type it is bound
/// to, shadowing below quantifiers. The map is left as it was.
pub fn subst(map: &mut Env, typ: &Type) -> (r: Type)
    ensures
        r@ == subst_spec(env_types(*old(map)), typ@),
        *final(map) == *old(map),
    decreases typ,
{
    match typ {
        Type::Lit { lit } => typ.clone(),
        Type::Var { var } => {
            match env_get(map, var) {
                Some(res) => res.clone(),
                None => typ.clone(),
            }
        },
        Type::Func { pars, res } => {
            let pars2 = subst_list(map, pars);
            let res2 = Box::new(subst(map, res));
            Type::Func { pars: pars2, res: res2 }
        },
        Type::Tup { flds } => {
            let flds2 = subst_list(map, flds);
            Type::Tup { flds: flds2 }
        },
        Type::Forall { gens, pars, res } => {
            let mut map2 = without_names(map, gens);
            let pars2 = subst_list(&mut map2, pars);
            let res2 = Box::new(subst(&mut map2, res));
            Type::Forall { gens: clone_names(gens), pars: pars2, res: res2 }
        },
        Type::Exist { seals, flds } => {
            let mut map2 = without_names(map, seals);
            let flds2 = subst_list(&mut map2, flds);
            Type::Exist { seals: clone_names(seals), flds: flds2 }
        },
    }
}

/// [`subst`] on each type of a list, in order.
pub fn subst_list(map: &mut Env, typs: &Vec<Type>) -> (r: Vec<Type>)
    ensures
        types_view(r@) == subst_all(env_types(*old(map)), types_view(typs@)),
        *final(map) == *old(map),
    decreases typs,
{
    let mut out: Vec<Type> = Vec::new();
    let mut i: usize = 0;
    while i < typs.len()
        invariant
            i <= typs.len(),
            out@.len() == i,
            *map == *old(map),
            forall|j: int| 0 <= j < i ==> out@[j]@ == subst_spec(env_types(*map), typs@[j]@),
        decreases typs.len() - i,
    {
        let t = subst(map, &typs[i]);
        out.push(t);
        i += 1;
    }
    proof {
        lemma_types_view(typs@);
        lemma_types_view(out@);
        assert(types_view(out@) =~= subst_all(env_types(*map), types_view(typs@)));
    }
    out
}

/// What the checker reports: the first fault it meets.
#[derive(Clone, Debug, PartialEq)]
pub enum InferError {
    ValVarNotInScope(Name),
    TypeVarNotInScope(Name),
    AppNotAFunction(Expr),
    AppLengthNotMatch(Vec<Expr>, Vec<Type>),
    SelNotATuple(Expr),
    SelIndexOutOfBound(Expr, usize),
    InstNotAForall(Expr),
    InstLengthNotMatch(Vec<Type>, Vec<Name>),
    PackNotATuple(Expr),
    PackLengthNotMatch(Vec<Type>, Vec<Type>),
    UnpackNotAExist(Expr),
    UnpackLengthNotMatch(Vec<Name>, Vec<Name>),
    CantUnifyType(Type, Type),
}

/// The mathematical value of an [`InferError`].
pub enum SpecInferError {
    ValVarNotInScope(SpecName),
    TypeVarNotInScope(SpecName),
    AppNotAFunction(SpecExpr),
    AppLengthNotMatch(Seq<SpecExpr>, Seq<SpecType>),
    SelNotATuple(SpecExpr),
    SelIndexOutOfBound(SpecExpr, usize),
    InstNotAForall(SpecExpr),
    InstLengthNotMatch(Seq<SpecType>, Seq<SpecName>),
    PackNotATuple(SpecExpr),
    PackLengthNotMatch(Seq<SpecType>, Seq<SpecType>),
    UnpackNotAExist(SpecExpr),
    UnpackLengthNotMatch(Seq<SpecName>, Seq<SpecName>),
    CantUnifyType(SpecType, SpecType),
}

impl View for InferError {
    type V = SpecInferError;

    open spec fn view(&self) -> SpecInferError {
        match self {
            InferError::ValVarNotInScope(n) => SpecInferError::ValVarNotInScope(n@),
            InferError::TypeVarNotInScope(n) => SpecInferError::TypeVarNotInScope(n@),
            InferError::AppNotAFunction(e) => SpecInferError::AppNotAFunction(e@),
            InferError::AppLengthNotMatch(es, ts) => SpecInferError::AppLengthNotMatch(
                exprs_view(es@),
                types_view(ts@),
            ),
            InferError::SelNotATuple(e) => SpecInferError::SelNotATuple(e@),
            InferError::SelIndexOutOfBound(e, i) => SpecInferError::SelIndexOutOfBound(e@, *i),
            InferError::InstNotAForall(e) => SpecInferError::InstNotAForall(e@),
            InferError::InstLengthNotMatch(ts, ns) => SpecInferError::InstLengthNotMatch(
                types_view(ts@),
                names_view(ns@),
            ),
            InferError::PackNotATuple(e) => SpecInferError::PackNotATuple(e@),
            InferError::PackLengthNotMatch(ts, us) => SpecInferError::PackLengthNotMatch(
                types_view(ts@),
                types_view(us@),
            ),
            InferError::UnpackNotAExist(e) => SpecInferError::UnpackNotAExist(e@),
            InferError::UnpackLengthNotMatch(ns, ms) => SpecInferError::UnpackLengthNotMatch(
                names_view(ns@),
                names_view(ms@),
            ),
            InferError::CantUnifyType(t, u) => SpecInferError::CantUnifyType(t@, u@),
        }
    }
}

/// The view of a check that yields nothing but its verdict.
pub open spec fn verdict_view(r: Result<(), InferError>) -> Result<(), SpecInferError> {
    match r {
        Ok(_) => Ok(()),
        Err(e) => Err(e@),
    }
}

/// The view of a check that yields a type.
pub open spec fn typing_view(r: Result<Type, InferError>) -> Result<SpecType, SpecInferError> {
    match r {
        Ok(t) => Ok(t@),
        Err(e) => Err(e@),
    }
}

/// The first type variable of `typ`, reading left to right, that is neither
/// in `scope` nor bound by a `Forall` around it; `None` if there is none.
///
/// `Forall` brings its generic names into scope for its parameters and
/// result. `Exist` does not: its fields are read in the scope outside it.
pub open spec fn first_unbound(scope: Set<SpecName>, typ: SpecType) -> Option<SpecName>
    decreases typ,
{
    match typ {
        SpecType::Lit { lit } => None,
        SpecType::Var { var } => if scope.contains(var) {
            None
        } else {
            Some(var)
        },
        SpecType::Func { pars, res } => match first_unbound_among(scope, pars, pars.len()) {
            Some(n) => Some(n),
            None => first_unbound(scope, *res),
        },
        SpecType::Tup { flds } => first_unbound_among(scope, flds, flds.len()),
        SpecType::Forall { gens, pars, res } => match first_unbound_among(
            scope + gens.to_set(),
            pars,
            pars.len(),
        ) {
            Some(n) => Some(n),
            None => first_unbound(scope + gens.to_set(), *res),
        },
        SpecType::Exist { seals, flds } => first_unbound_among(scope, flds, flds.len()),
    }
}

/// [`first_unbound`] over the first `n` types of a list.
pub open spec fn first_unbound_among(scope: Set<SpecName>, typs: Seq<SpecType>, n: nat) -> Option<
    SpecName,
>
    decreases typs, n,
{
    if n == 0 || n > typs.len() {
        None
    } else {
        match first_unbound_among(scope, typs, (n - 1) as nat) {
            Some(x) => Some(x),
            None => first_unbound(scope, typs[n - 1]),
        }
    }
}

/// Whether every type variable of `typ` is bound: what [`check_typ`] accepts.
pub open spec fn well_formed(scope: Set<SpecName>, typ: SpecType) -> bool {
    first_unbound(scope, typ) is None
}

/// What [`check_typ`] returns.
pub open spec fn check_typ_spec(scope: Set<SpecName>, typ: SpecType) -> Result<(), SpecInferError> {
    match first_unbound(scope, typ) {
        Some(n) => Err(SpecInferError::TypeVarNotInScope(n)),
        None => Ok(()),
    }
}

/// A copy of `scope` with `names` added.
pub fn with_names(scope: &TyEnv, names: &Vec<Name>) -> (r: TyEnv)
    ensures
        scope_names(r) == scope_names(*scope) + names_view(names@).to_set(),
{
    let mut out = scope_clone(scope);
    let mut i: usize = 0;
    while i < names.len()
        invariant
            i <= names.len(),
            scope_names(out) == scope_names(*scope) + names_view(names@).subrange(
                0,
                i as int,
            ).to_set(),
        decreases names.len() - i,
    {
        scope_insert(&mut out, names[i].clone());
        proof {
            let all = names_view(names@);
            lemma_prefix_set(all, i as int);
            assert(scope_names(out) =~= scope_names(*scope) + all.subrange(0, i + 1).to_set());
        }
        i += 1;
    }
    assert(names_view(names@).subrange(0, names.len() as int) == names_view(names@));
    out
}

/// Checks that a type is well formed: that each of its type variables is in
/// `tyenv` or bound by a `Forall` around it. The scope is left as it was.
pub fn check_typ(tyenv: &mut TyEnv, typ: &Type) -> (r: Result<(), InferError>)
    ensures
        verdict_view(r) == check_typ_spec(scope_names(*old(tyenv)), typ@),
        *final(tyenv) == *old(tyenv),
    decreases typ,
{
    match typ {
        Type::Lit { .. } => Ok(()),
        Type::Var { var } => {
            if scope_contains(tyenv, var) {
                Ok(())
            } else {
                Err(InferError::TypeVarNotInScope(var.clone()))
            }
        },
        Type::Func { pars, res } => {
            check_typs(tyenv, pars)?;
            check_typ(tyenv, res)
        },
        Type::Tup { flds } => check_typs(tyenv, flds),
        Type::Forall { gens, pars, res } => {
            let mut tyenv2 = with_names(tyenv, gens);
            check_typs(&mut tyenv2, pars)?;
            check_typ(&mut tyenv2, res)
        },
        Type::Exist { seals, flds } => check_typs(tyenv, flds),
    }
}

/// What [`check_typs`] returns.
pub open spec fn check_typs_spec(scope: Set<SpecName>, typs: Seq<SpecType>) -> Result<
    (),
    SpecInferError,
> {
    match first_unbound_among(scope, typs, typs.len()) {
        Some(n) => Err(SpecInferError::TypeVarNotInScope(n)),
        None => Ok(()),
    }
}

/// [`check_typ`] on each type of a list in order, up to the first fault.
pub fn check_typs(tyenv: &mut TyEnv, typs: &Vec<Type>) -> (r: Result<(), InferError>)
    ensures
        verdict_view(r) == check_typs_spec(scope_names(*old(tyenv)), types_view(typs@)),
        *final(tyenv) == *old(tyenv),
    decreases typs,
{
    let mut i: usize = 0;
    proof {
        lemma_types_view(typs@);
    }
    while i < typs.len()
        invariant
            i <= typs.len(),
            *tyenv == *old(tyenv),
            types_view(typs@).len() == typs.len(),
            forall|j: int| 0 <= j < typs.len() ==> (#[trigger] types_view(typs@)[j]) == typs@[j]@,
            first_unbound_among(scope_names(*tyenv), types_view(typs@), i as nat) is None,
        decreases typs.len() - i,
    {
        let r = check_typ(tyenv, &typs[i]);
        if r.is_err() {
            proof {
                lemma_first_unbound_stays(
                    scope_names(*tyenv),
                    types_view(typs@),
                    (i + 1) as nat,
                    typs.len() as nat,
                );
            }
            return r;
        }
        i += 1;
    }
    Ok(())
}

/// A fault found among the first `k` types is the one found among the first
/// `n`, for `n` from `k` on.
pub proof fn lemma_first_unbound_stays(scope: Set<SpecName>, typs: Seq<SpecType>, k: nat, n: nat)
    requires
        k <= n <= typs.len(),
        first_unbound_among(scope, typs, k) is Some,
    ensures
        first_unbound_among(scope, typs, n) == first_unbound_among(scope, typs, k),
    decreases n,
{
    if k < n {
        lemma_first_unbound_stays(scope, typs, k, (n - 1) as nat);
    }
}

/// `env` with the first `n` of `ps` bound in order, a later binding of a
/// name taking the place of an earlier one.
pub open spec fn bind_first(
    env: Map<SpecName, SpecType>,
    ps: Seq<(SpecName, SpecType)>,
    n: nat,
) -> Map<SpecName, SpecType>
    decreases n,
{
    if n == 0 || n > ps.len() {
        env
    } else {
        bind_first(env, ps, (n - 1) as nat).insert(ps[n - 1].0, ps[n - 1].1)
    }
}

/// `env` with all of `ps` bound in order.
pub open spec fn bind_all(env: Map<SpecName, SpecType>, ps: Seq<(SpecName, SpecType)>) -> Map<
    SpecName,
    SpecType,
> {
    bind_first(env, ps, ps.len())
}

/// The names and the types of two lists, paired position by position.
pub open spec fn pair_up(names: Seq<SpecName>, typs: Seq<SpecType>) -> Seq<(SpecName, SpecType)> {
    Seq::new(names.len(), |i: int| (names[i], typs[i]))
}

/// The names of a list of typed names.
pub open spec fn names_of(ps: Seq<(SpecName, SpecType)>) -> Seq<SpecName> {
    Seq::new(ps.len(), |i: int| ps[i].0)
}

/// The types of a list of typed names.
pub open spec fn types_of(ps: Seq<(SpecName, SpecType)>) -> Seq<SpecType> {
    Seq::new(ps.len(), |i: int| ps[i].1)
}

/// The type variables that stand for the given names.
pub open spec fn vars_of(names: Seq<SpecName>) -> Seq<SpecType> {
    Seq::new(names.len(), |i: int| SpecType::Var { var: names[i] })
}

/// The type that a declaration declares for its name: `Forall` if it has
/// generic binders, `Func` if it has none.
pub open spec fn decl_type(d: SpecDecl) -> SpecType {
    match d.gens {
        Some(gens) => SpecType::Forall {
            gens,
            pars: types_of(d.pars),
            res: Box::new(d.res),
        },
        None => SpecType::Func { pars: types_of(d.pars), res: Box::new(d.res) },
    }
}

/// Each declaration's name with the type it declares.
pub open spec fn signatures(decls: Seq<SpecDecl>) -> Seq<(SpecName, SpecType)> {
    Seq::new(decls.len(), |i: int| (decls[i].name, decl_type(decls[i])))
}

/// The first position below `n` at which two lists of types differ, as the
/// pair of types found there.
pub open spec fn first_mismatch(a: Seq<SpecType>, b: Seq<SpecType>, n: nat) -> Option<
    (SpecType, SpecType),
>
    decreases n,
{
    if n == 0 || n > a.len() || n > b.len() {
        None
    } else {
        match first_mismatch(a, b, (n - 1) as nat) {
            Some(p) => Some(p),
            None => if a[n - 1] == b[n - 1] {
                None
            } else {
                Some((a[n - 1], b[n - 1]))
            },
        }
    }
}

/// The type of an expression, or the first fault met in checking it.
///
/// `tys` holds the type variables in scope and `env` the types of the value
/// variables in scope. Two types agree only if they are equal.
pub open spec fn check_spec(
    tys: Set<SpecName>,
    env: Map<SpecName, SpecType>,
    e: SpecExpr,
) -> Result<SpecType, SpecInferError>
    decreases e,
{
    match e {
        SpecExpr::Lit { lit } => Ok(SpecType::Lit { lit: lit.typ() }),
        SpecExpr::Var { var } => if env.contains_key(var) {
            Ok(env[var])
        } else {
            Err(SpecInferError::ValVarNotInScope(var))
        },
        SpecExpr::Prim { prim, args } => {
            let pars = prim.typ()->Func_pars;
            if pars.len() == args.len() {
                match args_fault(tys, env, pars, args, args.len()) {
                    Some(err) => Err(err),
                    None => Ok(SpecType::Lit { lit: prim.result() }),
                }
            } else {
                Err(SpecInferError::AppLengthNotMatch(args, pars))
            }
        },
        SpecExpr::Let { bind, expr, cont } => match check_spec(tys, env, *expr) {
            Err(err) => Err(err),
            Ok(t) => check_spec(tys, env.insert(bind, t), *cont),
        },
        SpecExpr::Func { pars, body } => match first_unbound_among(
            tys,
            types_of(pars),
            pars.len(),
        ) {
            Some(n) => Err(SpecInferError::TypeVarNotInScope(n)),
            None => check_spec(tys, bind_all(env, pars), *body),
        },
        SpecExpr::App { func, args } => match check_spec(tys, env, *func) {
            Err(err) => Err(err),
            Ok(SpecType::Func { pars, res }) => if pars.len() == args.len() {
                match args_fault(tys, env, pars, args, args.len()) {
                    Some(err) => Err(err),
                    None => Ok(*res),
                }
            } else {
                Err(SpecInferError::AppLengthNotMatch(args, pars))
            },
            Ok(_) => Err(SpecInferError::AppNotAFunction(*func)),
        },
        SpecExpr::Tup { flds } => match types_each(tys, env, flds, flds.len()) {
            Err(err) => Err(err),
            Ok(typs) => Ok(SpecType::Tup { flds: typs }),
        },
        SpecExpr::Sel { expr, idx } => match check_spec(tys, env, *expr) {
            Err(err) => Err(err),
            Ok(SpecType::Tup { flds }) => if idx < flds.len() {
                Ok(flds[idx as int])
            } else {
                Err(SpecInferError::SelIndexOutOfBound(*expr, idx))
            },
            Ok(_) => Err(SpecInferError::SelNotATuple(*expr)),
        },
        SpecExpr::Letrec { decls, cont } => match first_unbound_among(
            tys,
            types_of(signatures(decls)),
            decls.len(),
        ) {
            Some(n) => Err(SpecInferError::TypeVarNotInScope(n)),
            None => match decls_fault(tys, bind_all(env, signatures(decls)), decls, decls.len()) {
                Some(err) => Err(err),
                None => check_spec(tys, bind_all(env, signatures(decls)), *cont),
            },
        },
        SpecExpr::Inst { expr, typs } => match check_spec(tys, env, *expr) {
            Err(err) => Err(err),
            Ok(t) => inst_spec(tys, *expr, t, typs),
        },
        SpecExpr::Pack { expr, seals, flds } => match check_spec(tys, env, *expr) {
            Err(err) => Err(err),
            Ok(t) => pack_spec(tys, *expr, t, seals, flds),
        },
        SpecExpr::Unpack { bind, opens, expr, cont } => match check_spec(tys, env, *expr) {
            Err(err) => Err(err),
            Ok(SpecType::Exist { seals, flds }) => if opens.len() == seals.len() {
                check_spec(
                    tys + opens.to_set(),
                    env.insert(bind, opened_type(seals, flds, opens)),
                    *cont,
                )
            } else {
                Err(SpecInferError::UnpackLengthNotMatch(opens, seals))
            },
            Ok(_) => Err(SpecInferError::UnpackNotAExist(*expr)),
        },
        SpecExpr::Ifte { cond, trbr, flbr } => match check_spec(tys, env, *cond) {
            Err(err) => Err(err),
            Ok(c) => if c != (SpecType::Lit { lit: LitType::TyBool }) {
                Err(SpecInferError::CantUnifyType(SpecType::Lit { lit: LitType::TyBool }, c))
            } else {
                match check_spec(tys, env, *trbr) {
                    Err(err) => Err(err),
                    Ok(t) => match check_spec(tys, env, *flbr) {
                        Err(err) => Err(err),
                        Ok(f) => if t == f {
                            Ok(t)
                        } else {
                            Err(SpecInferError::CantUnifyType(t, f))
                        },
                    },
                }
            },
        },
    }
}

/// The first fault among the first `n` arguments of a call: a fault in an
/// argument, or an argument whose type is not the parameter's.
pub open spec fn args_fault(
    tys: Set<SpecName>,
    env: Map<SpecName, SpecType>,
    pars: Seq<SpecType>,
    args: Seq<SpecExpr>,
    n: nat,
) -> Option<SpecInferError>
    decreases args, n,
{
    if n == 0 || n > args.len() || n > pars.len() {
        None
    } else {
        match args_fault(tys, env, pars, args, (n - 1) as nat) {
            Some(err) => Some(err),
            None => match check_spec(tys, env, args[n - 1]) {
                Err(err) => Some(err),
                Ok(t) => if pars[n - 1] == t {
                    None
                } else {
                    Some(SpecInferError::CantUnifyType(pars[n - 1], t))
                },
            },
        }
    }
}

/// The types of the first `n` expressions of a list, or the first fault.
pub open spec fn types_each(
    tys: Set<SpecName>,
    env: Map<SpecName, SpecType>,
    es: Seq<SpecExpr>,
    n: nat,
) -> Result<Seq<SpecType>, SpecInferError>
    decreases es, n,
{
    if n == 0 || n > es.len() {
        Ok(Seq::empty())
    } else {
        match types_each(tys, env, es, (n - 1) as nat) {
            Err(err) => Err(err),
            Ok(typs) => match check_spec(tys, env, es[n - 1]) {
                Err(err) => Err(err),
                Ok(t) => Ok(typs.push(t)),
            },
        }
    }
}

/// The type of an instantiation `expr[typs]`, where `expr` has type `t`.
pub open spec fn inst_spec(tys: Set<SpecName>, expr: SpecExpr, t: SpecType, typs: Seq<SpecType>) -> Result<
    SpecType,
    SpecInferError,
> {
    match first_unbound_among(tys, typs, typs.len()) {
        Some(n) => Err(SpecInferError::TypeVarNotInScope(n)),
        None => match t {
            SpecType::Forall { gens, pars, res } => if gens.len() == typs.len() {
                Ok(
                    SpecType::Func {
                        pars: subst_all(bind_all(Map::empty(), pair_up(gens, typs)), pars),
                        res: Box::new(
                            subst_spec(bind_all(Map::empty(), pair_up(gens, typs)), *res),
                        ),
                    },
                )
            } else {
                Err(SpecInferError::InstLengthNotMatch(typs, gens))
            },
            _ => Err(SpecInferError::InstNotAForall(expr)),
        },
    }
}

/// The type of `pack expr as [seals](flds)`, where `expr` has type `t`.
pub open spec fn pack_spec(
    tys: Set<SpecName>,
    expr: SpecExpr,
    t: SpecType,
    seals: Seq<(SpecName, SpecType)>,
    flds: Seq<SpecType>,
) -> Result<SpecType, SpecInferError> {
    match first_unbound_among(tys, types_of(seals), seals.len()) {
        Some(n) => Err(SpecInferError::TypeVarNotInScope(n)),
        None => match first_unbound_among(tys + names_of(seals).to_set(), flds, flds.len()) {
            Some(n) => Err(SpecInferError::TypeVarNotInScope(n)),
            None => match t {
                SpecType::Tup { flds: actual } => if flds.len() == actual.len() {
                    match first_mismatch(
                        subst_all(bind_all(Map::empty(), seals), flds),
                        actual,
                        flds.len(),
                    ) {
                        Some(p) => Err(SpecInferError::CantUnifyType(p.0, p.1)),
                        None => Ok(SpecType::Exist { seals: names_of(seals), flds }),
                    }
                } else {
                    Err(SpecInferError::PackLengthNotMatch(actual, flds))
                },
                _ => Err(SpecInferError::PackNotATuple(expr)),
            },
        },
    }
}

/// The tuple type that an unpacked value has: the fields of the existential
/// with each sealed name replaced by the variable of the name that opens it.
pub open spec fn opened_type(seals: Seq<SpecName>, flds: Seq<SpecType>, opens: Seq<SpecName>) -> SpecType {
    SpecType::Tup {
        flds: subst_all(bind_all(Map::empty(), pair_up(seals, vars_of(opens))), flds),
    }
}

/// The verdict on one declaration of a group: its parameter types and its
/// result type are well formed with its generic names in scope, and its body
/// has the declared result type with the parameters bound.
pub open spec fn check_decl_spec(
    tys: Set<SpecName>,
    env: Map<SpecName, SpecType>,
    d: SpecDecl,
) -> Result<(), SpecInferError>
    decreases d,
{
    match first_unbound_among(decl_scope(tys, d), types_of(d.pars), d.pars.len()) {
        Some(n) => Err(SpecInferError::TypeVarNotInScope(n)),
        None => match first_unbound(decl_scope(tys, d), d.res) {
            Some(n) => Err(SpecInferError::TypeVarNotInScope(n)),
            None => match check_spec(decl_scope(tys, d), bind_all(env, d.pars), d.body) {
                Err(err) => Err(err),
                Ok(t) => if t == d.res {
                    Ok(())
                } else {
                    Err(SpecInferError::CantUnifyType(t, d.res))
                },
            },
        },
    }
}

/// The type variables in scope inside a declaration.
pub open spec fn decl_scope(tys: Set<SpecName>, d: SpecDecl) -> Set<SpecName> {
    match d.gens {
        Some(gens) => tys + gens.to_set(),
        None => tys,
    }
}

/// The first fault among the first `n` declarations of a group.
pub open spec fn decls_fault(
    tys: Set<SpecName>,
    env: Map<SpecName, SpecType>,
    decls: Seq<SpecDecl>,
    n: nat,
) -> Option<SpecInferError>
    decreases decls, n,
{
    if n == 0 || n > decls.len() {
        None
    } else {
        match decls_fault(tys, env, decls, (n - 1) as nat) {
            Some(err) => Some(err),
            None => match check_decl_spec(tys, env, decls[n - 1]) {
                Err(err) => Some(err),
                Ok(_) => None,
            },
        }
    }
}

/// The types of a list of typed names.
pub fn param_types(pars: &Vec<(Name, Type)>) -> (r: Vec<Type>)
    ensures
        types_view(r@) == types_of(params_view(pars@)),
{
    let mut out: Vec<Type> = Vec::new();
    let mut i: usize = 0;
    while i < pars.len()
        invariant
            i <= pars.len(),
            out@.len() == i,
            forall|j: int| 0 <= j < i ==> out@[j]@ == pars@[j].1@,
        decreases pars.len() - i,
    {
        out.push(pars[i].1.clone());
        i += 1;
    }
    assert(types_view(out@) =~= types_of(params_view(pars@)));
    out
}

/// The names of a list of typed names.
pub fn param_names(pars: &Vec<(Name, Type)>) -> (r: Vec<Name>)
    ensures
        names_view(r@) == names_of(params_view(pars@)),
{
    let mut out: Vec<Name> = Vec::new();
    let mut i: usize = 0;
    while i < pars.len()
        invariant
            i <= pars.len(),
            out@.len() == i,
            forall|j: int| 0 <= j < i ==> out@[j]@ == pars@[j].0@,
        decreases pars.len() - i,
    {
        out.push(pars[i].0.clone());
        i += 1;
    }
    assert(names_view(out@) =~= names_of(params_view(pars@)));
    out
}

/// Two lists of equal length, paired position by position.
pub(crate) fn zip_params(names: &Vec<Name>, typs: &Vec<Type>) -> (r: Vec<(Name, Type)>)
    requires
        names.len() == typs.len(),
    ensures
        params_view(r@) == pair_up(names_view(names@), types_view(typs@)),
{
    let mut out: Vec<(Name, Type)> = Vec::new();
    let mut i: usize = 0;
    while i < names.len()
        invariant
            i <= names.len(),
            names.len() == typs.len(),
            out@.len() == i,
            forall|j: int| 0 <= j < i ==> out@[j].0@ == names@[j]@ && out@[j].1@ == typs@[j]@,
        decreases names.len() - i,
    {
        out.push((names[i].clone(), typs[i].clone()));
        i += 1;
    }
    assert(params_view(out@) =~= pair_up(names_view(names@), types_view(typs@)));
    out
}

/// The type variables that stand for the given names.
pub fn var_types(names: &Vec<Name>) -> (r: Vec<Type>)
    ensures
        types_view(r@) == vars_of(names_view(names@)),
{
    let mut out: Vec<Type> = Vec::new();
    let mut i: usize = 0;
    while i < names.len()
        invariant
            i <= names.len(),
            out@.len() == i,
            forall|j: int| 0 <= j < i ==> out@[j]@ == (SpecType::Var { var: names@[j]@ }),
        decreases names.len() - i,
    {
        out.push(Type::Var { var: names[i].clone() });
        i += 1;
    }
    assert(types_view(out@) =~= vars_of(names_view(names@)));
    out
}

/// A copy of `env` with the typed names bound in order.
pub fn bind_params(env: &Env, pars: &Vec<(Name, Type)>) -> (r: Env)
    ensures
        env_types(r) == bind_all(env_types(*env), params_view(pars@)),
{
    let mut out = env_clone(env);
    let mut i: usize = 0;
    while i < pars.len()
        invariant
            i <= pars.len(),
            env_types(out) == bind_first(env_types(*env), params_view(pars@), i as nat),
        decreases pars.len() - i,
    {
        env_insert(&mut out, pars[i].0.clone(), pars[i].1.clone());
        i += 1;
    }
    out
}

/// The type that a declaration declares for its name.
pub fn get_decl_type(decl: &Decl) -> (t: Type)
    ensures
        t@ == decl_type(decl@),
{
    let pars = param_types(&decl.pars);
    let res = Box::new(decl.res.clone());
    match &decl.gens {
        Some(gens) => Type::Forall { gens: clone_names(gens), pars, res },
        None => Type::Func { pars, res },
    }
}

/// Each declaration's name with the type it declares.
pub fn decl_signatures(decls: &Vec<Decl>) -> (r: Vec<(Name, Type)>)
    ensures
        params_view(r@) == signatures(decls_view(decls@)),
{
    let mut out: Vec<(Name, Type)> = Vec::new();
    let mut i: usize = 0;
    while i < decls.len()
        invariant
            i <= decls.len(),
            out@.len() == i,
            forall|j: int|
                0 <= j < i ==> out@[j].0@ == decls@[j]@.name && out@[j].1@ == decl_type(
                    decls@[j]@,
                ),
        decreases decls.len() - i,
    {
        out.push((decls[i].name.clone(), get_decl_type(&decls[i])));
        i += 1;
    }
    assert(params_view(out@) =~= signatures(decls_view(decls@)));
    out
}

/// A fault found among the first `k` arguments is the one found among the
/// first `n`, for `n` from `k` on.
pub proof fn lemma_args_fault_stays(
    tys: Set<SpecName>,
    env: Map<SpecName, SpecType>,
    pars: Seq<SpecType>,
    args: Seq<SpecExpr>,
    k: nat,
    n: nat,
)
    requires
        k <= n <= args.len(),
        n <= pars.len(),
        args_fault(tys, env, pars, args, k) is Some,
    ensures
        args_fault(tys, env, pars, args, n) == args_fault(tys, env, pars, args, k),
    decreases n,
{
    if k < n {
        lemma_args_fault_stays(tys, env, pars, args, k, (n - 1) as nat);
    }
}

/// A fault found among the first `k` expressions is the one found among the
/// first `n`, for `n` from `k` on.
pub proof fn lemma_types_each_stays(
    tys: Set<SpecName>,
    env: Map<SpecName, SpecType>,
    es: Seq<SpecExpr>,
    k: nat,
    n: nat,
)
    requires
        k <= n <= es.len(),
        types_each(tys, env, es, k) is Err,
    ensures
        types_each(tys, env, es, n) == types_each(tys, env, es, k),
    decreases n,
{
    if k < n {
        lemma_types_each_stays(tys, env, es, k, (n - 1) as nat);
    }
}

/// A fault found among the first `k` declarations is the one found among the
/// first `n`, for `n` from `k` on.
pub proof fn lemma_decls_fault_stays(
    tys: Set<SpecName>,
    env: Map<SpecName, SpecType>,
    decls: Seq<SpecDecl>,
    k: nat,
    n: nat,
)
    requires
        k <= n <= decls.len(),
        decls_fault(tys, env, decls, k) is Some,
    ensures
        decls_fault(tys, env, decls, n) == decls_fault(tys, env, decls, k),
    decreases n,
{
    if k < n {
        lemma_decls_fault_stays(tys, env, decls, k, (n - 1) as nat);
    }
}

/// The view of a verdict that a list of checks comes to.
pub open spec fn fault_view(r: Result<(), InferError>) -> Option<SpecInferError> {
    match r {
        Ok(_) => None,
        Err(e) => Some(e@),
    }
}

/// The type of the instantiation `expr[typs]`, where `expr` has type
/// `expr_ty`. The scope is left as it was.
pub fn inst_type(tyenv: &mut TyEnv, expr: &Expr, expr_ty: Type, typs: &Vec<Type>) -> (r: Result<
    Type,
    InferError,
>)
    ensures
        typing_view(r) == inst_spec(scope_names(*old(tyenv)), expr@, expr_ty@, types_view(typs@)),
        *final(tyenv) == *old(tyenv),
{
    check_typs(tyenv, typs)?;
    proof {
        lemma_types_view(typs@);
    }
    match expr_ty {
        Type::Forall { gens, pars, res } => {
            if gens.len() == typs.len() {
                let pairs = zip_params(&gens, typs);
                let empty = env_new();
                let mut map = bind_params(&empty, &pairs);
                let pars2 = subst_list(&mut map, &pars);
                let res2 = Box::new(subst(&mut map, &res));
                Ok(Type::Func { pars: pars2, res: res2 })
            } else {
                Err(InferError::InstLengthNotMatch(clone_types(typs), gens))
            }
        },
        _ => Err(InferError::InstNotAForall(expr.clone())),
    }
}

/// The first position at which two lists of types of equal length differ.
pub(crate) fn find_mismatch(a: &Vec<Type>, b: &Vec<Type>) -> (r: Option<usize>)
    requires
        a.len() == b.len(),
    ensures
        match r {
            Some(i) => i < a.len() && first_mismatch(
                types_view(a@),
                types_view(b@),
                a.len() as nat,
            ) == Some((a@[i as int]@, b@[i as int]@)),
            None => first_mismatch(types_view(a@), types_view(b@), a.len() as nat) is None,
        },
{
    proof {
        lemma_types_view(a@);
        lemma_types_view(b@);
    }
    let mut i: usize = 0;
    while i < a.len()
        invariant
            i <= a.len(),
            a.len() == b.len(),
            types_view(a@).len() == a.len(),
            types_view(b@).len() == b.len(),
            forall|j: int| 0 <= j < a.len() ==> (#[trigger] types_view(a@)[j]) == a@[j]@,
            forall|j: int| 0 <= j < b.len() ==> (#[trigger] types_view(b@)[j]) == b@[j]@,
            first_mismatch(types_view(a@), types_view(b@), i as nat) is None,
        decreases a.len() - i,
    {
        if !a[i].same(&b[i]) {
            proof {
                lemma_mismatch_stays(
                    types_view(a@),
                    types_view(b@),
                    (i + 1) as nat,
                    a.len() as nat,
                );
            }
            return Some(i);
        }
        i += 1;
    }
    None
}

/// A difference found below `k` is the one found below `n`, for `n` from `k`
/// on.
pub proof fn lemma_mismatch_stays(a: Seq<SpecType>, b: Seq<SpecType>, k: nat, n: nat)
    requires
        k <= n <= a.len(),
        n <= b.len(),
        first_mismatch(a, b, k) is Some,
    ensures
        first_mismatch(a, b, n) == first_mismatch(a, b, k),
    decreases n,
{
    if k < n {
        lemma_mismatch_stays(a, b, k, (n - 1) as nat);
    }
}

/// The type of `pack expr as [seals](flds)`, where `expr` has type
/// `expr_ty`. The scope is left as it was.
pub fn pack_type(
    tyenv: &mut TyEnv,
    expr: &Expr,
    expr_ty: Type,
    seals: &Vec<(Name, Type)>,
    flds: &Vec<Type>,
) -> (r: Result<Type, InferError>)
    ensures
        typing_view(r) == pack_spec(
            scope_names(*old(tyenv)),
            expr@,
            expr_ty@,
            params_view(seals@),
            types_view(flds@),
        ),
        *final(tyenv) == *old(tyenv),
{
    let seal_types = param_types(seals);
    let seal_names = param_names(seals);
    proof {
        lemma_types_view(flds@);
        lemma_types_view(seal_types@);
    }
    check_typs(tyenv, &seal_types)?;
    let mut tyenv2 = with_names(tyenv, &seal_names);
    check_typs(&mut tyenv2, flds)?;
    match expr_ty {
        Type::Tup { flds: actual } => {
            proof {
                lemma_types_view(actual@);
            }
            if flds.len() == actual.len() {
                let empty = env_new();
                let mut map = bind_params(&empty, seals);
                let wanted = subst_list(&mut map, flds);
                proof {
                    lemma_types_view(wanted@);
                }
                match find_mismatch(&wanted, &actual) {
                    Some(i) => Err(
                        InferError::CantUnifyType(wanted[i].clone(), actual[i].clone()),
                    ),
                    None => Ok(Type::Exist { seals: seal_names, flds: clone_types(flds) }),
                }
            } else {
                Err(InferError::PackLengthNotMatch(actual, clone_types(flds)))
            }
        },
        _ => Err(InferError::PackNotATuple(expr.clone())),
    }
}

/// The tuple type of an unpacked value: the fields `flds` of an existential
/// that seals `seals`, each sealed name replaced by the variable of the name
/// in `opens` at its position.
pub(crate) fn open_type(seals: &Vec<Name>, flds: &Vec<Type>, opens: &Vec<Name>) -> (r: Type)
    requires
        seals.len() == opens.len(),
    ensures
        r@ == opened_type(names_view(seals@), types_view(flds@), names_view(opens@)),
{
    let vars = var_types(opens);
    proof {
        lemma_types_view(vars@);
    }
    let pairs = zip_params(seals, &vars);
    let empty = env_new();
    let mut map = bind_params(&empty, &pairs);
    let flds2 = subst_list(&mut map, flds);
    Type::Tup { flds: flds2 }
}

/// The type of an expression, or the first fault met in checking it.
///
/// `tyenv` holds the type variables in scope and `env` the types of the
/// value variables in scope. Both are left as they were: what a binding
/// construct adds is seen inside that construct only.
pub fn check_expr(tyenv: &mut TyEnv, env: &mut Env, expr: &Expr) -> (r: Result<Type, InferError>)
    ensures
        typing_view(r) == check_spec(scope_names(*old(tyenv)), env_types(*old(env)), expr@),
        *final(tyenv) == *old(tyenv),
        *final(env) == *old(env),
    decreases expr,
{
    match expr {
        Expr::Lit { lit } => Ok(Type::Lit { lit: lit.get_typ() }),
        Expr::Var { var } => {
            match env_get(env, var) {
                Some(t) => Ok(t.clone()),
                None => Err(InferError::ValVarNotInScope(var.clone())),
            }
        },
        Expr::Prim { prim, args } => {
            match prim.get_type() {
                Type::Func { pars, res } => {
                    proof {
                        lemma_types_view(pars@);
                        lemma_exprs_view(args@);
                    }
                    if pars.len() == args.len() {
                        check_args(tyenv, env, &pars, args)?;
                        Ok(*res)
                    } else {
                        Err(InferError::AppLengthNotMatch(clone_exprs(args), pars))
                    }
                },
                _ => unreached(),
            }
        },
        Expr::Let { bind, expr, cont } => {
            let expr_ty = check_expr(tyenv, env, expr)?;
            let mut env2 = env_clone(env);
            env_insert(&mut env2, bind.clone(), expr_ty);
            check_expr(tyenv, &mut env2, cont)
        },
        Expr::Func { pars, body } => {
            let typs = param_types(pars);
            proof {
                lemma_types_view(typs@);
            }
            check_typs(tyenv, &typs)?;
            let mut env2 = bind_params(env, pars);
            check_expr(tyenv, &mut env2, body)
        },
        Expr::App { func, args } => {
            let func_ty = check_expr(tyenv, env, func)?;
            match func_ty {
                Type::Func { pars, res } => {
                    proof {
                        lemma_types_view(pars@);
                        lemma_exprs_view(args@);
                    }
                    if pars.len() == args.len() {
                        check_args(tyenv, env, &pars, args)?;
                        Ok(*res)
                    } else {
                        Err(InferError::AppLengthNotMatch(clone_exprs(args), pars))
                    }
                },
                _ => Err(InferError::AppNotAFunction((&**func).clone())),
            }
        },
        Expr::Tup { flds } => {
            let typs = check_exprs(tyenv, env, flds)?;
            Ok(Type::Tup { flds: typs })
        },
        Expr::Sel { expr, idx } => {
            let expr_ty = check_expr(tyenv, env, expr)?;
            match expr_ty {
                Type::Tup { flds } => {
                    proof {
                        lemma_types_view(flds@);
                    }
                    if *idx < flds.len() {
                        Ok(flds[*idx].clone())
                    } else {
                        Err(InferError::SelIndexOutOfBound((&**expr).clone(), *idx))
                    }
                },
                _ => Err(InferError::SelNotATuple((&**expr).clone())),
            }
        },
        Expr::Letrec { decls, cont } => {
            let sigs = decl_signatures(decls);
            let sig_types = param_types(&sigs);
            proof {
                lemma_decls_view(decls@);
                lemma_types_view(sig_types@);
            }
            check_typs(tyenv, &sig_types)?;
            let mut env2 = bind_params(env, &sigs);
            check_decls(tyenv, &mut env2, decls)?;
            check_expr(tyenv, &mut env2, cont)
        },
        Expr::Inst { expr, typs } => {
            let expr_ty = check_expr(tyenv, env, expr)?;
            inst_type(tyenv, expr, expr_ty, typs)
        },
        Expr::Pack { expr, seals, flds } => {
            let expr_ty = check_expr(tyenv, env, expr)?;
            pack_type(tyenv, expr, expr_ty, seals, flds)
        },
        Expr::Unpack { bind, opens, expr, cont } => {
            let expr_ty = check_expr(tyenv, env, expr)?;
            match expr_ty {
                Type::Exist { seals, flds } => {
                    if opens.len() == seals.len() {
                        let opened = open_type(&seals, &flds, opens);
                        let mut tyenv2 = with_names(tyenv, opens);
                        let mut env2 = env_clone(env);
                        env_insert(&mut env2, bind.clone(), opened);
                        check_expr(&mut tyenv2, &mut env2, cont)
                    } else {
                        Err(InferError::UnpackLengthNotMatch(clone_names(opens), seals))
                    }
                },
                _ => Err(InferError::UnpackNotAExist((&**expr).clone())),
            }
        },
        Expr::Ifte { cond, trbr, flbr } => {
            let cond_ty = check_expr(tyenv, env, cond)?;
            let wanted = Type::Lit { lit: LitType::TyBool };
            if !wanted.same(&cond_ty) {
                return Err(InferError::CantUnifyType(wanted, cond_ty));
            }
            let tr_ty = check_expr(tyenv, env, trbr)?;
            let fl_ty = check_expr(tyenv, env, flbr)?;
            if tr_ty.same(&fl_ty) {
                Ok(tr_ty)
            } else {
                Err(InferError::CantUnifyType(tr_ty, fl_ty))
            }
        },
    }
}

/// Checks the arguments of a call in order, each against the parameter type
/// at its position, up to the first fault.
pub(crate) fn check_args(tyenv: &mut TyEnv, env: &mut Env, pars: &Vec<Type>, args: &Vec<Expr>) -> (r:
    Result<(), InferError>)
    requires
        pars.len() == args.len(),
    ensures
        fault_view(r) == args_fault(
            scope_names(*old(tyenv)),
            env_types(*old(env)),
            types_view(pars@),
            exprs_view(args@),
            args.len() as nat,
        ),
        *final(tyenv) == *old(tyenv),
        *final(env) == *old(env),
    decreases args,
{
    proof {
        lemma_types_view(pars@);
        lemma_exprs_view(args@);
    }
    let mut i: usize = 0;
    while i < args.len()
        invariant
            i <= args.len(),
            pars.len() == args.len(),
            *tyenv == *old(tyenv),
            *env == *old(env),
            types_view(pars@).len() == pars.len(),
            exprs_view(args@).len() == args.len(),
            forall|j: int| 0 <= j < pars.len() ==> (#[trigger] types_view(pars@)[j]) == pars@[j]@,
            forall|j: int| 0 <= j < args.len() ==> (#[trigger] exprs_view(args@)[j]) == args@[j]@,
            args_fault(
                scope_names(*tyenv),
                env_types(*env),
                types_view(pars@),
                exprs_view(args@),
                i as nat,
            ) is None,
        decreases args.len() - i,
    {
        let checked = check_expr(tyenv, env, &args[i]);
        let fault = match checked {
            Err(e) => Some(e),
            Ok(arg_ty) => if pars[i].same(&arg_ty) {
                None
            } else {
                Some(InferError::CantUnifyType(pars[i].clone(), arg_ty))
            },
        };
        match fault {
            Some(e) => {
                proof {
                    lemma_args_fault_stays(
                        scope_names(*tyenv),
                        env_types(*env),
                        types_view(pars@),
                        exprs_view(args@),
                        (i + 1) as nat,
                        args.len() as nat,
                    );
                }
                return Err(e);
            },
            None => {},
        }
        i += 1;
    }
    Ok(())
}

/// The view of the types that a list of checks comes to.
pub open spec fn typings_view(r: Result<Vec<Type>, InferError>) -> Result<
    Seq<SpecType>,
    SpecInferError,
> {
    match r {
        Ok(ts) => Ok(types_view(ts@)),
        Err(e) => Err(e@),
    }
}

/// The types of the expressions of a list in order, up to the first fault.
pub fn check_exprs(tyenv: &mut TyEnv, env: &mut Env, es: &Vec<Expr>) -> (r: Result<
    Vec<Type>,
    InferError,
>)
    ensures
        typings_view(r) == types_each(
            scope_names(*old(tyenv)),
            env_types(*old(env)),
            exprs_view(es@),
            es.len() as nat,
        ),
        *final(tyenv) == *old(tyenv),
        *final(env) == *old(env),
    decreases es,
{
    proof {
        lemma_exprs_view(es@);
    }
    let mut out: Vec<Type> = Vec::new();
    let mut i: usize = 0;
    assert(types_view(out@) =~= Seq::empty());
    while i < es.len()
        invariant
            i <= es.len(),
            *tyenv == *old(tyenv),
            *env == *old(env),
            exprs_view(es@).len() == es.len(),
            forall|j: int| 0 <= j < es.len() ==> (#[trigger] exprs_view(es@)[j]) == es@[j]@,
            types_each(scope_names(*tyenv), env_types(*env), exprs_view(es@), i as nat) == Ok::<
                Seq<SpecType>,
                SpecInferError,
            >(types_view(out@)),
        decreases es.len() - i,
    {
        match check_expr(tyenv, env, &es[i]) {
            Err(e) => {
                proof {
                    lemma_types_each_stays(
                        scope_names(*tyenv),
                        env_types(*env),
                        exprs_view(es@),
                        (i + 1) as nat,
                        es.len() as nat,
                    );
                }
                return Err(e);
            },
            Ok(t) => {
                proof {
                    lemma_types_view(out@);
                    lemma_types_view(out@.push(t));
                    assert(types_view(out@.push(t)) =~= types_view(out@).push(t@));
                }
                out.push(t);
            },
        }
        i += 1;
    }
    Ok(out)
}

/// Checks one declaration of a group: `env` holds the signatures of the
/// whole group. Both scopes are left as they were.
pub fn check_decl(tyenv: &mut TyEnv, env: &mut Env, decl: &Decl) -> (r: Result<(), InferError>)
    ensures
        verdict_view(r) == check_decl_spec(scope_names(*old(tyenv)), env_types(*old(env)), decl@),
        *final(tyenv) == *old(tyenv),
        *final(env) == *old(env),
    decreases decl,
{
    let mut tyenv2 = match &decl.gens {
        Some(gens) => with_names(tyenv, gens),
        None => scope_clone(tyenv),
    };
    let typs = param_types(&decl.pars);
    proof {
        lemma_types_view(typs@);
    }
    check_typs(&mut tyenv2, &typs)?;
    check_typ(&mut tyenv2, &decl.res)?;
    let mut env2 = bind_params(env, &decl.pars);
    let body_ty = check_expr(&mut tyenv2, &mut env2, &decl.body)?;
    if body_ty.same(&decl.res) {
        Ok(())
    } else {
        Err(InferError::CantUnifyType(body_ty, decl.res.clone()))
    }
}

/// Checks the declarations of a group in order, up to the first fault.
pub fn check_decls(tyenv: &mut TyEnv, env: &mut Env, decls: &Vec<Decl>) -> (r: Result<
    (),
    InferError,
>)
    ensures
        fault_view(r) == decls_fault(
            scope_names(*old(tyenv)),
            env_types(*old(env)),
            decls_view(decls@),
            decls.len() as nat,
        ),
        *final(tyenv) == *old(tyenv),
        *final(env) == *old(env),
    decreases decls,
{
    proof {
        lemma_decls_view(decls@);
    }
    let mut i: usize = 0;
    while i < decls.len()
        invariant
            i <= decls.len(),
            *tyenv == *old(tyenv),
            *env == *old(env),
            decls_view(decls@).len() == decls.len(),
            forall|j: int| 0 <= j < decls.len() ==> (#[trigger] decls_view(decls@)[j]) == decls@[j]@,
            decls_fault(scope_names(*tyenv), env_types(*env), decls_view(decls@), i as nat) is None,
        decreases decls.len() - i,
    {
        match check_decl(tyenv, env, &decls[i]) {
            Err(e) => {
                proof {
                    lemma_decls_fault_stays(
                        scope_names(*tyenv),
                        env_types(*env),
                        decls_view(decls@),
                        (i + 1) as nat,
                        decls.len() as nat,
                    );
                }
                return Err(e);
            },
            Ok(_) => {},
        }
        i += 1;
    }
    Ok(())
}

/// The verdict on a whole program: its declarations form one group, each
/// seen by every other, checked with nothing else in scope.
pub open spec fn check_prog_spec(decls: Seq<SpecDecl>) -> Result<(), SpecInferError> {
    match first_unbound_among(Set::empty(), types_of(signatures(decls)), decls.len()) {
        Some(n) => Err(SpecInferError::TypeVarNotInScope(n)),
        None => match decls_fault(
            Set::empty(),
            bind_all(Map::empty(), signatures(decls)),
            decls,
            decls.len(),
        ) {
            Some(err) => Err(err),
            None => Ok(()),
        },
    }
}

/// Checks a whole program, up to the first fault.
pub fn check_prog(prog: &Program) -> (r: Result<(), InferError>)
    ensures
        verdict_view(r) == check_prog_spec(decls_view(prog.decls@)),
{
    let mut tyenv = scope_new();
    let empty = env_new();
    let sigs = decl_signatures(&prog.decls);
    let sig_types = param_types(&sigs);
    proof {
        lemma_decls_view(prog.decls@);
        lemma_types_view(sig_types@);
    }
    check_typs(&mut tyenv, &sig_types)?;
    let mut env = bind_params(&empty, &sigs);
    check_decls(&mut tyenv, &mut env, &prog.decls)
}

/// A group without a fault among its first `n` declarations has none in any
/// of them.
pub proof fn lemma_decls_pass(
    tys: Set<SpecName>,
    ctx: Map<SpecName, SpecType>,
    decls: Seq<SpecDecl>,
    n: nat,
    i: int,
)
    requires
        decls_fault(tys, ctx, decls, n) is None,
        0 <= i < n <= decls.len(),
    ensures
        check_decl_spec(tys, ctx, decls[i]) is Ok,
    decreases n,
{
    if i < n - 1 {
        lemma_decls_pass(tys, ctx, decls, (n - 1) as nat, i);
    }
}

/// Arguments without a fault among the first `n` have the parameters' types.
pub proof fn lemma_args_pass(
    tys: Set<SpecName>,
    ctx: Map<SpecName, SpecType>,
    pars: Seq<SpecType>,
    args: Seq<SpecExpr>,
    n: nat,
    i: int,
)
    requires
        args_fault(tys, ctx, pars, args, n) is None,
        0 <= i < n <= args.len(),
        n <= pars.len(),
    ensures
        check_spec(tys, ctx, args[i]) == Ok::<SpecType, SpecInferError>(pars[i]),
    decreases n,
{
    if i < n - 1 {
        lemma_args_pass(tys, ctx, pars, args, (n - 1) as nat, i);
    }
}

/// The types found for the first `n` expressions of a list are theirs.
pub proof fn lemma_each_pass(
    tys: Set<SpecName>,
    ctx: Map<SpecName, SpecType>,
    es: Seq<SpecExpr>,
    n: nat,
    i: int,
)
    requires
        types_each(tys, ctx, es, n) is Ok,
        0 <= i < n <= es.len(),
    ensures
        types_each(tys, ctx, es, n)->Ok_0.len() == n,
        check_spec(tys, ctx, es[i]) == Ok::<SpecType, SpecInferError>(
            types_each(tys, ctx, es, n)->Ok_0[i],
        ),
    decreases n,
{
    lemma_each_len(tys, ctx, es, (n - 1) as nat);
    if i < n - 1 {
        lemma_each_pass(tys, ctx, es, (n - 1) as nat, i);
    }
}

/// As many types are found as expressions were checked.
pub proof fn lemma_each_len(
    tys: Set<SpecName>,
    ctx: Map<SpecName, SpecType>,
    es: Seq<SpecExpr>,
    n: nat,
)
    requires
        types_each(tys, ctx, es, n) is Ok,
        n <= es.len(),
    ensures
        types_each(tys, ctx, es, n)->Ok_0.len() == n,
    decreases n,
{
    if n > 0 {
        lemma_each_len(tys, ctx, es, (n - 1) as nat);
    }
}

} // verus!
