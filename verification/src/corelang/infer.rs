//! A checker that keeps its scope in a list.
//!
//! It follows the typing rules of the checker with two scopes, but keeps no
//! scope of type variables: the types that a program writes down are taken
//! as they are. The value variables in scope stand in a list that grows at
//! its end where a construct binds and shrinks again behind it; a name is
//! looked up from the end. A fault has no detail. The type that a
//! declaration declares and substitution are those of the checker with two
//! scopes.

use vstd::prelude::*;
use crate::common::lit::LitType;
use crate::common::name::{Name, SpecName};
use crate::corelang::check::{
    bind_all, bind_params, decl_signatures, find_mismatch, first_mismatch, names_of, open_type,
    opened_type, pair_up, param_names, signatures, subst_all, subst_list, subst_spec, zip_params,
};
use crate::corelang::scope::env_new;
use crate::corelang::syntax::{
    Decl, Expr, SpecDecl, SpecExpr, SpecType, Type, clone_types, decls_view, exprs_view,
    lemma_decls_view, lemma_exprs_view, lemma_params_view, lemma_types_view, params_view,
    types_view,
};
pub use crate::corelang::check::{get_decl_type, subst};

verus! {

#[verifier::external_type_specification]
#[verifier::external_body]
#[verifier::reject_recursive_types(A)]
pub struct ExImVector<A>(im::Vector<A>);

/// The value variables in scope with their types, the innermost last.
pub type Env = im::Vector<(Name, Type)>;

/// The typed names that a list holds, in order.
pub uninterp spec fn list_items(env: im::Vector<(Name, Type)>) -> Seq<(SpecName, SpecType)>;

/// `im::Vector::len`: how many items the list holds.
#[verifier::external_body]
pub(crate) fn list_len(env: &Env) -> (n: usize)
    ensures
        n == list_items(*env).len(),
{
    env.len()
}

/// `im::Vector::get`: the item at the position, if the list is that long.
#[verifier::external_body]
pub(crate) fn list_get<'a>(env: &'a Env, i: usize) -> (r: Option<&'a (Name, Type)>)
    ensures
        r.is_some() == (i < list_items(*env).len()),
        r.is_some() ==> (r.unwrap().0@, r.unwrap().1@) == list_items(*env)[i as int],
{
    env.get(i)
}

/// `im::Vector::push_back`: afterwards the item stands at the end of the
/// list, behind what the list held. The call fails on a list that holds as
/// many items as a `usize` can count, so that list is left out.
#[verifier::external_body]
pub(crate) fn list_push(env: &mut Env, name: Name, typ: Type)
    requires
        list_items(*old(env)).len() < usize::MAX,
    ensures
        list_items(*final(env)) == list_items(*old(env)).push((name@, typ@)),
{
    env.push_back((name, typ));
}

/// `im::Vector::pop_back`: afterwards the last item is gone; a list that
/// holds nothing is left as it is.
#[verifier::external_body]
pub(crate) fn list_pop(env: &mut Env)
    ensures
        list_items(*old(env)).len() > 0 ==> list_items(*final(env)) == list_items(
            *old(env),
        ).drop_last(),
        list_items(*old(env)).len() == 0 ==> list_items(*final(env)) == list_items(*old(env)),
{
    env.pop_back();
}

/// The fault of this checker.
#[derive(Clone, Copy, Debug, PartialEq, Eq, Structural)]
pub enum InferError {
    Error,
}

/// The type that the last binding of `key` in a list gives it.
pub open spec fn lookup_spec(items: Seq<(SpecName, SpecType)>, key: SpecName) -> Option<SpecType>
    decreases items.len(),
{
    if items.len() == 0 {
        None
    } else if items.last().0 == key {
        Some(items.last().1)
    } else {
        lookup_spec(items.drop_last(), key)
    }
}

/// The type of a name in scope: that of its innermost binding.
pub fn lookup(env: &Env, key: &Name) -> (r: Option<Type>)
    ensures
        match r {
            Some(t) => lookup_spec(list_items(*env), key@) == Some(t@),
            None => lookup_spec(list_items(*env), key@) is None,
        },
{
    let mut i: usize = list_len(env);
    let ghost items = list_items(*env);
    assert(items.subrange(0, i as int) == items);
    while i > 0
        invariant
            i <= items.len(),
            items == list_items(*env),
            lookup_spec(items, key@) == lookup_spec(items.subrange(0, i as int), key@),
        decreases i,
    {
        i -= 1;
        proof {
            let upto = items.subrange(0, i + 1);
            assert(upto.last() == items[i as int]);
            assert(upto.drop_last() == items.subrange(0, i as int));
        }
        match list_get(env, i) {
            Some(item) => {
                if item.0.same(key) {
                    return Some(item.1.clone());
                }
            },
            None => {},
        }
    }
    None
}

/// The greatest number of items that a list can hold.
pub open spec fn list_limit() -> nat {
    usize::MAX as nat
}

/// A list with more items at its end, if it can hold them.
pub open spec fn grown(
    items: Seq<(SpecName, SpecType)>,
    more: Seq<(SpecName, SpecType)>,
) -> Option<Seq<(SpecName, SpecType)>> {
    if items.len() + more.len() <= list_limit() {
        Some(items + more)
    } else {
        None
    }
}

/// The type that this checker gives an expression; `None` for a fault.
///
/// `items` holds the value variables in scope, the innermost last. A
/// construct that binds more names than the list can still hold is a fault.
pub open spec fn infer_spec(items: Seq<(SpecName, SpecType)>, e: SpecExpr) -> Option<SpecType>
    decreases e,
{
    match e {
        SpecExpr::Lit { lit } => Some(SpecType::Lit { lit: lit.typ() }),
        SpecExpr::Var { var } => lookup_spec(items, var),
        SpecExpr::Prim { prim, args } => if prim.typ()->Func_pars.len() == args.len()
            && args_agree(items, prim.typ()->Func_pars, args, args.len()) {
            Some(SpecType::Lit { lit: prim.result() })
        } else {
            None
        },
        SpecExpr::Let { bind, expr, cont } => match infer_spec(items, *expr) {
            None => None,
            Some(t) => match grown(items, seq![(bind, t)]) {
                None => None,
                Some(inner) => infer_spec(inner, *cont),
            },
        },
        SpecExpr::Func { pars, body } => match grown(items, pars) {
            None => None,
            Some(inner) => infer_spec(inner, *body),
        },
        SpecExpr::App { func, args } => match infer_spec(items, *func) {
            Some(SpecType::Func { pars, res }) => if pars.len() == args.len() && args_agree(
                items,
                pars,
                args,
                args.len(),
            ) {
                Some(*res)
            } else {
                None
            },
            _ => None,
        },
        SpecExpr::Tup { flds } => match infer_each(items, flds, flds.len()) {
            None => None,
            Some(typs) => Some(SpecType::Tup { flds: typs }),
        },
        SpecExpr::Sel { expr, idx } => match infer_spec(items, *expr) {
            Some(SpecType::Tup { flds }) => if idx < flds.len() {
                Some(flds[idx as int])
            } else {
                None
            },
            _ => None,
        },
        SpecExpr::Letrec { decls, cont } => match grown(items, signatures(decls)) {
            None => None,
            Some(inner) => if decls_agree(inner, decls, decls.len()) {
                infer_spec(inner, *cont)
            } else {
                None
            },
        },
        SpecExpr::Inst { expr, typs } => match infer_spec(items, *expr) {
            Some(SpecType::Forall { gens, pars, res }) => if gens.len() == typs.len() {
                Some(
                    SpecType::Func {
                        pars: subst_all(bind_all(Map::empty(), pair_up(gens, typs)), pars),
                        res: Box::new(
                            subst_spec(bind_all(Map::empty(), pair_up(gens, typs)), *res),
                        ),
                    },
                )
            } else {
                None
            },
            _ => None,
        },
        SpecExpr::Pack { expr, seals, flds } => match infer_spec(items, *expr) {
            Some(SpecType::Tup { flds: actual }) => if flds.len() == actual.len()
                && first_mismatch(
                subst_all(bind_all(Map::empty(), seals), flds),
                actual,
                flds.len(),
            ) is None {
                Some(SpecType::Exist { seals: names_of(seals), flds })
            } else {
                None
            },
            _ => None,
        },
        SpecExpr::Unpack { bind, opens, expr, cont } => match infer_spec(items, *expr) {
            Some(SpecType::Exist { seals, flds }) => if opens.len() == seals.len() {
                match grown(items, seq![(bind, opened_type(seals, flds, opens))]) {
                    None => None,
                    Some(inner) => infer_spec(inner, *cont),
                }
            } else {
                None
            },
            _ => None,
        },
        SpecExpr::Ifte { cond, trbr, flbr } => match infer_spec(items, *cond) {
            Some(SpecType::Lit { lit: LitType::TyBool }) => match infer_spec(items, *trbr) {
                None => None,
                Some(t) => if infer_spec(items, *flbr) == Some(t) {
                    Some(t)
                } else {
                    None
                },
            },
            _ => None,
        },
    }
}

/// Whether each of the first `n` arguments has the type of the parameter at
/// its position.
pub open spec fn args_agree(
    items: Seq<(SpecName, SpecType)>,
    pars: Seq<SpecType>,
    args: Seq<SpecExpr>,
    n: nat,
) -> bool
    decreases args, n,
{
    if n == 0 || n > args.len() || n > pars.len() {
        true
    } else {
        args_agree(items, pars, args, (n - 1) as nat) && infer_spec(items, args[n - 1]) == Some(
            pars[n - 1],
        )
    }
}

/// The types of the first `n` expressions of a list; `None` for a fault.
pub open spec fn infer_each(items: Seq<(SpecName, SpecType)>, es: Seq<SpecExpr>, n: nat) -> Option<
    Seq<SpecType>,
>
    decreases es, n,
{
    if n == 0 || n > es.len() {
        Some(Seq::empty())
    } else {
        match infer_each(items, es, (n - 1) as nat) {
            None => None,
            Some(typs) => match infer_spec(items, es[n - 1]) {
                None => None,
                Some(t) => Some(typs.push(t)),
            },
        }
    }
}

/// Whether the body of a declaration has the declared result type, with the
/// parameters in scope.
pub open spec fn decl_agrees(items: Seq<(SpecName, SpecType)>, d: SpecDecl) -> bool
    decreases d,
{
    match grown(items, d.pars) {
        None => false,
        Some(inner) => infer_spec(inner, d.body) == Some(d.res),
    }
}

/// [`decl_agrees`] of each of the first `n` declarations of a group.
pub open spec fn decls_agree(items: Seq<(SpecName, SpecType)>, decls: Seq<SpecDecl>, n: nat) -> bool
    decreases decls, n,
{
    if n == 0 || n > decls.len() {
        true
    } else {
        decls_agree(items, decls, (n - 1) as nat) && decl_agrees(items, decls[n - 1])
    }
}

/// Puts typed names at the end of a list, if it can hold them all: whether
/// it could. A list that cannot is left as it was.
pub fn push_all(env: &mut Env, pars: &Vec<(Name, Type)>) -> (done: bool)
    ensures
        done == grown(list_items(*old(env)), params_view(pars@)).is_some(),
        done ==> list_items(*final(env)) == list_items(*old(env)) + params_view(pars@),
        !done ==> list_items(*final(env)) == list_items(*old(env)),
{
    proof {
        lemma_params_view(pars@);
    }
    let held = list_len(env);
    if pars.len() > usize::MAX - held {
        return false;
    }
    let mut i: usize = 0;
    while i < pars.len()
        invariant
            i <= pars.len(),
            held == list_items(*old(env)).len(),
            held + pars.len() <= usize::MAX,
            params_view(pars@).len() == pars.len(),
            forall|j: int|
                0 <= j < pars.len() ==> (#[trigger] params_view(pars@)[j]) == (
                    pars@[j].0@,
                    pars@[j].1@,
                ),
            list_items(*env) == list_items(*old(env)) + params_view(pars@).subrange(0, i as int),
        decreases pars.len() - i,
    {
        list_push(env, pars[i].0.clone(), pars[i].1.clone());
        proof {
            let all = params_view(pars@);
            assert(all.subrange(0, i + 1) == all.subrange(0, i as int).push(all[i as int]));
            assert(list_items(*env) =~= list_items(*old(env)) + all.subrange(0, i + 1));
        }
        i += 1;
    }
    assert(params_view(pars@).subrange(0, pars.len() as int) == params_view(pars@));
    true
}

/// Puts one typed name at the end of a list, if it can hold one more:
/// whether it could.
pub fn push_one(env: &mut Env, name: Name, typ: Type) -> (done: bool)
    ensures
        done == grown(list_items(*old(env)), seq![(name@, typ@)]).is_some(),
        done ==> list_items(*final(env)) == list_items(*old(env)) + seq![(name@, typ@)],
        !done ==> list_items(*final(env)) == list_items(*old(env)),
{
    if list_len(env) == usize::MAX {
        return false;
    }
    list_push(env, name, typ);
    assert(list_items(*env) =~= list_items(*old(env)) + seq![(name@, typ@)]);
    true
}

/// Takes the last `n` items off a list, or all it holds where those are
/// fewer.
pub fn pop_all(env: &mut Env, n: usize)
    ensures
        list_items(*final(env)) == list_items(*old(env)).subrange(
            0,
            if n <= list_items(*old(env)).len() {
                list_items(*old(env)).len() - n
            } else {
                0
            },
        ),
{
    let mut i: usize = 0;
    let ghost items = list_items(*env);
    assert(items.subrange(0, items.len() as int) == items);
    while i < n
        invariant
            i <= n,
            items == list_items(*old(env)),
            list_items(*env) == items.subrange(
                0,
                if i <= items.len() {
                    items.len() - i
                } else {
                    0
                },
            ),
        decreases n - i,
    {
        list_pop(env);
        proof {
            if i < items.len() {
                assert(items.subrange(0, items.len() - i).drop_last() == items.subrange(
                    0,
                    items.len() - i - 1,
                ));
            }
        }
        i += 1;
    }
}

/// The view of what this checker finds.
pub open spec fn found_view(r: Result<Type, InferError>) -> Option<SpecType> {
    match r {
        Ok(t) => Some(t@),
        Err(_) => None,
    }
}

/// The type of an expression.
///
/// `env` holds the value variables in scope, the innermost last. The list is
/// left as it was, whether the expression has a type or not.
pub fn check(env: &mut Env, expr: &Expr) -> (r: Result<Type, InferError>)
    ensures
        found_view(r) == infer_spec(list_items(*old(env)), expr@),
        list_items(*final(env)) == list_items(*old(env)),
    decreases expr,
{
    let ghost before = list_items(*env);
    match expr {
        Expr::Lit { lit } => Ok(Type::Lit { lit: lit.get_typ() }),
        Expr::Var { var } => match lookup(env, var) {
            Some(t) => Ok(t),
            None => Err(InferError::Error),
        },
        Expr::Prim { prim, args } => {
            match prim.get_type() {
                Type::Func { pars, res } => {
                    proof {
                        lemma_types_view(pars@);
                        lemma_exprs_view(args@);
                    }
                    if pars.len() == args.len() {
                        check_args(env, &pars, args)?;
                        Ok(*res)
                    } else {
                        Err(InferError::Error)
                    }
                },
                _ => unreached(),
            }
        },
        Expr::Let { bind, expr, cont } => {
            let expr_ty = check(env, expr)?;
            if !push_one(env, bind.clone(), expr_ty) {
                return Err(InferError::Error);
            }
            let cont_ty = check(env, cont);
            pop_all(env, 1);
            assert(list_items(*env) =~= before);
            cont_ty
        },
        Expr::Func { pars, body } => {
            if !push_all(env, pars) {
                return Err(InferError::Error);
            }
            let body_ty = check(env, body);
            proof {
                lemma_params_view(pars@);
            }
            pop_all(env, pars.len());
            assert(list_items(*env) =~= before);
            body_ty
        },
        Expr::App { func, args } => {
            let func_ty = check(env, func)?;
            match func_ty {
                Type::Func { pars, res } => {
                    proof {
                        lemma_types_view(pars@);
                        lemma_exprs_view(args@);
                    }
                    if pars.len() == args.len() {
                        check_args(env, &pars, args)?;
                        Ok(*res)
                    } else {
                        Err(InferError::Error)
                    }
                },
                _ => Err(InferError::Error),
            }
        },
        Expr::Tup { flds } => {
            let typs = check_exprs(env, flds)?;
            Ok(Type::Tup { flds: typs })
        },
        Expr::Sel { expr, idx } => {
            let expr_ty = check(env, expr)?;
            match expr_ty {
                Type::Tup { flds } => {
                    proof {
                        lemma_types_view(flds@);
                    }
                    if *idx < flds.len() {
                        Ok(flds[*idx].clone())
                    } else {
                        Err(InferError::Error)
                    }
                },
                _ => Err(InferError::Error),
            }
        },
        Expr::Letrec { decls, cont } => {
            let sigs = decl_signatures(decls);
            proof {
                lemma_decls_view(decls@);
                lemma_params_view(sigs@);
            }
            if !push_all(env, &sigs) {
                return Err(InferError::Error);
            }
            let cont_ty = match check_decls(env, decls) {
                Ok(_) => check(env, cont),
                Err(e) => Err(e),
            };
            pop_all(env, sigs.len());
            assert(list_items(*env) =~= before);
            cont_ty
        },
        Expr::Inst { expr, typs } => {
            let expr_ty = check(env, expr)?;
            proof {
                lemma_types_view(typs@);
            }
            match expr_ty {
                Type::Forall { gens, pars, res } => {
                    if gens.len() == typs.len() {
                        let pairs = zip_params(&gens, typs);
                        let empty = env_new();
                        let mut map = bind_params(&empty, &pairs);
                        let pars2 = subst_list(&mut map, &pars);
                        let res2 = Box::new(subst(&mut map, &res));
                        Ok(Type::Func { pars: pars2, res: res2 })
                    } else {
                        Err(InferError::Error)
                    }
                },
                _ => Err(InferError::Error),
            }
        },
        Expr::Pack { expr, seals, flds } => {
            let expr_ty = check(env, expr)?;
            proof {
                lemma_types_view(flds@);
            }
            match expr_ty {
                Type::Tup { flds: actual } => {
                    proof {
                        lemma_types_view(actual@);
                    }
                    if flds.len() == actual.len() {
                        let empty = env_new();
                        let mut map = bind_params(&empty, seals);
                        let wanted = subst_list(&mut map, flds);
                        proof {
                            lemma_types_view(wanted@);
                        }
                        match find_mismatch(&wanted, &actual) {
                            Some(_) => Err(InferError::Error),
                            None => Ok(
                                Type::Exist { seals: param_names(seals), flds: clone_types(flds) },
                            ),
                        }
                    } else {
                        Err(InferError::Error)
                    }
                },
                _ => Err(InferError::Error),
            }
        },
        Expr::Unpack { bind, opens, expr, cont } => {
            let expr_ty = check(env, expr)?;
            match expr_ty {
                Type::Exist { seals, flds } => {
                    if opens.len() == seals.len() {
                        let opened = open_type(&seals, &flds, opens);
                        if !push_one(env, bind.clone(), opened) {
                            return Err(InferError::Error);
                        }
                        let cont_ty = check(env, cont);
                        pop_all(env, 1);
                        assert(list_items(*env) =~= before);
                        cont_ty
                    } else {
                        Err(InferError::Error)
                    }
                },
                _ => Err(InferError::Error),
            }
        },
        Expr::Ifte { cond, trbr, flbr } => {
            let cond_ty = check(env, cond)?;
            let wanted = Type::Lit { lit: LitType::TyBool };
            if !wanted.same(&cond_ty) {
                return Err(InferError::Error);
            }
            let tr_ty = check(env, trbr)?;
            let fl_ty = check(env, flbr)?;
            if tr_ty.same(&fl_ty) {
                Ok(tr_ty)
            } else {
                Err(InferError::Error)
            }
        },
    }
}

/// Checks the arguments of a call in order, each against the parameter type
/// at its position, up to the first fault.
pub(crate) fn check_args(env: &mut Env, pars: &Vec<Type>, args: &Vec<Expr>) -> (r: Result<(), InferError>)
    requires
        pars.len() == args.len(),
    ensures
        r is Ok == args_agree(
            list_items(*old(env)),
            types_view(pars@),
            exprs_view(args@),
            args.len() as nat,
        ),
        list_items(*final(env)) == list_items(*old(env)),
    decreases args,
{
    proof {
        lemma_types_view(pars@);
        lemma_exprs_view(args@);
    }
    let mut i: usize = 0;
    while i < args.len()
        invariant
            i <= args.len(),
            pars.len() == args.len(),
            list_items(*env) == list_items(*old(env)),
            types_view(pars@).len() == pars.len(),
            exprs_view(args@).len() == args.len(),
            forall|j: int| 0 <= j < pars.len() ==> (#[trigger] types_view(pars@)[j]) == pars@[j]@,
            forall|j: int| 0 <= j < args.len() ==> (#[trigger] exprs_view(args@)[j]) == args@[j]@,
            args_agree(list_items(*env), types_view(pars@), exprs_view(args@), i as nat),
        decreases args.len() - i,
    {
        let agrees = match check(env, &args[i]) {
            Err(_) => false,
            Ok(arg_ty) => pars[i].same(&arg_ty),
        };
        if !agrees {
            proof {
                lemma_args_disagree(
                    list_items(*old(env)),
                    types_view(pars@),
                    exprs_view(args@),
                    (i + 1) as nat,
                    args.len() as nat,
                );
            }
            return Err(InferError::Error);
        }
        i += 1;
    }
    Ok(())
}

/// Arguments that disagree among the first `k` disagree among the first `n`,
/// for `n` from `k` on.
pub proof fn lemma_args_disagree(
    items: Seq<(SpecName, SpecType)>,
    pars: Seq<SpecType>,
    args: Seq<SpecExpr>,
    k: nat,
    n: nat,
)
    requires
        k <= n <= args.len(),
        n <= pars.len(),
        !args_agree(items, pars, args, k),
    ensures
        !args_agree(items, pars, args, n),
    decreases n,
{
    if k < n {
        lemma_args_disagree(items, pars, args, k, (n - 1) as nat);
    }
}

/// The view of the types that this checker finds for a list.
pub open spec fn found_each_view(r: Result<Vec<Type>, InferError>) -> Option<Seq<SpecType>> {
    match r {
        Ok(ts) => Some(types_view(ts@)),
        Err(_) => None,
    }
}

/// The types of the expressions of a list in order, up to the first fault.
pub fn check_exprs(env: &mut Env, es: &Vec<Expr>) -> (r: Result<Vec<Type>, InferError>)
    ensures
        found_each_view(r) == infer_each(list_items(*old(env)), exprs_view(es@), es.len() as nat),
        list_items(*final(env)) == list_items(*old(env)),
    decreases es,
{
    proof {
        lemma_exprs_view(es@);
    }
    let mut out: Vec<Type> = Vec::new();
    let mut i: usize = 0;
    assert(types_view(out@) =~= Seq::empty());
    while i < es.len()
        invariant
            i <= es.len(),
            list_items(*env) == list_items(*old(env)),
            exprs_view(es@).len() == es.len(),
            forall|j: int| 0 <= j < es.len() ==> (#[trigger] exprs_view(es@)[j]) == es@[j]@,
            infer_each(list_items(*env), exprs_view(es@), i as nat) == Some(types_view(out@)),
        decreases es.len() - i,
    {
        match check(env, &es[i]) {
            Err(e) => {
                proof {
                    lemma_infer_each_fails(
                        list_items(*old(env)),
                        exprs_view(es@),
                        (i + 1) as nat,
                        es.len() as nat,
                    );
                }
                return Err(e);
            },
            Ok(t) => {
                proof {
                    lemma_types_view(out@);
                    lemma_types_view(out@.push(t));
                    assert(types_view(out@.push(t)) =~= types_view(out@).push(t@));
                }
                out.push(t);
            },
        }
        i += 1;
    }
    Ok(out)
}

/// A fault among the first `k` expressions is a fault among the first `n`,
/// for `n` from `k` on.
pub proof fn lemma_infer_each_fails(
    items: Seq<(SpecName, SpecType)>,
    es: Seq<SpecExpr>,
    k: nat,
    n: nat,
)
    requires
        k <= n <= es.len(),
        infer_each(items, es, k) is None,
    ensures
        infer_each(items, es, n) is None,
    decreases n,
{
    if k < n {
        lemma_infer_each_fails(items, es, k, (n - 1) as nat);
    }
}

/// Checks one declaration of a group: `env` holds the signatures of the
/// whole group at its end.
pub fn check_decl(env: &mut Env, decl: &Decl) -> (r: Result<(), InferError>)
    ensures
        r is Ok == decl_agrees(list_items(*old(env)), decl@),
        list_items(*final(env)) == list_items(*old(env)),
    decreases decl,
{
    let ghost before = list_items(*env);
    if !push_all(env, &decl.pars) {
        return Err(InferError::Error);
    }
    let found = check(env, &decl.body);
    proof {
        lemma_params_view(decl.pars@);
    }
    pop_all(env, decl.pars.len());
    assert(list_items(*env) =~= before);
    match found {
        Ok(body_ty) => if body_ty.same(&decl.res) {
            Ok(())
        } else {
            Err(InferError::Error)
        },
        Err(e) => Err(e),
    }
}

/// Checks the declarations of a group in order, up to the first fault.
pub fn check_decls(env: &mut Env, decls: &Vec<Decl>) -> (r: Result<(), InferError>)
    ensures
        r is Ok == decls_agree(list_items(*old(env)), decls_view(decls@), decls.len() as nat),
        list_items(*final(env)) == list_items(*old(env)),
    decreases decls,
{
    proof {
        lemma_decls_view(decls@);
    }
    let mut i: usize = 0;
    while i < decls.len()
        invariant
            i <= decls.len(),
            list_items(*env) == list_items(*old(env)),
            decls_view(decls@).len() == decls.len(),
            forall|j: int| 0 <= j < decls.len() ==> (#[trigger] decls_view(decls@)[j]) == decls@[j]@,
            decls_agree(list_items(*env), decls_view(decls@), i as nat),
        decreases decls.len() - i,
    {
        match check_decl(env, &decls[i]) {
            Err(e) => {
                proof {
                    lemma_decls_disagree(
                        list_items(*old(env)),
                        decls_view(decls@),
                        (i + 1) as nat,
                        decls.len() as nat,
                    );
                }
                return Err(e);
            },
            Ok(_) => {},
        }
        i += 1;
    }
    Ok(())
}

/// Declarations that disagree among the first `k` disagree among the first
/// `n`, for `n` from `k` on.
pub proof fn lemma_decls_disagree(
    items: Seq<(SpecName, SpecType)>,
    decls: Seq<SpecDecl>,
    k: nat,
    n: nat,
)
    requires
        k <= n <= decls.len(),
        !decls_agree(items, decls, k),
    ensures
        !decls_agree(items, decls, n),
    decreases n,
{
    if k < n {
        lemma_decls_disagree(items, decls, k, (n - 1) as nat);
    }
}

} // verus!
