//! The programs that the typing of values covers: those without function
//! literals, with simple types written down, whose types stay in scope.

use vstd::prelude::*;
use crate::common::name::SpecName;
use crate::corelang::check::{
    bind_all, bind_first, bind_params, check_expr, check_spec, decl_signatures, decl_type,
    first_unbound_among, lemma_each_len, lemma_each_pass, names_of, open_type, opened_type,
    param_types, signatures, subst_all, subst_spec, types_each, types_of, vars_of, well_formed,
    with_names,
};
use crate::corelang::scope::{
    Env, TyEnv, env_clone, env_insert, env_new, env_types, scope_names, scope_new,
};
use crate::corelang::simple::{
    are_distinct, are_fresh, are_simple_types, instance_map, is_scoped, is_simple_type,
    lemma_all_well_formed, lemma_scoped_grows, lemma_signature_scoped, lemma_simple_scoped,
    lemma_simple_sealed, lemma_simple_shallow, lemma_subst_simple, scoped, shallow, simple_type,
    simple_types,
};
use crate::corelang::syntax::{
    Decl, Expr, Program, SpecDecl, SpecExpr, SpecType, Type, decls_view, exprs_view,
    lemma_decls_view, lemma_exprs_view,
};
use crate::corelang::wellformed::{lemma_bound_pairs, lemma_instantiation_well_formed};

verus! {

/// Whether an expression stays within what the typing of values covers,
/// with `tys` the type variables in scope and `ctx` the types of the value
/// variables in scope:
///
/// - it holds no function literal;
/// - the types it writes down are simple;
/// - the generic names of a declaration, and the names that an unpacking
///   opens, are not in scope already, and an unpacking opens no name twice;
/// - the type of the continuation of an unpacking holds none of the names
///   that the unpacking opens.
pub open spec fn simple_expr(e: SpecExpr, tys: Set<SpecName>, ctx: Map<SpecName, SpecType>) -> bool
    decreases e,
{
    match e {
        SpecExpr::Lit { lit } => true,
        SpecExpr::Var { var } => true,
        SpecExpr::Prim { prim, args } => forall|i: int|
            0 <= i < args.len() ==> simple_expr(#[trigger] args[i], tys, ctx),
        SpecExpr::Let { bind, expr, cont } => simple_expr(*expr, tys, ctx) && match check_spec(
            tys,
            ctx,
            *expr,
        ) {
            Ok(t) => simple_expr(*cont, tys, ctx.insert(bind, t)),
            Err(_) => true,
        },
        SpecExpr::Func { pars, body } => false,
        SpecExpr::App { func, args } => simple_expr(*func, tys, ctx) && forall|i: int|
            0 <= i < args.len() ==> simple_expr(#[trigger] args[i], tys, ctx),
        SpecExpr::Tup { flds } => forall|i: int|
            0 <= i < flds.len() ==> simple_expr(#[trigger] flds[i], tys, ctx),
        SpecExpr::Sel { expr, idx } => simple_expr(*expr, tys, ctx),
        SpecExpr::Letrec { decls, cont } => (forall|i: int|
            0 <= i < decls.len() ==> simple_decl(
                #[trigger] decls[i],
                tys,
                bind_all(ctx, signatures(decls)),
            )) && simple_expr(*cont, tys, bind_all(ctx, signatures(decls))),
        SpecExpr::Inst { expr, typs } => simple_expr(*expr, tys, ctx) && simple_types(typs),
        SpecExpr::Pack { expr, seals, flds } => simple_expr(*expr, tys, ctx) && simple_types(
            types_of(seals),
        ) && simple_types(flds),
        SpecExpr::Unpack { bind, opens, expr, cont } => simple_expr(*expr, tys, ctx)
            && opens.no_duplicates() && opens.to_set().disjoint(tys) && match check_spec(
            tys,
            ctx,
            *expr,
        ) {
            Ok(SpecType::Exist { seals, flds }) => opens.len() == seals.len() ==> simple_expr(
                *cont,
                tys + opens.to_set(),
                ctx.insert(bind, opened_type(seals, flds, opens)),
            ) && match check_spec(
                tys + opens.to_set(),
                ctx.insert(bind, opened_type(seals, flds, opens)),
                *cont,
            ) {
                Ok(t) => scoped(tys, t),
                Err(_) => true,
            },
            _ => true,
        },
        SpecExpr::Ifte { cond, trbr, flbr } => simple_expr(*cond, tys, ctx) && simple_expr(
            *trbr,
            tys,
            ctx,
        ) && simple_expr(*flbr, tys, ctx),
    }
}

/// [`simple_expr`] for a declaration of a group, with `ctx` the types of the
/// variables in scope in the group, its own members among them: its
/// parameter types and result type are simple, its generic names are not in
/// `tys`, and its body is simple with them added and the parameters bound.
pub open spec fn simple_decl(d: SpecDecl, tys: Set<SpecName>, ctx: Map<SpecName, SpecType>) -> bool
    decreases d,
{
    simple_types(types_of(d.pars)) && simple_type(d.res) && match d.gens {
        None => simple_expr(d.body, tys, bind_all(ctx, d.pars)),
        Some(gens) => gens.to_set().disjoint(tys) && simple_expr(
            d.body,
            tys + gens.to_set(),
            bind_all(ctx, d.pars),
        ),
    }
}

/// [`simple_expr`] of each expression of a list.
pub open spec fn simple_exprs(
    es: Seq<SpecExpr>,
    tys: Set<SpecName>,
    ctx: Map<SpecName, SpecType>,
) -> bool {
    forall|i: int| 0 <= i < es.len() ==> simple_expr(#[trigger] es[i], tys, ctx)
}

/// [`simple_decl`] of each declaration of a group, with `ctx` the types of
/// the variables around the group.
pub open spec fn simple_group(
    decls: Seq<SpecDecl>,
    tys: Set<SpecName>,
    ctx: Map<SpecName, SpecType>,
) -> bool {
    forall|i: int|
        0 <= i < decls.len() ==> simple_decl(
            #[trigger] decls[i],
            tys,
            bind_all(ctx, signatures(decls)),
        )
}

/// Whether a program is simple: its declarations, as one group with nothing
/// around it.
pub open spec fn simple_program(decls: Seq<SpecDecl>) -> bool {
    simple_group(decls, Set::empty(), Map::empty())
}

/// Whether each type that a typing gives is scoped in `tys` and shallow.
pub open spec fn ctx_ok(tys: Set<SpecName>, ctx: Map<SpecName, SpecType>) -> bool {
    forall|x: SpecName| #[trigger] ctx.contains_key(x) ==> scoped(tys, ctx[x]) && shallow(ctx[x])
}

/// Binding types that are scoped and shallow keeps a typing so.
pub proof fn lemma_ctx_bind(
    tys: Set<SpecName>,
    ctx: Map<SpecName, SpecType>,
    ps: Seq<(SpecName, SpecType)>,
    n: nat,
)
    requires
        ctx_ok(tys, ctx),
        n <= ps.len(),
        forall|i: int| 0 <= i < n ==> scoped(tys, (#[trigger] ps[i]).1) && shallow(ps[i].1),
    ensures
        ctx_ok(tys, bind_first(ctx, ps, n)),
    decreases n,
{
    if n > 0 {
        lemma_ctx_bind(tys, ctx, ps, (n - 1) as nat);
        let before = bind_first(ctx, ps, (n - 1) as nat);
        let after = bind_first(ctx, ps, n);
        assert(scoped(tys, ps[n - 1].1) && shallow(ps[n - 1].1));
        assert forall|x: SpecName| #[trigger] after.contains_key(x) implies scoped(tys, after[x])
            && shallow(after[x]) by {
            if x != ps[n - 1].0 {
                assert(before.contains_key(x));
            }
        }
    }
}

/// Binding one type that is scoped and shallow keeps a typing so.
pub proof fn lemma_ctx_insert(
    tys: Set<SpecName>,
    ctx: Map<SpecName, SpecType>,
    x: SpecName,
    t: SpecType,
)
    requires
        ctx_ok(tys, ctx),
        scoped(tys, t),
        shallow(t),
    ensures
        ctx_ok(tys, ctx.insert(x, t)),
{
    let after = ctx.insert(x, t);
    assert forall|y: SpecName| #[trigger] after.contains_key(y) implies scoped(tys, after[y])
        && shallow(after[y]) by {
        if y != x {
            assert(ctx.contains_key(y));
        }
    }
}

/// A typing that is scoped and shallow in a scope is so in a larger one.
pub proof fn lemma_ctx_grows(small: Set<SpecName>, large: Set<SpecName>, ctx: Map<SpecName, SpecType>)
    requires
        ctx_ok(small, ctx),
        small.subset_of(large),
    ensures
        ctx_ok(large, ctx),
{
    assert forall|x: SpecName| #[trigger] ctx.contains_key(x) implies scoped(large, ctx[x])
        && shallow(ctx[x]) by {
        lemma_scoped_grows(small, large, ctx[x]);
    }
}

/// The type of a simple declaration is shallow.
pub proof fn lemma_decl_type_shallow(
    d: SpecDecl,
    tys: Set<SpecName>,
    ctx: Map<SpecName, SpecType>,
)
    requires
        simple_decl(d, tys, ctx),
    ensures
        shallow(decl_type(d)),
        decl_type(d) is Func || decl_type(d) is Forall,
{
}

/// The signatures of a checked simple group keep a typing scoped and
/// shallow.
pub proof fn lemma_ctx_signatures(
    tys: Set<SpecName>,
    ctx: Map<SpecName, SpecType>,
    decls: Seq<SpecDecl>,
)
    requires
        ctx_ok(tys, ctx),
        simple_group(decls, tys, ctx),
        first_unbound_among(tys, types_of(signatures(decls)), decls.len()) is None,
    ensures
        ctx_ok(tys, bind_all(ctx, signatures(decls))),
        forall|i: int| 0 <= i < decls.len() ==> scoped(tys, decl_type(#[trigger] decls[i])),
{
    let sigs = signatures(decls);
    lemma_all_well_formed(tys, types_of(sigs), decls.len());
    assert forall|i: int| 0 <= i < decls.len() implies scoped(tys, decl_type(#[trigger] decls[i]))
        && shallow(decl_type(decls[i])) by {
        assert(types_of(sigs)[i] == decl_type(decls[i]));
        lemma_decl_type_shallow(decls[i], tys, bind_all(ctx, sigs));
        lemma_signature_scoped(tys, decl_type(decls[i]));
    }
    assert forall|i: int| 0 <= i < sigs.len() implies scoped(tys, (#[trigger] sigs[i]).1)
        && shallow(sigs[i].1) by {
        assert(sigs[i].1 == decl_type(decls[i]));
    }
    lemma_ctx_bind(tys, ctx, sigs, sigs.len());
}

/// The types of a simple type, instantiated with simple types that are well
/// formed, are simple and well formed.
pub proof fn lemma_inst_type_ok(
    tys: Set<SpecName>,
    gens: Seq<SpecName>,
    typs: Seq<SpecType>,
    t: SpecType,
)
    requires
        gens.len() == typs.len(),
        simple_types(typs),
        forall|i: int| 0 <= i < typs.len() ==> well_formed(tys, #[trigger] typs[i]),
        simple_type(t),
        scoped(tys + gens.to_set(), t),
    ensures
        simple_type(subst_spec(instance_map(gens, typs), t)),
        scoped(tys, subst_spec(instance_map(gens, typs), t)),
{
    let inst = instance_map(gens, typs);
    lemma_bound_pairs(gens, typs, gens.len());
    assert forall|x: SpecName| inst.contains_key(x) implies simple_type(#[trigger] inst[x]) by {
        let i = choose|i: int| 0 <= i < gens.len() && typs[i] == inst[x];
        assert(simple_type(typs[i]));
    }
    lemma_subst_simple(inst, t);
    lemma_simple_sealed(tys, gens.to_set(), t);
    lemma_simple_scoped(tys + gens.to_set(), t);
    lemma_instantiation_well_formed(tys, gens, typs, t);
    lemma_simple_scoped(tys, subst_spec(inst, t));
}

/// The tuple type of an unpacked value is scoped, with the opened names in
/// scope, and shallow.
pub proof fn lemma_opened_type_ok(
    tys: Set<SpecName>,
    seals: Seq<SpecName>,
    flds: Seq<SpecType>,
    opens: Seq<SpecName>,
)
    requires
        opens.len() == seals.len(),
        simple_types(flds),
        forall|i: int| 0 <= i < flds.len() ==> scoped(tys + seals.to_set(), #[trigger] flds[i]),
    ensures
        scoped(tys + opens.to_set(), opened_type(seals, flds, opens)),
        shallow(opened_type(seals, flds, opens)),
        simple_types(subst_all(instance_map(seals, vars_of(opens)), flds)),
{
    let inner = tys + opens.to_set();
    let vars = vars_of(opens);
    let inst = instance_map(seals, vars);
    assert forall|i: int| 0 <= i < vars.len() implies simple_type(#[trigger] vars[i])
        && well_formed(inner, vars[i]) by {
        assert(opens.to_set().contains(opens[i]));
    }
    assert forall|i: int| 0 <= i < flds.len() implies simple_type(
        #[trigger] subst_all(inst, flds)[i],
    ) && scoped(inner, subst_all(inst, flds)[i]) && shallow(subst_all(inst, flds)[i]) by {
        lemma_scoped_grows(tys + seals.to_set(), inner + seals.to_set(), flds[i]);
        lemma_inst_type_ok(inner, seals, vars, flds[i]);
        lemma_simple_shallow(subst_all(inst, flds)[i]);
    }
    assert(opened_type(seals, flds, opens) == SpecType::Tup { flds: subst_all(inst, flds) });
}

/// The type that the check gives a simple expression is scoped and shallow,
/// where those of its variables are.
pub proof fn lemma_checked_type_ok(tys: Set<SpecName>, ctx: Map<SpecName, SpecType>, e: SpecExpr)
    requires
        ctx_ok(tys, ctx),
        simple_expr(e, tys, ctx),
        check_spec(tys, ctx, e) is Ok,
    ensures
        scoped(tys, check_spec(tys, ctx, e)->Ok_0),
        shallow(check_spec(tys, ctx, e)->Ok_0),
    decreases e,
{
    let t = check_spec(tys, ctx, e)->Ok_0;
    match e {
        SpecExpr::Lit { lit } => {},
        SpecExpr::Var { var } => {
            assert(ctx.contains_key(var));
        },
        SpecExpr::Prim { prim, args } => {},
        SpecExpr::Let { bind, expr, cont } => {
            lemma_checked_type_ok(tys, ctx, *expr);
            let first = check_spec(tys, ctx, *expr)->Ok_0;
            lemma_ctx_insert(tys, ctx, bind, first);
            lemma_checked_type_ok(tys, ctx.insert(bind, first), *cont);
        },
        SpecExpr::Func { pars, body } => {},
        SpecExpr::App { func, args } => {
            lemma_checked_type_ok(tys, ctx, *func);
            let func_ty = check_spec(tys, ctx, *func)->Ok_0;
            lemma_simple_shallow(*func_ty->Func_res);
        },
        SpecExpr::Tup { flds } => {
            let ts = types_each(tys, ctx, flds, flds.len())->Ok_0;
            lemma_each_len(tys, ctx, flds, flds.len());
            assert forall|i: int| 0 <= i < ts.len() implies scoped(tys, #[trigger] ts[i])
                && shallow(ts[i]) by {
                lemma_each_pass(tys, ctx, flds, flds.len(), i);
                lemma_checked_type_ok(tys, ctx, flds[i]);
            }
        },
        SpecExpr::Sel { expr, idx } => {
            lemma_checked_type_ok(tys, ctx, *expr);
        },
        SpecExpr::Letrec { decls, cont } => {
            lemma_ctx_signatures(tys, ctx, decls);
            lemma_checked_type_ok(tys, bind_all(ctx, signatures(decls)), *cont);
        },
        SpecExpr::Inst { expr, typs } => {
            lemma_checked_type_ok(tys, ctx, *expr);
            let poly = check_spec(tys, ctx, *expr)->Ok_0;
            let gens = poly->Forall_gens;
            let pars = poly->Forall_pars;
            let res = *poly->Forall_res;
            let inst = instance_map(gens, typs);
            lemma_all_well_formed(tys, typs, typs.len());
            assert forall|i: int| 0 <= i < pars.len() implies simple_type(
                #[trigger] subst_all(inst, pars)[i],
            ) && scoped(tys, subst_all(inst, pars)[i]) by {
                lemma_inst_type_ok(tys, gens, typs, pars[i]);
            }
            lemma_inst_type_ok(tys, gens, typs, res);
            assert(t == SpecType::Func {
                pars: subst_all(inst, pars),
                res: Box::new(subst_spec(inst, res)),
            });
        },
        SpecExpr::Pack { expr, seals, flds } => {
            let inner = tys + names_of(seals).to_set();
            lemma_all_well_formed(inner, flds, flds.len());
            assert forall|i: int| 0 <= i < flds.len() implies scoped(inner, #[trigger] flds[i]) by {
                lemma_simple_scoped(inner, flds[i]);
            }
            assert(t == SpecType::Exist { seals: names_of(seals), flds });
        },
        SpecExpr::Unpack { bind, opens, expr, cont } => {
            lemma_checked_type_ok(tys, ctx, *expr);
            let package = check_spec(tys, ctx, *expr)->Ok_0;
            let seals = package->Exist_seals;
            let flds = package->Exist_flds;
            let inner = tys + opens.to_set();
            lemma_opened_type_ok(tys, seals, flds, opens);
            lemma_ctx_grows(tys, inner, ctx);
            lemma_ctx_insert(inner, ctx, bind, opened_type(seals, flds, opens));
            lemma_checked_type_ok(inner, ctx.insert(bind, opened_type(seals, flds, opens)), *cont);
        },
        SpecExpr::Ifte { cond, trbr, flbr } => {
            lemma_checked_type_ok(tys, ctx, *trbr);
        },
    }
}

/// Whether an expression is simple, with `tyenv` the type variables and
/// `env` the types of the value variables in scope: see [`simple_expr`].
/// Both scopes are left as they were.
pub fn is_simple_expr(e: &Expr, tyenv: &mut TyEnv, env: &mut Env) -> (b: bool)
    ensures
        b == simple_expr(e@, scope_names(*old(tyenv)), env_types(*old(env))),
        *final(tyenv) == *old(tyenv),
        *final(env) == *old(env),
    decreases e,
{
    let ghost tys = scope_names(*tyenv);
    let ghost ctx = env_types(*env);
    let ghost v = e@;
    match e {
        Expr::Lit { .. } => true,
        Expr::Var { .. } => true,
        Expr::Prim { prim, args } => {
            let b = are_simple_exprs(args, tyenv, env);
            proof {
                assert(v->Prim_args == exprs_view(args@));
                assert(simple_expr(v, tys, ctx) == simple_exprs(v->Prim_args, tys, ctx));
            }
            b
        },
        Expr::Let { bind, expr, cont } => {
            if !is_simple_expr(expr, tyenv, env) {
                return false;
            }
            match check_expr(tyenv, env, expr) {
                Ok(t) => {
                    let mut env2 = env_clone(env);
                    env_insert(&mut env2, bind.clone(), t);
                    is_simple_expr(cont, tyenv, &mut env2)
                },
                Err(_) => true,
            }
        },
        Expr::Func { .. } => false,
        Expr::App { func, args } => {
            let b = is_simple_expr(func, tyenv, env) && are_simple_exprs(args, tyenv, env);
            proof {
                assert(v->App_args == exprs_view(args@));
                assert(simple_expr(v, tys, ctx) == (simple_expr(*v->func, tys, ctx)
                    && simple_exprs(v->App_args, tys, ctx)));
            }
            b
        },
        Expr::Tup { flds } => {
            let b = are_simple_exprs(flds, tyenv, env);
            proof {
                assert(v->Tup_flds == exprs_view(flds@));
                assert(simple_expr(v, tys, ctx) == simple_exprs(v->Tup_flds, tys, ctx));
            }
            b
        },
        Expr::Sel { expr, idx } => is_simple_expr(expr, tyenv, env),
        Expr::Letrec { decls, cont } => {
            let sigs = decl_signatures(decls);
            let mut env2 = bind_params(env, &sigs);
            let b = are_simple_decls(decls, tyenv, &mut env2) && is_simple_expr(
                cont,
                tyenv,
                &mut env2,
            );
            proof {
                let inner = bind_all(ctx, signatures(v->decls));
                assert(v->decls == decls_view(decls@));
                assert(simple_expr(v, tys, ctx) == ((forall|i: int|
                    0 <= i < v->decls.len() ==> simple_decl(#[trigger] v->decls[i], tys, inner))
                    && simple_expr(*v->Letrec_cont, tys, inner)));
            }
            b
        },
        Expr::Inst { expr, typs } => is_simple_expr(expr, tyenv, env) && are_simple_types(typs),
        Expr::Pack { expr, seals, flds } => {
            let kept = param_types(seals);
            is_simple_expr(expr, tyenv, env) && are_simple_types(&kept) && are_simple_types(flds)
        },
        Expr::Unpack { bind, opens, expr, cont } => {
            if !is_simple_expr(expr, tyenv, env) || !are_distinct(opens) || !are_fresh(
                opens,
                tyenv,
            ) {
                return false;
            }
            match check_expr(tyenv, env, expr) {
                Ok(Type::Exist { seals, flds }) => {
                    if opens.len() != seals.len() {
                        return true;
                    }
                    let opened = open_type(&seals, &flds, opens);
                    let mut tyenv2 = with_names(tyenv, opens);
                    let mut env2 = env_clone(env);
                    env_insert(&mut env2, bind.clone(), opened);
                    if !is_simple_expr(cont, &mut tyenv2, &mut env2) {
                        return false;
                    }
                    match check_expr(&mut tyenv2, &mut env2, cont) {
                        Ok(t) => is_scoped(&t, tyenv),
                        Err(_) => true,
                    }
                },
                _ => true,
            }
        },
        Expr::Ifte { cond, trbr, flbr } => is_simple_expr(cond, tyenv, env) && is_simple_expr(
            trbr,
            tyenv,
            env,
        ) && is_simple_expr(flbr, tyenv, env),
    }
}

/// Whether each expression of a list is simple.
pub fn are_simple_exprs(es: &Vec<Expr>, tyenv: &mut TyEnv, env: &mut Env) -> (b: bool)
    ensures
        b == simple_exprs(exprs_view(es@), scope_names(*old(tyenv)), env_types(*old(env))),
        *final(tyenv) == *old(tyenv),
        *final(env) == *old(env),
    decreases es,
{
    proof {
        lemma_exprs_view(es@);
    }
    let mut i: usize = 0;
    while i < es.len()
        invariant
            i <= es.len(),
            *tyenv == *old(tyenv),
            *env == *old(env),
            exprs_view(es@).len() == es.len(),
            forall|j: int| 0 <= j < es.len() ==> (#[trigger] exprs_view(es@)[j]) == es@[j]@,
            forall|j: int|
                0 <= j < i ==> simple_expr(
                    #[trigger] exprs_view(es@)[j],
                    scope_names(*tyenv),
                    env_types(*env),
                ),
        decreases es.len() - i,
    {
        if !is_simple_expr(&es[i], tyenv, env) {
            assert(!simple_expr(exprs_view(es@)[i as int], scope_names(*tyenv), env_types(*env)));
            return false;
        }
        i += 1;
    }
    true
}

/// Whether a declaration of a group is simple, with `env` the types of the
/// variables in scope in the group, its own members among them: see
/// [`simple_decl`].
pub fn is_simple_decl(d: &Decl, tyenv: &mut TyEnv, env: &mut Env) -> (b: bool)
    ensures
        b == simple_decl(d@, scope_names(*old(tyenv)), env_types(*old(env))),
        *final(tyenv) == *old(tyenv),
        *final(env) == *old(env),
    decreases d,
{
    let typs = param_types(&d.pars);
    if !are_simple_types(&typs) || !is_simple_type(&d.res) {
        return false;
    }
    let mut env2 = bind_params(env, &d.pars);
    match &d.gens {
        None => is_simple_expr(&d.body, tyenv, &mut env2),
        Some(gens) => {
            if !are_fresh(gens, tyenv) {
                return false;
            }
            let mut inner = with_names(tyenv, gens);
            is_simple_expr(&d.body, &mut inner, &mut env2)
        },
    }
}

/// Whether each declaration of a group is simple, with `env` the types of
/// the variables in scope in the group.
pub fn are_simple_decls(decls: &Vec<Decl>, tyenv: &mut TyEnv, env: &mut Env) -> (b: bool)
    ensures
        b == (forall|i: int|
            0 <= i < decls_view(decls@).len() ==> simple_decl(
                #[trigger] decls_view(decls@)[i],
                scope_names(*old(tyenv)),
                env_types(*old(env)),
            )),
        *final(tyenv) == *old(tyenv),
        *final(env) == *old(env),
    decreases decls,
{
    proof {
        lemma_decls_view(decls@);
    }
    let mut i: usize = 0;
    while i < decls.len()
        invariant
            i <= decls.len(),
            *tyenv == *old(tyenv),
            *env == *old(env),
            decls_view(decls@).len() == decls.len(),
            forall|j: int| 0 <= j < decls.len() ==> (#[trigger] decls_view(decls@)[j]) == decls@[j]@,
            forall|j: int|
                0 <= j < i ==> simple_decl(
                    #[trigger] decls_view(decls@)[j],
                    scope_names(*tyenv),
                    env_types(*env),
                ),
        decreases decls.len() - i,
    {
        if !is_simple_decl(&decls[i], tyenv, env) {
            assert(!simple_decl(
                decls_view(decls@)[i as int],
                scope_names(*tyenv),
                env_types(*env),
            ));
            return false;
        }
        i += 1;
    }
    true
}

/// Whether a program is simple: whether its evaluation cannot get stuck once
/// it has passed the check.
pub fn is_simple_program(prog: &Program) -> (b: bool)
    ensures
        b == simple_program(decls_view(prog.decls@)),
{
    let mut tyenv = scope_new();
    let empty = env_new();
    let sigs = decl_signatures(&prog.decls);
    let mut env = bind_params(&empty, &sigs);
    are_simple_decls(&prog.decls, &mut tyenv, &mut env)
}

} // verus!
