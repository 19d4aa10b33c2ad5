//! Checked programs of the simple fragment do not get stuck.

use vstd::prelude::*;
use crate::common::lit::{LitType, LitVal};
use crate::common::name::SpecName;
use crate::common::prim::Prim;
use crate::corelang::check::{
    args_fault, bind_all, bind_first, check_prog_spec, check_spec, decl_scope, decl_type,
    decls_fault, first_unbound_among, lemma_args_pass, lemma_decls_pass, lemma_each_len,
    lemma_each_pass, names_of, opened_type, pair_up, signatures, subst_all, subst_spec, types_each,
    types_of, vars_of,
};
use crate::corelang::eval::{
    SpecAnswer, SpecControl, SpecEvalError, SpecFrame, SpecMachine, SpecRequest, SpecValue,
    main_name, program_start, unit_result,
};
use crate::corelang::machine::{
    answered, bind_group, bind_members, bind_values, enter, eval_step, going, replay_spec,
    resume_spec, return_step, running, step_spec, steps_spec,
};
use crate::corelang::primop::prim_outcome;
use crate::corelang::fragment::{
    ctx_ok, lemma_checked_type_ok, lemma_ctx_bind, lemma_ctx_grows, lemma_ctx_insert,
    lemma_ctx_signatures, lemma_opened_type_ok, simple_decl, simple_expr, simple_group,
    simple_program,
};
use crate::corelang::simple::{
    agree, ground, ground_map, grounds, instance_map, lemma_all_well_formed, lemma_bind_over,
    lemma_ground_simple, lemma_no_mismatch, lemma_simple_scoped, lemma_simple_shallow,
    lemma_subst_agree, lemma_subst_fuse, lemma_subst_fuse_all, lemma_subst_ground, lemma_subst_inst,
    lemma_subst_inst_all, lemma_subst_open, lemma_subst_simple, scoped, shallow, simple_type,
    simple_types,
};
use crate::corelang::syntax::{SpecDecl, SpecExpr, SpecType};
use crate::corelang::wellformed::lemma_bound_pairs;

verus! {

/// The function type of a declaration with its type variables replaced as
/// `rho` says.
pub open spec fn func_type(rho: Map<SpecName, SpecType>, d: SpecDecl) -> SpecType {
    SpecType::Func {
        pars: subst_all(rho, types_of(d.pars)),
        res: Box::new(subst_spec(rho, d.res)),
    }
}

/// Whether `t` is the function type of a generic declaration with its
/// generic names bound to the ground types `typs`, over `rho`.
pub open spec fn instance_type(
    rho: Map<SpecName, SpecType>,
    d: SpecDecl,
    typs: Seq<SpecType>,
    t: SpecType,
) -> bool {
    &&& d.gens matches Some(gens)
    &&& gens.len() == typs.len()
    &&& grounds(typs)
    &&& t == func_type(bind_all(rho, pair_up(gens, typs)), d)
}

/// Whether a function declared by `d`, in a group whose type variables stand
/// for what `rho` says, has the type `t`: the declared type, or for a generic
/// declaration a function type that instantiates it.
pub open spec fn member_type(rho: Map<SpecName, SpecType>, d: SpecDecl, t: SpecType) -> bool {
    t == subst_spec(rho, decl_type(d)) || exists|typs: Seq<SpecType>| #[trigger]
        instance_type(rho, d, typs, t)
}

/// Whether a group is simple and passes the check, with `tys` the type
/// variables in scope and `ctx` the types of the variables around it.
pub open spec fn group_ok(
    tys: Set<SpecName>,
    ctx: Map<SpecName, SpecType>,
    group: Seq<SpecDecl>,
) -> bool {
    simple_group(group, tys, ctx) && first_unbound_among(
        tys,
        types_of(signatures(group)),
        group.len(),
    ) is None && decls_fault(tys, bind_all(ctx, signatures(group)), group, group.len()) is None
}

/// Whether the `i`th declaration of a checked group has the given parameters
/// and body, and a function declared by it has the type `t`.
pub open spec fn member_ok(
    ctx: Map<SpecName, SpecType>,
    rho: Map<SpecName, SpecType>,
    group: Seq<SpecDecl>,
    i: int,
    pars: Seq<(SpecName, SpecType)>,
    body: SpecExpr,
    t: SpecType,
) -> bool {
    ground_map(rho) && ctx_ok(rho.dom(), ctx) && group_ok(rho.dom(), ctx, group) && 0 <= i
        < group.len() && group[i].pars == pars && group[i].body == body && member_type(
        rho,
        group[i],
        t,
    )
}

/// Whether the ground types `hidden` can stand for the names `seals` in the
/// `n` simple field types `flds` of a package.
pub open spec fn hides(
    seals: Seq<SpecName>,
    flds: Seq<SpecType>,
    hidden: Seq<SpecType>,
    n: nat,
) -> bool {
    seals.len() == hidden.len() && grounds(hidden) && simple_types(flds) && flds.len() == n
}

/// Whether a value has a type that holds no free type variable.
///
/// A literal has the type of its kind. A tuple has the tuple type of its
/// fields' types, and each existential type whose field types, with some
/// ground types for the sealed names, are its fields' types. A function has
/// the types that its declaration gives it ([`member_type`]), given that its
/// group passes the check in some typing of the environment it was made in.
pub open spec fn val_ok(v: SpecValue, t: SpecType) -> bool
    decreases v,
{
    match v {
        SpecValue::Lit(lit) => t == (SpecType::Lit { lit: lit.typ() }),
        SpecValue::Tup(vs) => match t {
            SpecType::Tup { flds } => flds.len() == vs.len() && forall|i: int|
                0 <= i < vs.len() ==> val_ok(vs[i], #[trigger] flds[i]),
            SpecType::Exist { seals, flds } => exists|hidden: Seq<SpecType>| #[trigger]
                hides(seals, flds, hidden, vs.len()) && forall|i: int|
                    0 <= i < vs.len() ==> val_ok(
                        vs[i],
                        #[trigger] subst_all(instance_map(seals, hidden), flds)[i],
                    ),
            _ => false,
        },
        SpecValue::Clos { env, group, pars, body } => exists|
            ctx: Map<SpecName, SpecType>,
            rho: Map<SpecName, SpecType>,
            i: int,
        |
            env_ok(env, ctx, rho) && #[trigger] member_ok(ctx, rho, group, i, pars, body, t),
    }
}

/// Whether an environment binds each variable that `ctx` gives a type to a
/// value of that type, with its type variables replaced as `rho` says.
pub open spec fn env_ok(
    env: Map<SpecName, SpecValue>,
    ctx: Map<SpecName, SpecType>,
    rho: Map<SpecName, SpecType>,
) -> bool
    decreases env,
{
    env.dom().finite() && forall|x: SpecName| #[trigger]
        ctx.contains_key(x) ==> env.contains_key(x) && val_ok(env[x], subst_spec(rho, ctx[x]))
}

/// Whether an environment is typed by `ctx`, whose type variables stand for
/// the ground types that `rho` binds them to.
pub open spec fn world_ok(
    ctx: Map<SpecName, SpecType>,
    rho: Map<SpecName, SpecType>,
    env: Map<SpecName, SpecValue>,
) -> bool {
    ground_map(rho) && ctx_ok(rho.dom(), ctx) && env_ok(env, ctx, rho)
}

/// Whether an expression is simple and has in `ctx` a type that `rho` makes
/// `t`.
pub open spec fn typed(
    ctx: Map<SpecName, SpecType>,
    rho: Map<SpecName, SpecType>,
    e: SpecExpr,
    t: SpecType,
) -> bool {
    simple_expr(e, rho.dom(), ctx) && check_spec(rho.dom(), ctx, e) is Ok && subst_spec(
        rho,
        check_spec(rho.dom(), ctx, e)->Ok_0,
    ) == t
}

/// Whether each expression of a list from position `from` on is
/// [`typed`] by the type at its position.
pub open spec fn rest_typed(
    ctx: Map<SpecName, SpecType>,
    rho: Map<SpecName, SpecType>,
    es: Seq<SpecExpr>,
    ts: Seq<SpecType>,
    from: int,
) -> bool {
    forall|i: int| from <= i < es.len() ==> typed(ctx, rho, #[trigger] es[i], ts[i])
}

/// Whether each value of a list has the type at its position.
pub open spec fn vals_typed(vs: Seq<SpecValue>, ts: Seq<SpecType>) -> bool {
    vs.len() <= ts.len() && forall|i: int| 0 <= i < vs.len() ==> val_ok(#[trigger] vs[i], ts[i])
}

/// Whether the machine may be evaluating the expression in the environment.
pub open spec fn eval_ok(
    ctx: Map<SpecName, SpecType>,
    rho: Map<SpecName, SpecType>,
    env: Map<SpecName, SpecValue>,
    e: SpecExpr,
    t: SpecType,
) -> bool {
    world_ok(ctx, rho, env) && typed(ctx, rho, e, t)
}

/// Whether a list of expressions is being evaluated in order against the
/// types `pars`.
pub open spec fn args_pending(
    ctx: Map<SpecName, SpecType>,
    rho: Map<SpecName, SpecType>,
    env: Map<SpecName, SpecValue>,
    pars: Seq<SpecType>,
    args: Seq<SpecExpr>,
    done: Seq<SpecValue>,
    hole: SpecType,
) -> bool {
    world_ok(ctx, rho, env) && pars.len() == args.len() && done.len() < args.len() && hole
        == pars[done.len() as int] && vals_typed(done, pars) && rest_typed(
        ctx,
        rho,
        args,
        pars,
        done.len() as int + 1,
    )
}

/// Whether the arguments of a call wait for a function of type `hole`.
pub open spec fn call_pending(
    ctx: Map<SpecName, SpecType>,
    rho: Map<SpecName, SpecType>,
    env: Map<SpecName, SpecValue>,
    args: Seq<SpecExpr>,
    hole: SpecType,
    out: SpecType,
) -> bool {
    &&& world_ok(ctx, rho, env)
    &&& hole matches SpecType::Func { pars, res }
    &&& pars.len() == args.len()
    &&& rest_typed(ctx, rho, args, pars, 0)
    &&& out == *res
}

/// Whether the continuation of a binding waits for a value of type `hole`,
/// which `rho` makes of the type `first` that the check gave what is bound.
pub open spec fn let_pending(
    ctx: Map<SpecName, SpecType>,
    rho: Map<SpecName, SpecType>,
    first: SpecType,
    env: Map<SpecName, SpecValue>,
    bind: SpecName,
    cont: SpecExpr,
    hole: SpecType,
    out: SpecType,
) -> bool {
    world_ok(ctx, rho, env) && scoped(rho.dom(), first) && shallow(first) && subst_spec(
        rho,
        first,
    ) == hole && typed(ctx.insert(bind, first), rho, cont, out)
}

/// Whether the continuation of an unpacking waits for a package of type
/// `hole`, which `rho` makes of the existential type with the names `seals`
/// and the fields `flds` that the check gave what is unpacked.
pub open spec fn unpack_pending(
    ctx: Map<SpecName, SpecType>,
    rho: Map<SpecName, SpecType>,
    seals: Seq<SpecName>,
    flds: Seq<SpecType>,
    opens: Seq<SpecName>,
    env: Map<SpecName, SpecValue>,
    bind: SpecName,
    cont: SpecExpr,
    hole: SpecType,
    out: SpecType,
) -> bool {
    &&& world_ok(ctx, rho, env)
    &&& scoped(rho.dom(), SpecType::Exist { seals, flds })
    &&& simple_types(flds)
    &&& hole == subst_spec(rho, SpecType::Exist { seals, flds })
    &&& opens.len() == seals.len()
    &&& opens.no_duplicates()
    &&& opens.to_set().disjoint(rho.dom())
    &&& simple_expr(
        cont,
        rho.dom() + opens.to_set(),
        ctx.insert(bind, opened_type(seals, flds, opens)),
    )
    &&& check_spec(
        rho.dom() + opens.to_set(),
        ctx.insert(bind, opened_type(seals, flds, opens)),
        cont,
    ) matches Ok(t)
    &&& scoped(rho.dom(), t)
    &&& out == subst_spec(rho, t)
}

/// Whether the branches of a conditional wait for its condition.
pub open spec fn branches_pending(
    ctx: Map<SpecName, SpecType>,
    rho: Map<SpecName, SpecType>,
    env: Map<SpecName, SpecValue>,
    trbr: SpecExpr,
    flbr: SpecExpr,
    hole: SpecType,
    out: SpecType,
) -> bool {
    world_ok(ctx, rho, env) && hole == (SpecType::Lit { lit: LitType::TyBool }) && typed(
        ctx,
        rho,
        trbr,
        out,
    ) && typed(ctx, rho, flbr, out)
}

/// Whether a frame that gets a value of type `hole` goes on to yield a value
/// of type `out`.
pub open spec fn frame_ok(f: SpecFrame, hole: SpecType, out: SpecType) -> bool {
    match f {
        SpecFrame::PrimArgs { prim, args, done, env } => out == (SpecType::Lit {
            lit: prim.result(),
        }) && exists|ctx: Map<SpecName, SpecType>, rho: Map<SpecName, SpecType>| #[trigger]
            args_pending(ctx, rho, env, prim.typ()->Func_pars, args, done, hole),
        SpecFrame::LetBody { bind, cont, env } => (exists|
            ctx: Map<SpecName, SpecType>,
            rho: Map<SpecName, SpecType>,
            first: SpecType,
        | #[trigger] let_pending(ctx, rho, first, env, bind, cont, hole, out)) || (exists|
            ctx: Map<SpecName, SpecType>,
            rho: Map<SpecName, SpecType>,
            seals: Seq<SpecName>,
            flds: Seq<SpecType>,
            opens: Seq<SpecName>,
        | #[trigger] unpack_pending(ctx, rho, seals, flds, opens, env, bind, cont, hole, out)),
        SpecFrame::AppFunc { args, env } => exists|
            ctx: Map<SpecName, SpecType>,
            rho: Map<SpecName, SpecType>,
        | #[trigger] call_pending(ctx, rho, env, args, hole, out),
        SpecFrame::AppArgs { made_in, group, pars, body, args, done, env } => exists|
            ctx: Map<SpecName, SpecType>,
            rho: Map<SpecName, SpecType>,
            ts: Seq<SpecType>,
        | #[trigger]
            args_pending(ctx, rho, env, ts, args, done, hole) && val_ok(
                SpecValue::Clos { env: made_in, group, pars, body },
                SpecType::Func { pars: ts, res: Box::new(out) },
            ),
        SpecFrame::TupFlds { flds, done, env } => exists|
            ctx: Map<SpecName, SpecType>,
            rho: Map<SpecName, SpecType>,
            ts: Seq<SpecType>,
        | #[trigger]
            args_pending(ctx, rho, env, ts, flds, done, hole) && out == (SpecType::Tup {
                flds: ts,
            }),
        SpecFrame::SelOf { idx } => hole matches SpecType::Tup { flds } && idx < flds.len() && out
            == flds[idx as int],
        SpecFrame::IfteCond { trbr, flbr, env } => exists|
            ctx: Map<SpecName, SpecType>,
            rho: Map<SpecName, SpecType>,
        | #[trigger] branches_pending(ctx, rho, env, trbr, flbr, hole, out),
    }
}

/// Whether `hole` is a function type that instantiates the generic names
/// `gens` of the parameter types `pars` and the result type `res` with the
/// ground types `typs`.
pub open spec fn instance_at(
    gens: Seq<SpecName>,
    pars: Seq<SpecType>,
    res: SpecType,
    typs: Seq<SpecType>,
    hole: SpecType,
) -> bool {
    gens.len() == typs.len() && grounds(typs) && simple_types(pars) && simple_type(res) && hole
        == (SpecType::Func {
        pars: subst_all(instance_map(gens, typs), pars),
        res: Box::new(subst_spec(instance_map(gens, typs), res)),
    })
}

/// Whether `hole` is an existential type that a tuple of type `t` can be
/// packed as: with some ground types for the sealed names, the field types
/// of `hole` are those of `t`.
pub open spec fn packs(t: SpecType, hole: SpecType) -> bool {
    match (t, hole) {
        (SpecType::Tup { flds: actual }, SpecType::Exist { seals, flds }) => exists|
            hidden: Seq<SpecType>,
        | #[trigger]
            hides(seals, flds, hidden, actual.len()) && actual == subst_all(
                instance_map(seals, hidden),
                flds,
            ),
        _ => false,
    }
}

/// Whether a value of type `t` can stand where one of type `hole` is
/// awaited: the types are the same, or `t` is universal and `hole` a
/// function type that instantiates it with ground types, or `t` is a tuple
/// type and `hole` an existential type that it can be packed as.
pub open spec fn coerces(t: SpecType, hole: SpecType) -> bool {
    t == hole || (t matches SpecType::Forall { gens, pars, res } && exists|typs: Seq<SpecType>|
     #[trigger] instance_at(gens, pars, *res, typs, hole)) || packs(t, hole)
}

/// Whether a frame takes a value of type `hole` and yields one that can
/// stand where `next` is awaited.
pub open spec fn link_ok(f: SpecFrame, hole: SpecType, out: SpecType, next: SpecType) -> bool {
    frame_ok(f, hole, out) && coerces(out, next)
}

/// Whether a stack that gets a value of type `hole` goes on to yield a
/// result of type `result`.
pub open spec fn stack_ok(stack: Seq<SpecFrame>, hole: SpecType, result: SpecType) -> bool
    decreases stack.len(),
{
    if stack.len() == 0 {
        hole == result
    } else {
        exists|out: SpecType, next: SpecType| #[trigger]
            link_ok(stack.last(), hole, out, next) && stack_ok(stack.drop_last(), next, result)
    }
}

/// Whether a stack takes a value of type `t`.
pub open spec fn takes(stack: Seq<SpecFrame>, t: SpecType, result: SpecType) -> bool {
    exists|hole: SpecType| #[trigger] coerces(t, hole) && stack_ok(stack, hole, result)
}

/// Whether a request is one that the machine makes for a value of type `t`.
pub open spec fn request_ok(request: SpecRequest, t: SpecType) -> bool {
    match request {
        SpecRequest::ReadLine(p) => (p == Prim::IScan || p == Prim::FScan || p == Prim::CScan)
            && t == (SpecType::Lit { lit: p.result() }),
        SpecRequest::ParseFloat(_) => t == (SpecType::Lit { lit: LitType::TyFloat }),
        SpecRequest::FloatUnary(p, _) => p == Prim::FNeg && t == (SpecType::Lit {
            lit: LitType::TyFloat,
        }),
        SpecRequest::FloatBinary(p, _, _) => (p == Prim::FAdd || p == Prim::FSub || p == Prim::FMul
            || p == Prim::FDiv || p is FCmp) && t == (SpecType::Lit { lit: p.result() }),
        SpecRequest::ShowFloat(_) => t == (SpecType::Lit { lit: LitType::TyUnit }),
        SpecRequest::Print(_) => t == (SpecType::Lit { lit: LitType::TyUnit }),
    }
}

/// Whether a fault is one that a checked program can meet: a division by
/// zero or a line of input that cannot be read.
pub open spec fn fault_ok(e: SpecEvalError) -> bool {
    e is DivByZero || e is BadInput
}

/// Whether a control hands on a value of type `t`, asks for one, or stops on
/// a fault that a checked program can meet.
pub open spec fn ctrl_ok(c: SpecControl, t: SpecType) -> bool {
    match c {
        SpecControl::Eval { env, expr } => exists|
            ctx: Map<SpecName, SpecType>,
            rho: Map<SpecName, SpecType>,
        | #[trigger] eval_ok(ctx, rho, env, expr, t),
        SpecControl::Return(v) => val_ok(v, t),
        SpecControl::Ask(request) => request_ok(request, t),
        SpecControl::Fail(e) => fault_ok(e),
    }
}

/// Whether a machine is well typed, with a result of type `result`: its
/// control yields a value of some type that its stack takes.
pub open spec fn state_ok(m: SpecMachine, result: SpecType) -> bool {
    match m.ctrl {
        SpecControl::Fail(e) => fault_ok(e),
        _ => exists|t: SpecType| #[trigger] ctrl_ok(m.ctrl, t) && takes(m.stack, t, result),
    }
}

/// A function of a checked group has the types that its declaration gives.
pub proof fn lemma_clos_intro(
    ctx: Map<SpecName, SpecType>,
    rho: Map<SpecName, SpecType>,
    env: Map<SpecName, SpecValue>,
    group: Seq<SpecDecl>,
    i: int,
    pars: Seq<(SpecName, SpecType)>,
    body: SpecExpr,
    t: SpecType,
)
    requires
        env_ok(env, ctx, rho),
        member_ok(ctx, rho, group, i, pars, body, t),
    ensures
        val_ok(SpecValue::Clos { env, group, pars, body }, t),
{
    let v = SpecValue::Clos { env, group, pars, body };
    assert(exists|c: Map<SpecName, SpecType>, r: Map<SpecName, SpecType>, j: int|
        env_ok(env, c, r) && #[trigger] member_ok(c, r, group, j, pars, body, t));
    assert(v is Clos);
    assert(val_ok(v, t) == (exists|c: Map<SpecName, SpecType>, r: Map<SpecName, SpecType>, j: int|
        env_ok(v->env, c, r) && #[trigger] member_ok(c, r, v->group, j, v->pars, v->body, t)));
}

/// Binding a value of a type in an environment and the type in its typing
/// keeps the two in step.
pub proof fn lemma_env_insert(
    env: Map<SpecName, SpecValue>,
    ctx: Map<SpecName, SpecType>,
    rho: Map<SpecName, SpecType>,
    x: SpecName,
    v: SpecValue,
    t: SpecType,
)
    requires
        env_ok(env, ctx, rho),
        val_ok(v, subst_spec(rho, t)),
    ensures
        env_ok(env.insert(x, v), ctx.insert(x, t), rho),
{
    let env2 = env.insert(x, v);
    let ctx2 = ctx.insert(x, t);
    assert forall|y: SpecName| #[trigger] ctx2.contains_key(y) implies env2.contains_key(y)
        && val_ok(env2[y], subst_spec(rho, ctx2[y])) by {
        if y != x {
            assert(ctx.contains_key(y));
        }
    }
}

/// An environment typed with one reading of the type variables is typed
/// with another that agrees with it on the variables in scope.
pub proof fn lemma_env_retype(
    env: Map<SpecName, SpecValue>,
    ctx: Map<SpecName, SpecType>,
    rho: Map<SpecName, SpecType>,
    other: Map<SpecName, SpecType>,
)
    requires
        env_ok(env, ctx, rho),
        ctx_ok(rho.dom(), ctx),
        agree(rho.dom(), other, rho),
    ensures
        env_ok(env, ctx, other),
{
    assert forall|x: SpecName| #[trigger] ctx.contains_key(x) implies env.contains_key(x)
        && val_ok(env[x], subst_spec(other, ctx[x])) by {
        lemma_subst_agree(rho.dom(), other, rho, ctx[x]);
    }
}

/// A member of a checked group is a function of the type that it declares.
pub proof fn lemma_member_value(
    made_in: Map<SpecName, SpecValue>,
    ctx: Map<SpecName, SpecType>,
    rho: Map<SpecName, SpecType>,
    group: Seq<SpecDecl>,
    i: int,
)
    requires
        env_ok(made_in, ctx, rho),
        ground_map(rho),
        ctx_ok(rho.dom(), ctx),
        group_ok(rho.dom(), ctx, group),
        0 <= i < group.len(),
    ensures
        val_ok(
            SpecValue::Clos { env: made_in, group, pars: group[i].pars, body: group[i].body },
            subst_spec(rho, decl_type(group[i])),
        ),
{
    let d = group[i];
    let t = subst_spec(rho, decl_type(d));
    assert(member_type(rho, d, t));
    assert(member_ok(ctx, rho, group, i, d.pars, d.body, t));
    lemma_clos_intro(ctx, rho, made_in, group, i, d.pars, d.body, t);
}

/// The members of a checked group have the types that the group declares,
/// also with a reading of the type variables that agrees on those in scope.
pub proof fn lemma_group_bound(
    made_in: Map<SpecName, SpecValue>,
    ctx: Map<SpecName, SpecType>,
    rho: Map<SpecName, SpecType>,
    other: Map<SpecName, SpecType>,
    group: Seq<SpecDecl>,
    n: nat,
)
    requires
        env_ok(made_in, ctx, rho),
        ground_map(rho),
        ctx_ok(rho.dom(), ctx),
        group_ok(rho.dom(), ctx, group),
        agree(rho.dom(), other, rho),
        n <= group.len(),
    ensures
        env_ok(bind_members(made_in, group, n), bind_first(ctx, signatures(group), n), other),
    decreases n,
{
    if n > 0 {
        lemma_group_bound(made_in, ctx, rho, other, group, (n - 1) as nat);
        let d = group[n - 1];
        let member = SpecValue::Clos { env: made_in, group, pars: d.pars, body: d.body };
        lemma_member_value(made_in, ctx, rho, group, n - 1);
        lemma_ctx_signatures(rho.dom(), ctx, group);
        lemma_subst_agree(rho.dom(), other, rho, decl_type(d));
        lemma_env_insert(
            bind_members(made_in, group, (n - 1) as nat),
            bind_first(ctx, signatures(group), (n - 1) as nat),
            other,
            d.name,
            member,
            decl_type(d),
        );
    } else {
        lemma_env_retype(made_in, ctx, rho, other);
    }
}

/// Parameters bound to values of their types are typed by their types.
pub proof fn lemma_values_bound(
    env: Map<SpecName, SpecValue>,
    ctx: Map<SpecName, SpecType>,
    rho: Map<SpecName, SpecType>,
    pars: Seq<(SpecName, SpecType)>,
    vals: Seq<SpecValue>,
    n: nat,
)
    requires
        env_ok(env, ctx, rho),
        n <= pars.len(),
        n <= vals.len(),
        forall|i: int| 0 <= i < n ==> val_ok(#[trigger] vals[i], subst_spec(rho, pars[i].1)),
    ensures
        env_ok(bind_values(env, pars, vals, n), bind_first(ctx, pars, n), rho),
    decreases n,
{
    if n > 0 {
        lemma_values_bound(env, ctx, rho, pars, vals, (n - 1) as nat);
        assert(val_ok(vals[n - 1], subst_spec(rho, pars[n - 1].1)));
        lemma_env_insert(
            bind_values(env, pars, vals, (n - 1) as nat),
            bind_first(ctx, pars, (n - 1) as nat),
            rho,
            pars[n - 1].0,
            vals[n - 1],
            pars[n - 1].1,
        );
    }
}

/// Calling a member of a checked group, with a reading of the type
/// variables that covers the declaration's scope and values of the
/// parameters' types, enters a typed evaluation of its body.
pub proof fn lemma_enter_with(
    made_in: Map<SpecName, SpecValue>,
    ctx: Map<SpecName, SpecType>,
    rho: Map<SpecName, SpecType>,
    inner: Map<SpecName, SpecType>,
    group: Seq<SpecDecl>,
    i: int,
    vals: Seq<SpecValue>,
)
    requires
        env_ok(made_in, ctx, rho),
        ground_map(rho),
        ctx_ok(rho.dom(), ctx),
        group_ok(rho.dom(), ctx, group),
        0 <= i < group.len(),
        ground_map(inner),
        inner.dom() == decl_scope(rho.dom(), group[i]),
        agree(rho.dom(), inner, rho),
        vals.len() == group[i].pars.len(),
        vals_typed(vals, subst_all(inner, types_of(group[i].pars))),
    ensures
        eval_ok(
            bind_all(bind_all(ctx, signatures(group)), group[i].pars),
            inner,
            enter(made_in, group, group[i].pars, vals),
            group[i].body,
            subst_spec(inner, group[i].res),
        ),
{
    let d = group[i];
    let tys = rho.dom();
    let scope = decl_scope(tys, d);
    let sigs = signatures(group);
    let outer = bind_all(ctx, sigs);
    let all = bind_all(outer, d.pars);
    lemma_decls_pass(tys, outer, group, group.len(), i);
    assert(simple_decl(d, tys, outer));
    assert(tys.subset_of(scope));
    // The typing of the body is scoped and shallow.
    lemma_ctx_signatures(tys, ctx, group);
    lemma_ctx_grows(tys, scope, outer);
    lemma_all_well_formed(scope, types_of(d.pars), d.pars.len());
    assert forall|k: int| 0 <= k < d.pars.len() implies scoped(scope, (#[trigger] d.pars[k]).1)
        && shallow(d.pars[k].1) by {
        assert(types_of(d.pars)[k] == d.pars[k].1);
        lemma_simple_shallow(d.pars[k].1);
        lemma_simple_scoped(scope, d.pars[k].1);
    }
    lemma_ctx_bind(scope, outer, d.pars, d.pars.len());
    // The environment of the body is typed by it.
    lemma_group_bound(made_in, ctx, rho, inner, group, group.len());
    assert forall|k: int| 0 <= k < d.pars.len() implies val_ok(
        #[trigger] vals[k],
        subst_spec(inner, d.pars[k].1),
    ) by {
        assert(subst_all(inner, types_of(d.pars))[k] == subst_spec(inner, d.pars[k].1));
    }
    lemma_values_bound(bind_group(made_in, group), outer, inner, d.pars, vals, d.pars.len());
    assert(world_ok(all, inner, enter(made_in, group, d.pars, vals)));
    assert(typed(all, inner, d.body, subst_spec(inner, d.res)));
}

/// What binding generic names to ground types over a map of ground types
/// gives: a map of ground types over the names of both, which agrees with
/// the map it was bound over on names that are none of the generic ones.
pub proof fn lemma_bind_generics(
    rho: Map<SpecName, SpecType>,
    gens: Seq<SpecName>,
    typs: Seq<SpecType>,
)
    requires
        ground_map(rho),
        gens.len() == typs.len(),
        grounds(typs),
    ensures
        ground_map(bind_all(rho, pair_up(gens, typs))),
        bind_all(rho, pair_up(gens, typs)).dom() == rho.dom() + gens.to_set(),
        forall|x: SpecName|
            !gens.to_set().contains(x) ==> (#[trigger] bind_all(
                rho,
                pair_up(gens, typs),
            ).contains_key(x)) == rho.contains_key(x) && (rho.contains_key(x) ==> bind_all(
                rho,
                pair_up(gens, typs),
            )[x] == rho[x]),
{
    let ps = pair_up(gens, typs);
    let alone = bind_all(Map::empty(), ps);
    let whole = bind_all(rho, ps);
    lemma_bind_over(rho, ps, gens.len());
    lemma_bound_pairs(gens, typs, gens.len());
    assert(gens.subrange(0, gens.len() as int) == gens);
    assert forall|x: SpecName| whole.dom().contains(x) == (rho.dom() + gens.to_set()).contains(
        x,
    ) by {
        if alone.contains_key(x) {
            assert(whole.contains_key(x));
        } else {
            assert(whole.contains_key(x) == rho.contains_key(x));
        }
    }
    assert(whole.dom() =~= rho.dom() + gens.to_set());
    assert forall|x: SpecName| !gens.to_set().contains(x) implies (#[trigger] whole.contains_key(
        x,
    )) == rho.contains_key(x) && (rho.contains_key(x) ==> whole[x] == rho[x]) by {
        assert(!alone.contains_key(x));
    }
    assert forall|x: SpecName| whole.contains_key(x) implies ground(#[trigger] whole[x]) by {
        if alone.contains_key(x) {
            let k = choose|k: int| 0 <= k < gens.len() && typs[k] == alone[x];
            assert(ground(typs[k]));
        } else {
            assert(rho.contains_key(x));
        }
    }
}

/// A function of a function type, called with values of the parameters'
/// types, takes as many parameters and has a body of the result type in the
/// environment that the call enters.
pub proof fn lemma_enter_ok(
    made_in: Map<SpecName, SpecValue>,
    group: Seq<SpecDecl>,
    pars: Seq<(SpecName, SpecType)>,
    body: SpecExpr,
    vals: Seq<SpecValue>,
    ts: Seq<SpecType>,
    out: SpecType,
)
    requires
        val_ok(
            SpecValue::Clos { env: made_in, group, pars, body },
            SpecType::Func { pars: ts, res: Box::new(out) },
        ),
        vals.len() == ts.len(),
        vals_typed(vals, ts),
    ensures
        pars.len() == ts.len(),
        exists|ctx: Map<SpecName, SpecType>, rho: Map<SpecName, SpecType>| #[trigger]
            eval_ok(ctx, rho, enter(made_in, group, pars, vals), body, out),
{
    let t = SpecType::Func { pars: ts, res: Box::new(out) };
    let (ctx, rho, i) = choose|
        ctx: Map<SpecName, SpecType>,
        rho: Map<SpecName, SpecType>,
        i: int,
    | env_ok(made_in, ctx, rho) && #[trigger] member_ok(ctx, rho, group, i, pars, body, t);
    let d = group[i];
    let all = bind_all(bind_all(ctx, signatures(group)), d.pars);
    assert(simple_decl(d, rho.dom(), bind_all(ctx, signatures(group))));
    if t == subst_spec(rho, decl_type(d)) {
        assert(d.gens is None);
        assert(decl_type(d) == SpecType::Func { pars: types_of(d.pars), res: Box::new(d.res) });
        assert(t == func_type(rho, d));
        assert(ts == subst_all(rho, types_of(d.pars)));
        assert(agree(rho.dom(), rho, rho));
        lemma_enter_with(made_in, ctx, rho, rho, group, i, vals);
        assert(eval_ok(all, rho, enter(made_in, group, pars, vals), body, out));
    } else {
        let typs = choose|typs: Seq<SpecType>| #[trigger] instance_type(rho, d, typs, t);
        let gens = d.gens->Some_0;
        let inner = bind_all(rho, pair_up(gens, typs));
        assert(t == func_type(inner, d));
        assert(ts == subst_all(inner, types_of(d.pars)));
        lemma_bind_generics(rho, gens, typs);
        assert(agree(rho.dom(), inner, rho)) by {
            assert forall|x: SpecName| #[trigger] rho.dom().contains(x) implies inner.contains_key(
                x,
            ) == rho.contains_key(x) && (inner.contains_key(x) ==> inner[x] == rho[x]) by {
                assert(!gens.to_set().contains(x));
            }
        }
        lemma_enter_with(made_in, ctx, rho, inner, group, i, vals);
        assert(eval_ok(all, inner, enter(made_in, group, pars, vals), body, out));
    }
}

/// The types of a function value are function types and universal types.
pub proof fn lemma_clos_type(v: SpecValue, t: SpecType)
    requires
        v is Clos,
        val_ok(v, t),
    ensures
        t is Func || t is Forall,
{
    let (ctx, rho, i) = choose|
        ctx: Map<SpecName, SpecType>,
        rho: Map<SpecName, SpecType>,
        i: int,
    | env_ok(v->env, ctx, rho) && #[trigger] member_ok(ctx, rho, v->group, i, v->pars, v->body, t);
    let d = v->group[i];
    if t == subst_spec(rho, decl_type(d)) {
        assert(decl_type(d) is Func || decl_type(d) is Forall);
    } else {
        let typs = choose|typs: Seq<SpecType>| #[trigger] instance_type(rho, d, typs, t);
    }
}

/// A value of a literal type is a literal of that kind.
pub proof fn lemma_literal_value(v: SpecValue, lit: LitType)
    requires
        val_ok(v, SpecType::Lit { lit }),
    ensures
        v is Lit,
        v->Lit_0.typ() == lit,
{
    if v is Clos {
        lemma_clos_type(v, SpecType::Lit { lit });
    }
}

/// A value of a tuple type is a tuple of values of the fields' types.
pub proof fn lemma_tuple_value(v: SpecValue, flds: Seq<SpecType>)
    requires
        val_ok(v, SpecType::Tup { flds }),
    ensures
        v is Tup,
        vals_typed(v->Tup_0, flds),
        v->Tup_0.len() == flds.len(),
{
    if v is Clos {
        lemma_clos_type(v, SpecType::Tup { flds });
    }
    let vs = v->Tup_0;
    assert forall|i: int| 0 <= i < vs.len() implies val_ok(#[trigger] vs[i], flds[i]) by {
        assert(val_ok(vs[i], flds[i]));
    }
}

/// A value of a function type is a function that takes as many parameters.
pub proof fn lemma_function_value(v: SpecValue, ts: Seq<SpecType>, out: SpecType)
    requires
        val_ok(v, SpecType::Func { pars: ts, res: Box::new(out) }),
    ensures
        v is Clos,
        v->pars.len() == ts.len(),
{
    let t = SpecType::Func { pars: ts, res: Box::new(out) };
    let (ctx, rho, i) = choose|
        ctx: Map<SpecName, SpecType>,
        rho: Map<SpecName, SpecType>,
        i: int,
    | env_ok(v->env, ctx, rho) && #[trigger] member_ok(ctx, rho, v->group, i, v->pars, v->body, t);
    let d = v->group[i];
    if t == subst_spec(rho, decl_type(d)) {
        assert(d.gens is None);
        assert(decl_type(d) == SpecType::Func { pars: types_of(d.pars), res: Box::new(d.res) });
        assert(ts == subst_all(rho, types_of(d.pars)));
    } else {
        let typs = choose|typs: Seq<SpecType>| #[trigger] instance_type(rho, d, typs, t);
        let inner = bind_all(rho, pair_up(d.gens->Some_0, typs));
        assert(t == func_type(inner, d));
        assert(ts == subst_all(inner, types_of(d.pars)));
    }
}

/// A tuple of values of the field types of a package, with ground types for
/// its sealed names, has the package's type.
pub proof fn lemma_package_intro(
    vs: Seq<SpecValue>,
    seals: Seq<SpecName>,
    flds: Seq<SpecType>,
    hidden: Seq<SpecType>,
)
    requires
        hides(seals, flds, hidden, vs.len()),
        vals_typed(vs, subst_all(instance_map(seals, hidden), flds)),
    ensures
        val_ok(SpecValue::Tup(vs), SpecType::Exist { seals, flds }),
{
    let v = SpecValue::Tup(vs);
    let t = SpecType::Exist { seals, flds };
    let made = subst_all(instance_map(seals, hidden), flds);
    assert forall|i: int| 0 <= i < vs.len() implies val_ok(vs[i], #[trigger] made[i]) by {
        assert(val_ok(vs[i], made[i]));
    }
    assert(exists|h: Seq<SpecType>| #[trigger]
        hides(seals, flds, h, vs.len()) && forall|i: int|
            0 <= i < vs.len() ==> val_ok(
                vs[i],
                #[trigger] subst_all(instance_map(seals, h), flds)[i],
            ));
    assert(v is Tup && v->Tup_0 == vs);
    assert(t is Exist && t->Exist_seals == seals && t->Exist_flds == flds);
    assert(val_ok(v, t) == (exists|h: Seq<SpecType>| #[trigger]
        hides(t->Exist_seals, t->Exist_flds, h, v->Tup_0.len()) && forall|i: int|
            0 <= i < v->Tup_0.len() ==> val_ok(
                v->Tup_0[i],
                #[trigger] subst_all(instance_map(t->Exist_seals, h), t->Exist_flds)[i],
            )));
}

/// A value of the type of a package is a tuple of values of the package's
/// field types, with some ground types for its sealed names.
pub proof fn lemma_package_value(v: SpecValue, seals: Seq<SpecName>, flds: Seq<SpecType>)
    requires
        val_ok(v, SpecType::Exist { seals, flds }),
    ensures
        v is Tup,
        exists|hidden: Seq<SpecType>| #[trigger]
            hides(seals, flds, hidden, v->Tup_0.len()) && vals_typed(
                v->Tup_0,
                subst_all(instance_map(seals, hidden), flds),
            ),
{
    let t = SpecType::Exist { seals, flds };
    if v is Clos {
        lemma_clos_type(v, t);
    }
    let vs = v->Tup_0;
    let hidden = choose|h: Seq<SpecType>| #[trigger]
        hides(seals, flds, h, vs.len()) && forall|i: int|
            0 <= i < vs.len() ==> val_ok(
                vs[i],
                #[trigger] subst_all(instance_map(seals, h), flds)[i],
            );
    let made = subst_all(instance_map(seals, hidden), flds);
    assert forall|i: int| 0 <= i < vs.len() implies val_ok(#[trigger] vs[i], made[i]) by {
        assert(val_ok(vs[i], made[i]));
    }
    assert(hides(seals, flds, hidden, vs.len()) && vals_typed(vs, made));
}

/// A value of a type can stand where that type is awaited, a generic
/// function where one of its instances is, and a tuple where a package that
/// it can be packed as is.
pub proof fn lemma_coerce_val(v: SpecValue, t: SpecType, hole: SpecType)
    requires
        val_ok(v, t),
        coerces(t, hole),
    ensures
        val_ok(v, hole),
{
    if t != hole && packs(t, hole) {
        let actual = t->Tup_flds;
        let seals = hole->Exist_seals;
        let flds = hole->Exist_flds;
        let hidden = choose|hidden: Seq<SpecType>| #[trigger]
            hides(seals, flds, hidden, actual.len()) && actual == subst_all(
                instance_map(seals, hidden),
                flds,
            );
        lemma_tuple_value(v, actual);
        lemma_package_intro(v->Tup_0, seals, flds, hidden);
    } else if t != hole {
        let gens = t->Forall_gens;
        let pars = t->Forall_pars;
        let res = *t->Forall_res;
        let typs = choose|typs: Seq<SpecType>| #[trigger] instance_at(gens, pars, res, typs, hole);
        assert(v is Clos);
        let (ctx, rho, i) = choose|
            ctx: Map<SpecName, SpecType>,
            rho: Map<SpecName, SpecType>,
            i: int,
        |
            env_ok(v->env, ctx, rho) && #[trigger] member_ok(
                ctx,
                rho,
                v->group,
                i,
                v->pars,
                v->body,
                t,
            );
        let d = v->group[i];
        assert(simple_decl(d, rho.dom(), bind_all(ctx, signatures(v->group))));
        if t == subst_spec(rho, decl_type(d)) {
            assert(d.gens is Some);
            let under = rho.remove_keys(gens.to_set());
            assert(decl_type(d) == SpecType::Forall {
                gens: d.gens->Some_0,
                pars: types_of(d.pars),
                res: Box::new(d.res),
            });
            assert(gens == d.gens->Some_0);
            assert(pars == subst_all(under, types_of(d.pars)));
            assert(res == subst_spec(under, d.res));
            lemma_subst_fuse_all(rho, gens, typs, types_of(d.pars));
            lemma_subst_fuse(rho, gens, typs, d.res);
            assert(hole == func_type(bind_all(rho, pair_up(gens, typs)), d));
            assert(instance_type(rho, d, typs, hole));
            assert(member_ok(ctx, rho, v->group, i, v->pars, v->body, hole));
            lemma_clos_intro(ctx, rho, v->env, v->group, i, v->pars, v->body, hole);
        } else {
            let other = choose|other: Seq<SpecType>| #[trigger] instance_type(rho, d, other, t);
            assert(false);
        }
    }
}

/// A built-in operation on values of its parameters' types is not stuck: it
/// yields a value of its result type, asks for one, or divides by zero.
pub proof fn lemma_prim_ok(prim: Prim, vals: Seq<SpecValue>)
    requires
        vals.len() == prim.arity(),
        vals_typed(vals, prim.typ()->Func_pars),
    ensures
        ctrl_ok(prim_outcome(prim, vals), SpecType::Lit { lit: prim.result() }),
{
    let pars = prim.typ()->Func_pars;
    if vals.len() >= 1 {
        assert(val_ok(vals[0], pars[0]));
        lemma_literal_value(vals[0], prim.operand());
    }
    if vals.len() >= 2 {
        assert(val_ok(vals[1], pars[1]));
        lemma_literal_value(vals[1], prim.operand());
    }
}

/// An expression of a type in a typed environment is a control of that type.
pub proof fn lemma_eval_ctrl_ok(
    ctx: Map<SpecName, SpecType>,
    rho: Map<SpecName, SpecType>,
    env: Map<SpecName, SpecValue>,
    e: SpecExpr,
    t: SpecType,
)
    requires
        eval_ok(ctx, rho, env, e, t),
    ensures
        ctrl_ok(SpecControl::Eval { env, expr: e }, t),
{
    let c = SpecControl::Eval { env, expr: e };
    assert(c is Eval && c->env == env && c->expr == e);
    assert(exists|x: Map<SpecName, SpecType>, r: Map<SpecName, SpecType>| #[trigger]
        eval_ok(x, r, c->env, c->expr, t));
}

/// The frame of a built-in operation whose arguments are being evaluated.
pub proof fn lemma_prim_frame_ok(
    ctx: Map<SpecName, SpecType>,
    rho: Map<SpecName, SpecType>,
    env: Map<SpecName, SpecValue>,
    prim: Prim,
    args: Seq<SpecExpr>,
    done: Seq<SpecValue>,
    hole: SpecType,
)
    requires
        args_pending(ctx, rho, env, prim.typ()->Func_pars, args, done, hole),
    ensures
        frame_ok(
            SpecFrame::PrimArgs { prim, args, done, env },
            hole,
            SpecType::Lit { lit: prim.result() },
        ),
{
    let f = SpecFrame::PrimArgs { prim, args, done, env };
    assert(f is PrimArgs && f->PrimArgs_prim == prim && f->PrimArgs_args == args
        && f->PrimArgs_done == done && f->PrimArgs_env == env);
    assert(exists|x: Map<SpecName, SpecType>, r: Map<SpecName, SpecType>| #[trigger]
        args_pending(
            x,
            r,
            f->PrimArgs_env,
            f->PrimArgs_prim.typ()->Func_pars,
            f->PrimArgs_args,
            f->PrimArgs_done,
            hole,
        ));
}

/// The frame of a binding whose bound expression is being evaluated.
pub proof fn lemma_let_frame_ok(
    ctx: Map<SpecName, SpecType>,
    rho: Map<SpecName, SpecType>,
    first: SpecType,
    env: Map<SpecName, SpecValue>,
    bind: SpecName,
    cont: SpecExpr,
    hole: SpecType,
    out: SpecType,
)
    requires
        let_pending(ctx, rho, first, env, bind, cont, hole, out),
    ensures
        frame_ok(SpecFrame::LetBody { bind, cont, env }, hole, out),
{
    let f = SpecFrame::LetBody { bind, cont, env };
    assert(f is LetBody && f->bind == bind && f->cont == cont && f->LetBody_env == env);
    assert(exists|x: Map<SpecName, SpecType>, r: Map<SpecName, SpecType>, a: SpecType| #[trigger]
        let_pending(x, r, a, f->LetBody_env, f->bind, f->cont, hole, out));
}

/// The frame of a call whose function is being evaluated.
pub proof fn lemma_call_frame_ok(
    ctx: Map<SpecName, SpecType>,
    rho: Map<SpecName, SpecType>,
    env: Map<SpecName, SpecValue>,
    args: Seq<SpecExpr>,
    hole: SpecType,
    out: SpecType,
)
    requires
        call_pending(ctx, rho, env, args, hole, out),
    ensures
        frame_ok(SpecFrame::AppFunc { args, env }, hole, out),
{
    let f = SpecFrame::AppFunc { args, env };
    assert(f is AppFunc && f->AppFunc_args == args && f->AppFunc_env == env);
    assert(exists|x: Map<SpecName, SpecType>, r: Map<SpecName, SpecType>| #[trigger]
        call_pending(x, r, f->AppFunc_env, f->AppFunc_args, hole, out));
}

/// The frame of a call whose arguments are being evaluated.
pub proof fn lemma_args_frame_ok(
    ctx: Map<SpecName, SpecType>,
    rho: Map<SpecName, SpecType>,
    env: Map<SpecName, SpecValue>,
    made_in: Map<SpecName, SpecValue>,
    group: Seq<SpecDecl>,
    pars: Seq<(SpecName, SpecType)>,
    body: SpecExpr,
    ts: Seq<SpecType>,
    args: Seq<SpecExpr>,
    done: Seq<SpecValue>,
    hole: SpecType,
    out: SpecType,
)
    requires
        val_ok(
            SpecValue::Clos { env: made_in, group, pars, body },
            SpecType::Func { pars: ts, res: Box::new(out) },
        ),
        args_pending(ctx, rho, env, ts, args, done, hole),
    ensures
        frame_ok(SpecFrame::AppArgs { made_in, group, pars, body, args, done, env }, hole, out),
{
    let f = SpecFrame::AppArgs { made_in, group, pars, body, args, done, env };
    assert(f is AppArgs && f->made_in == made_in && f->group == group && f->pars == pars
        && f->body == body && f->AppArgs_args == args && f->AppArgs_done == done
        && f->AppArgs_env == env);
    assert(exists|x: Map<SpecName, SpecType>, r: Map<SpecName, SpecType>, us: Seq<SpecType>|
     #[trigger]
        args_pending(x, r, f->AppArgs_env, us, f->AppArgs_args, f->AppArgs_done, hole) && val_ok(
            SpecValue::Clos { env: f->made_in, group: f->group, pars: f->pars, body: f->body },
            SpecType::Func { pars: us, res: Box::new(out) },
        ));
}

/// The frame of a tuple whose fields are being evaluated.
pub proof fn lemma_tup_frame_ok(
    ctx: Map<SpecName, SpecType>,
    rho: Map<SpecName, SpecType>,
    env: Map<SpecName, SpecValue>,
    ts: Seq<SpecType>,
    flds: Seq<SpecExpr>,
    done: Seq<SpecValue>,
    hole: SpecType,
)
    requires
        args_pending(ctx, rho, env, ts, flds, done, hole),
    ensures
        frame_ok(SpecFrame::TupFlds { flds, done, env }, hole, SpecType::Tup { flds: ts }),
{
    let f = SpecFrame::TupFlds { flds, done, env };
    let out = SpecType::Tup { flds: ts };
    assert(f is TupFlds && f->flds == flds && f->TupFlds_done == done && f->TupFlds_env == env);
    assert(exists|x: Map<SpecName, SpecType>, r: Map<SpecName, SpecType>, us: Seq<SpecType>|
     #[trigger]
        args_pending(x, r, f->TupFlds_env, us, f->flds, f->TupFlds_done, hole) && out
            == (SpecType::Tup { flds: us }));
}

/// The frame of a conditional whose condition is being evaluated.
pub proof fn lemma_ifte_frame_ok(
    ctx: Map<SpecName, SpecType>,
    rho: Map<SpecName, SpecType>,
    env: Map<SpecName, SpecValue>,
    trbr: SpecExpr,
    flbr: SpecExpr,
    hole: SpecType,
    out: SpecType,
)
    requires
        branches_pending(ctx, rho, env, trbr, flbr, hole, out),
    ensures
        frame_ok(SpecFrame::IfteCond { trbr, flbr, env }, hole, out),
{
    let f = SpecFrame::IfteCond { trbr, flbr, env };
    assert(f is IfteCond && f->trbr == trbr && f->flbr == flbr && f->IfteCond_env == env);
    assert(exists|x: Map<SpecName, SpecType>, r: Map<SpecName, SpecType>| #[trigger]
        branches_pending(x, r, f->IfteCond_env, f->trbr, f->flbr, hole, out));
}

/// A stack that yields a result for a type takes a value of that type.
pub proof fn lemma_takes_same(stack: Seq<SpecFrame>, t: SpecType, result: SpecType)
    requires
        stack_ok(stack, t, result),
    ensures
        takes(stack, t, result),
{
    assert(coerces(t, t) && stack_ok(stack, t, result));
}

/// A frame whose yield the stack takes can be pushed on it.
pub proof fn lemma_push_ok(
    stack: Seq<SpecFrame>,
    f: SpecFrame,
    hole: SpecType,
    out: SpecType,
    result: SpecType,
)
    requires
        frame_ok(f, hole, out),
        takes(stack, out, result),
    ensures
        takes(stack.push(f), hole, result),
{
    let next = choose|next: SpecType| #[trigger] coerces(out, next) && stack_ok(stack, next, result);
    let pushed = stack.push(f);
    assert(pushed.last() == f);
    assert(pushed.drop_last() == stack);
    assert(link_ok(pushed.last(), hole, out, next) && stack_ok(pushed.drop_last(), next, result));
    assert(stack_ok(pushed, hole, result));
    lemma_takes_same(pushed, hole, result);
}

/// A control of a type over a stack that takes the type is a typed machine.
pub proof fn lemma_state_ok(
    ctrl: SpecControl,
    stack: Seq<SpecFrame>,
    t: SpecType,
    result: SpecType,
)
    requires
        ctrl_ok(ctrl, t),
        takes(stack, t, result),
    ensures
        state_ok(going(ctrl, stack), result),
{
    let m = going(ctrl, stack);
    assert(ctrl_ok(m.ctrl, t) && takes(m.stack, t, result));
}

/// The machine that evaluates an expression of a type over a stack that
/// takes the type is typed.
pub proof fn lemma_eval_state_ok(
    ctx: Map<SpecName, SpecType>,
    rho: Map<SpecName, SpecType>,
    env: Map<SpecName, SpecValue>,
    e: SpecExpr,
    stack: Seq<SpecFrame>,
    t: SpecType,
    result: SpecType,
)
    requires
        eval_ok(ctx, rho, env, e, t),
        takes(stack, t, result),
    ensures
        state_ok(going(SpecControl::Eval { env, expr: e }, stack), result),
{
    let ctrl = SpecControl::Eval { env, expr: e };
    lemma_eval_ctrl_ok(ctx, rho, env, e, t);
    lemma_state_ok(ctrl, stack, t, result);
}

/// The expressions of a checked argument list, from a position on, have the
/// parameters' types.
pub proof fn lemma_rest_typed(
    ctx: Map<SpecName, SpecType>,
    rho: Map<SpecName, SpecType>,
    pars: Seq<SpecType>,
    args: Seq<SpecExpr>,
    from: int,
)
    requires
        pars.len() == args.len(),
        forall|i: int| 0 <= i < args.len() ==> simple_expr(#[trigger] args[i], rho.dom(), ctx),
        args_fault(rho.dom(), ctx, pars, args, args.len()) is None,
        0 <= from,
    ensures
        rest_typed(ctx, rho, args, subst_all(rho, pars), from),
{
    assert forall|i: int| from <= i < args.len() implies typed(
        ctx,
        rho,
        #[trigger] args[i],
        subst_all(rho, pars)[i],
    ) by {
        lemma_args_pass(rho.dom(), ctx, pars, args, args.len(), i);
    }
}

/// The first step on a literal or a variable keeps the machine typed.
pub proof fn lemma_var_step_ok(
    ctx: Map<SpecName, SpecType>,
    rho: Map<SpecName, SpecType>,
    env: Map<SpecName, SpecValue>,
    e: SpecExpr,
    stack: Seq<SpecFrame>,
    t: SpecType,
    result: SpecType,
)
    requires
        e is Var || e is Lit,
        eval_ok(ctx, rho, env, e, t),
        takes(stack, t, result),
    ensures
        state_ok(eval_step(env, e, stack), result),
{
    match e {
        SpecExpr::Var { var } => {
            assert(ctx.contains_key(var));
            lemma_state_ok(SpecControl::Return(env[var]), stack, t, result);
        },
        SpecExpr::Lit { lit } => {
            lemma_state_ok(SpecControl::Return(SpecValue::Lit(lit)), stack, t, result);
        },
        _ => {},
    }
}

/// Substitution leaves the parameter types of a built-in operation as they
/// are.
pub proof fn lemma_prim_types(rho: Map<SpecName, SpecType>, prim: Prim)
    ensures
        subst_all(rho, prim.typ()->Func_pars) == prim.typ()->Func_pars,
        prim.typ()->Func_pars.len() == prim.arity(),
{
    let pars = prim.typ()->Func_pars;
    assert forall|i: int| 0 <= i < pars.len() implies subst_spec(rho, #[trigger] pars[i])
        == pars[i] by {}
    assert(subst_all(rho, pars) =~= pars);
}

/// The first step on a built-in operation keeps the machine typed.
pub proof fn lemma_prim_step_ok(
    ctx: Map<SpecName, SpecType>,
    rho: Map<SpecName, SpecType>,
    env: Map<SpecName, SpecValue>,
    e: SpecExpr,
    stack: Seq<SpecFrame>,
    t: SpecType,
    result: SpecType,
)
    requires
        e is Prim,
        eval_ok(ctx, rho, env, e, t),
        takes(stack, t, result),
    ensures
        state_ok(eval_step(env, e, stack), result),
{
    let prim = e->prim;
    let args = e->Prim_args;
    let pars = prim.typ()->Func_pars;
    lemma_prim_types(rho, prim);
    if args.len() == 0 {
        lemma_prim_ok(prim, Seq::empty());
        lemma_state_ok(prim_outcome(prim, Seq::empty()), stack, t, result);
    } else {
        lemma_rest_typed(ctx, rho, pars, args, 0);
        let frame = SpecFrame::PrimArgs { prim, args, done: Seq::empty(), env };
        assert(typed(ctx, rho, args[0], pars[0]));
        assert(args_pending(ctx, rho, env, pars, args, Seq::empty(), pars[0]));
        lemma_prim_frame_ok(ctx, rho, env, prim, args, Seq::empty(), pars[0]);
        lemma_push_ok(stack, frame, pars[0], t, result);
        lemma_eval_state_ok(ctx, rho, env, args[0], stack.push(frame), pars[0], result);
    }
}

/// The first step on a binding keeps the machine typed.
pub proof fn lemma_let_step_ok(
    ctx: Map<SpecName, SpecType>,
    rho: Map<SpecName, SpecType>,
    env: Map<SpecName, SpecValue>,
    e: SpecExpr,
    stack: Seq<SpecFrame>,
    t: SpecType,
    result: SpecType,
)
    requires
        e is Let,
        eval_ok(ctx, rho, env, e, t),
        takes(stack, t, result),
    ensures
        state_ok(eval_step(env, e, stack), result),
{
    let bind = e->Let_bind;
    let expr = *e->Let_expr;
    let cont = *e->Let_cont;
    let first = check_spec(rho.dom(), ctx, expr)->Ok_0;
    let hole = subst_spec(rho, first);
    lemma_checked_type_ok(rho.dom(), ctx, expr);
    let frame = SpecFrame::LetBody { bind, cont, env };
    assert(let_pending(ctx, rho, first, env, bind, cont, hole, t));
    lemma_let_frame_ok(ctx, rho, first, env, bind, cont, hole, t);
    lemma_push_ok(stack, frame, hole, t, result);
    lemma_eval_state_ok(ctx, rho, env, expr, stack.push(frame), hole, result);
}

/// The first step on a call keeps the machine typed.
pub proof fn lemma_app_step_ok(
    ctx: Map<SpecName, SpecType>,
    rho: Map<SpecName, SpecType>,
    env: Map<SpecName, SpecValue>,
    e: SpecExpr,
    stack: Seq<SpecFrame>,
    t: SpecType,
    result: SpecType,
)
    requires
        e is App,
        eval_ok(ctx, rho, env, e, t),
        takes(stack, t, result),
    ensures
        state_ok(eval_step(env, e, stack), result),
{
    let func = *e->func;
    let args = e->App_args;
    let func_ty = check_spec(rho.dom(), ctx, func)->Ok_0;
    let pars = func_ty->Func_pars;
    let res = *func_ty->Func_res;
    let hole = subst_spec(rho, func_ty);
    assert(hole == SpecType::Func {
        pars: subst_all(rho, pars),
        res: Box::new(subst_spec(rho, res)),
    });
    lemma_rest_typed(ctx, rho, pars, args, 0);
    let frame = SpecFrame::AppFunc { args, env };
    assert(call_pending(ctx, rho, env, args, hole, t));
    lemma_call_frame_ok(ctx, rho, env, args, hole, t);
    lemma_push_ok(stack, frame, hole, t, result);
    lemma_eval_state_ok(ctx, rho, env, func, stack.push(frame), hole, result);
}

/// The first step on a tuple keeps the machine typed.
pub proof fn lemma_tup_step_ok(
    ctx: Map<SpecName, SpecType>,
    rho: Map<SpecName, SpecType>,
    env: Map<SpecName, SpecValue>,
    e: SpecExpr,
    stack: Seq<SpecFrame>,
    t: SpecType,
    result: SpecType,
)
    requires
        e is Tup,
        eval_ok(ctx, rho, env, e, t),
        takes(stack, t, result),
    ensures
        state_ok(eval_step(env, e, stack), result),
{
    let flds = e->Tup_flds;
    let found = types_each(rho.dom(), ctx, flds, flds.len())->Ok_0;
    let ts = subst_all(rho, found);
    lemma_each_len(rho.dom(), ctx, flds, flds.len());
    assert(t == SpecType::Tup { flds: ts });
    assert forall|i: int| 0 <= i < flds.len() implies typed(ctx, rho, #[trigger] flds[i], ts[i]) by {
        lemma_each_pass(rho.dom(), ctx, flds, flds.len(), i);
    }
    if flds.len() == 0 {
        let v = SpecValue::Tup(Seq::empty());
        assert(val_ok(v, t));
        lemma_state_ok(SpecControl::Return(v), stack, t, result);
    } else {
        let frame = SpecFrame::TupFlds { flds, done: Seq::empty(), env };
        assert(args_pending(ctx, rho, env, ts, flds, Seq::empty(), ts[0]));
        lemma_tup_frame_ok(ctx, rho, env, ts, flds, Seq::empty(), ts[0]);
        lemma_push_ok(stack, frame, ts[0], t, result);
        lemma_eval_state_ok(ctx, rho, env, flds[0], stack.push(frame), ts[0], result);
    }
}

/// The first step on a projection keeps the machine typed.
pub proof fn lemma_sel_step_ok(
    ctx: Map<SpecName, SpecType>,
    rho: Map<SpecName, SpecType>,
    env: Map<SpecName, SpecValue>,
    e: SpecExpr,
    stack: Seq<SpecFrame>,
    t: SpecType,
    result: SpecType,
)
    requires
        e is Sel,
        eval_ok(ctx, rho, env, e, t),
        takes(stack, t, result),
    ensures
        state_ok(eval_step(env, e, stack), result),
{
    let expr = *e->Sel_expr;
    let idx = e->idx;
    let tuple = check_spec(rho.dom(), ctx, expr)->Ok_0;
    let hole = subst_spec(rho, tuple);
    assert(hole == SpecType::Tup { flds: subst_all(rho, tuple->Tup_flds) });
    let frame = SpecFrame::SelOf { idx };
    assert(frame_ok(frame, hole, t));
    lemma_push_ok(stack, frame, hole, t, result);
    lemma_eval_state_ok(ctx, rho, env, expr, stack.push(frame), hole, result);
}

/// The first step on a group keeps the machine typed.
pub proof fn lemma_letrec_step_ok(
    ctx: Map<SpecName, SpecType>,
    rho: Map<SpecName, SpecType>,
    env: Map<SpecName, SpecValue>,
    e: SpecExpr,
    stack: Seq<SpecFrame>,
    t: SpecType,
    result: SpecType,
)
    requires
        e is Letrec,
        eval_ok(ctx, rho, env, e, t),
        takes(stack, t, result),
    ensures
        state_ok(eval_step(env, e, stack), result),
{
    let decls = e->decls;
    let cont = *e->Letrec_cont;
    assert(group_ok(rho.dom(), ctx, decls));
    assert(agree(rho.dom(), rho, rho));
    lemma_group_bound(env, ctx, rho, rho, decls, decls.len());
    lemma_ctx_signatures(rho.dom(), ctx, decls);
    lemma_eval_state_ok(
        bind_all(ctx, signatures(decls)),
        rho,
        bind_group(env, decls),
        cont,
        stack,
        t,
        result,
    );
}

/// A universal type can stand where one of its instances is awaited.
pub proof fn lemma_coerces_instance(t: SpecType, typs: Seq<SpecType>, hole: SpecType)
    requires
        t is Forall,
        instance_at(t->Forall_gens, t->Forall_pars, *t->Forall_res, typs, hole),
    ensures
        coerces(t, hole),
{
    assert(exists|ts: Seq<SpecType>| #[trigger]
        instance_at(t->Forall_gens, t->Forall_pars, *t->Forall_res, ts, hole));
}

/// The first step on an instantiation keeps the machine typed: the generic
/// function that the expression inside yields can stand where its instance
/// is awaited.
pub proof fn lemma_inst_step_ok(
    ctx: Map<SpecName, SpecType>,
    rho: Map<SpecName, SpecType>,
    env: Map<SpecName, SpecValue>,
    e: SpecExpr,
    stack: Seq<SpecFrame>,
    t: SpecType,
    result: SpecType,
)
    requires
        e is Inst,
        eval_ok(ctx, rho, env, e, t),
        takes(stack, t, result),
    ensures
        state_ok(eval_step(env, e, stack), result),
{
    let expr = *e->Inst_expr;
    let typs = e->typs;
    let poly = check_spec(rho.dom(), ctx, expr)->Ok_0;
    let gens = poly->Forall_gens;
    let pars = poly->Forall_pars;
    let res = *poly->Forall_res;
    lemma_checked_type_ok(rho.dom(), ctx, expr);
    let before = instance_map(gens, typs);
    let under = rho.remove_keys(gens.to_set());
    let made = subst_all(rho, typs);
    // The type arguments become ground types.
    lemma_all_well_formed(rho.dom(), typs, typs.len());
    assert forall|i: int| 0 <= i < made.len() implies ground(#[trigger] made[i]) by {
        lemma_subst_ground(rho, typs[i]);
    }
    // The generic type stays simple below its binders.
    assert forall|x: SpecName| under.contains_key(x) implies simple_type(#[trigger] under[x]) by {
        assert(rho.contains_key(x) && under[x] == rho[x]);
        lemma_ground_simple(rho[x]);
    }
    assert forall|i: int| 0 <= i < pars.len() implies simple_type(
        #[trigger] subst_all(under, pars)[i],
    ) by {
        lemma_subst_simple(under, pars[i]);
    }
    lemma_subst_simple(under, res);
    let inner = subst_spec(rho, poly);
    assert(inner == SpecType::Forall {
        gens,
        pars: subst_all(under, pars),
        res: Box::new(subst_spec(under, res)),
    });
    // The instance awaited is the one with the ground arguments.
    let wanted = SpecType::Func {
        pars: subst_all(before, pars),
        res: Box::new(subst_spec(before, res)),
    };
    assert(check_spec(rho.dom(), ctx, e)->Ok_0 == wanted);
    assert(t == SpecType::Func {
        pars: subst_all(rho, subst_all(before, pars)),
        res: Box::new(subst_spec(rho, subst_spec(before, res))),
    });
    lemma_subst_inst_all(rho, gens, typs, pars);
    lemma_subst_inst(rho, gens, typs, res);
    assert(instance_at(gens, subst_all(under, pars), subst_spec(under, res), made, t));
    lemma_coerces_instance(inner, made, t);
    // The stack awaits the instance itself.
    let hole = choose|hole: SpecType| #[trigger] coerces(t, hole) && stack_ok(stack, hole, result);
    assert(hole == t);
    assert(coerces(inner, hole) && stack_ok(stack, hole, result));
    assert(takes(stack, inner, result));
    lemma_eval_state_ok(ctx, rho, env, expr, stack, inner, result);
}

/// A tuple type can stand where an existential type that it can be packed as
/// is awaited.
pub proof fn lemma_coerces_package(t: SpecType, hidden: Seq<SpecType>, hole: SpecType)
    requires
        t is Tup,
        hole is Exist,
        hides(hole->Exist_seals, hole->Exist_flds, hidden, t->Tup_flds.len()),
        t->Tup_flds == subst_all(instance_map(hole->Exist_seals, hidden), hole->Exist_flds),
    ensures
        coerces(t, hole),
{
    assert(exists|h: Seq<SpecType>| #[trigger]
        hides(hole->Exist_seals, hole->Exist_flds, h, t->Tup_flds.len()) && t->Tup_flds
            == subst_all(instance_map(hole->Exist_seals, h), hole->Exist_flds));
    assert(packs(t, hole));
}

/// The first step on a packing keeps the machine typed: the tuple that the
/// expression inside yields can stand where the package is awaited.
pub proof fn lemma_pack_step_ok(
    ctx: Map<SpecName, SpecType>,
    rho: Map<SpecName, SpecType>,
    env: Map<SpecName, SpecValue>,
    e: SpecExpr,
    stack: Seq<SpecFrame>,
    t: SpecType,
    result: SpecType,
)
    requires
        e is Pack,
        eval_ok(ctx, rho, env, e, t),
        takes(stack, t, result),
    ensures
        state_ok(eval_step(env, e, stack), result),
{
    let expr = *e->Pack_expr;
    let seals = e->seals;
    let flds = e->Pack_flds;
    let tys = rho.dom();
    let names = names_of(seals);
    let kept = types_of(seals);
    let tuple = check_spec(tys, ctx, expr)->Ok_0;
    let actual = tuple->Tup_flds;
    let under = rho.remove_keys(names.to_set());
    let hidden = subst_all(rho, kept);
    // What the sealed names stand for becomes ground.
    lemma_all_well_formed(tys, kept, kept.len());
    assert forall|i: int| 0 <= i < hidden.len() implies ground(#[trigger] hidden[i]) by {
        lemma_subst_ground(rho, kept[i]);
    }
    // The declared field types stay simple below the sealed names.
    assert forall|x: SpecName| under.contains_key(x) implies simple_type(#[trigger] under[x]) by {
        assert(rho.contains_key(x) && under[x] == rho[x]);
        lemma_ground_simple(rho[x]);
    }
    assert forall|i: int| 0 <= i < flds.len() implies simple_type(
        #[trigger] subst_all(under, flds)[i],
    ) by {
        lemma_subst_simple(under, flds[i]);
    }
    // The fields of the tuple are the declared ones with the names replaced.
    assert(pair_up(names, kept) =~= seals);
    let before = instance_map(names, kept);
    lemma_no_mismatch(subst_all(before, flds), actual, flds.len());
    assert(actual =~= subst_all(before, flds));
    lemma_subst_inst_all(rho, names, kept, flds);
    let inner = subst_spec(rho, tuple);
    assert(inner == SpecType::Tup { flds: subst_all(rho, actual) });
    assert(check_spec(tys, ctx, e)->Ok_0 == SpecType::Exist { seals: names, flds });
    assert(t == SpecType::Exist { seals: names, flds: subst_all(under, flds) });
    lemma_coerces_package(inner, hidden, t);
    // The stack awaits the package itself.
    let hole = choose|hole: SpecType| #[trigger] coerces(t, hole) && stack_ok(stack, hole, result);
    assert(hole == t);
    assert(coerces(inner, hole) && stack_ok(stack, hole, result));
    assert(takes(stack, inner, result));
    lemma_eval_state_ok(ctx, rho, env, expr, stack, inner, result);
}

/// The frame of an unpacking whose package is being evaluated.
pub proof fn lemma_unpack_frame_ok(
    ctx: Map<SpecName, SpecType>,
    rho: Map<SpecName, SpecType>,
    seals: Seq<SpecName>,
    flds: Seq<SpecType>,
    opens: Seq<SpecName>,
    env: Map<SpecName, SpecValue>,
    bind: SpecName,
    cont: SpecExpr,
    hole: SpecType,
    out: SpecType,
)
    requires
        unpack_pending(ctx, rho, seals, flds, opens, env, bind, cont, hole, out),
    ensures
        frame_ok(SpecFrame::LetBody { bind, cont, env }, hole, out),
{
    let f = SpecFrame::LetBody { bind, cont, env };
    assert(f is LetBody && f->bind == bind && f->cont == cont && f->LetBody_env == env);
    assert(exists|
        x: Map<SpecName, SpecType>,
        r: Map<SpecName, SpecType>,
        a: Seq<SpecName>,
        b: Seq<SpecType>,
        c: Seq<SpecName>,
    | #[trigger] unpack_pending(x, r, a, b, c, f->LetBody_env, f->bind, f->cont, hole, out));
}

/// The first step on an unpacking keeps the machine typed.
pub proof fn lemma_unpack_step_ok(
    ctx: Map<SpecName, SpecType>,
    rho: Map<SpecName, SpecType>,
    env: Map<SpecName, SpecValue>,
    e: SpecExpr,
    stack: Seq<SpecFrame>,
    t: SpecType,
    result: SpecType,
)
    requires
        e is Unpack,
        eval_ok(ctx, rho, env, e, t),
        takes(stack, t, result),
    ensures
        state_ok(eval_step(env, e, stack), result),
{
    let bind = e->Unpack_bind;
    let opens = e->opens;
    let expr = *e->Unpack_expr;
    let cont = *e->Unpack_cont;
    let package = check_spec(rho.dom(), ctx, expr)->Ok_0;
    let seals = package->Exist_seals;
    let flds = package->Exist_flds;
    lemma_checked_type_ok(rho.dom(), ctx, expr);
    let hole = subst_spec(rho, package);
    let frame = SpecFrame::LetBody { bind, cont, env };
    assert(package == SpecType::Exist { seals, flds });
    assert(unpack_pending(ctx, rho, seals, flds, opens, env, bind, cont, hole, t));
    lemma_unpack_frame_ok(ctx, rho, seals, flds, opens, env, bind, cont, hole, t);
    lemma_push_ok(stack, frame, hole, t, result);
    lemma_eval_state_ok(ctx, rho, env, expr, stack.push(frame), hole, result);
}

/// The first step on a conditional keeps the machine typed.
pub proof fn lemma_ifte_step_ok(
    ctx: Map<SpecName, SpecType>,
    rho: Map<SpecName, SpecType>,
    env: Map<SpecName, SpecValue>,
    e: SpecExpr,
    stack: Seq<SpecFrame>,
    t: SpecType,
    result: SpecType,
)
    requires
        e is Ifte,
        eval_ok(ctx, rho, env, e, t),
        takes(stack, t, result),
    ensures
        state_ok(eval_step(env, e, stack), result),
{
    let cond = *e->cond;
    let trbr = *e->trbr;
    let flbr = *e->flbr;
    let truth = SpecType::Lit { lit: LitType::TyBool };
    let frame = SpecFrame::IfteCond { trbr, flbr, env };
    assert(subst_spec(rho, truth) == truth);
    assert(branches_pending(ctx, rho, env, trbr, flbr, truth, t));
    lemma_ifte_frame_ok(ctx, rho, env, trbr, flbr, truth, t);
    lemma_push_ok(stack, frame, truth, t, result);
    lemma_eval_state_ok(ctx, rho, env, cond, stack.push(frame), truth, result);
}

/// The first step of evaluating a typed expression keeps the machine typed.
pub proof fn lemma_eval_step_ok(
    ctx: Map<SpecName, SpecType>,
    rho: Map<SpecName, SpecType>,
    env: Map<SpecName, SpecValue>,
    e: SpecExpr,
    stack: Seq<SpecFrame>,
    t: SpecType,
    result: SpecType,
)
    requires
        eval_ok(ctx, rho, env, e, t),
        takes(stack, t, result),
    ensures
        state_ok(eval_step(env, e, stack), result),
{
    match e {
        SpecExpr::Lit { .. } | SpecExpr::Var { .. } => lemma_var_step_ok(
            ctx,
            rho,
            env,
            e,
            stack,
            t,
            result,
        ),
        SpecExpr::Prim { .. } => lemma_prim_step_ok(ctx, rho, env, e, stack, t, result),
        SpecExpr::Let { .. } => lemma_let_step_ok(ctx, rho, env, e, stack, t, result),
        SpecExpr::App { .. } => lemma_app_step_ok(ctx, rho, env, e, stack, t, result),
        SpecExpr::Tup { .. } => lemma_tup_step_ok(ctx, rho, env, e, stack, t, result),
        SpecExpr::Sel { .. } => lemma_sel_step_ok(ctx, rho, env, e, stack, t, result),
        SpecExpr::Letrec { .. } => lemma_letrec_step_ok(ctx, rho, env, e, stack, t, result),
        SpecExpr::Inst { .. } => lemma_inst_step_ok(ctx, rho, env, e, stack, t, result),
        SpecExpr::Pack { .. } => lemma_pack_step_ok(ctx, rho, env, e, stack, t, result),
        SpecExpr::Unpack { .. } => lemma_unpack_step_ok(ctx, rho, env, e, stack, t, result),
        SpecExpr::Ifte { .. } => lemma_ifte_step_ok(ctx, rho, env, e, stack, t, result),
        _ => {},
    }
}

/// One more value of the type awaited keeps the values typed.
pub proof fn lemma_done_push(done: Seq<SpecValue>, v: SpecValue, pars: Seq<SpecType>)
    requires
        vals_typed(done, pars),
        done.len() < pars.len(),
        val_ok(v, pars[done.len() as int]),
    ensures
        vals_typed(done.push(v), pars),
{
    let more = done.push(v);
    assert forall|i: int| 0 <= i < more.len() implies val_ok(#[trigger] more[i], pars[i]) by {
        if i < done.len() {
            assert(more[i] == done[i]);
        }
    }
}

/// Handing a value to the arguments of a built-in operation keeps the
/// machine typed.
pub proof fn lemma_prim_return_ok(
    v: SpecValue,
    frame: SpecFrame,
    rest: Seq<SpecFrame>,
    hole: SpecType,
    out: SpecType,
    result: SpecType,
)
    requires
        frame is PrimArgs,
        val_ok(v, hole),
        frame_ok(frame, hole, out),
        takes(rest, out, result),
    ensures
        state_ok(return_step(v, frame, rest), result),
{
    let prim = frame->PrimArgs_prim;
    let args = frame->PrimArgs_args;
    let done = frame->PrimArgs_done;
    let env = frame->PrimArgs_env;
    let pars = prim.typ()->Func_pars;
    let (ctx, rho) = choose|ctx: Map<SpecName, SpecType>, rho: Map<SpecName, SpecType>|
     #[trigger] args_pending(ctx, rho, env, pars, args, done, hole);
    let more = done.push(v);
    lemma_done_push(done, v, pars);
    lemma_prim_types(rho, prim);
    if done.len() + 1 >= args.len() {
        lemma_prim_ok(prim, more);
        lemma_state_ok(prim_outcome(prim, more), rest, out, result);
    } else {
        let next = args[done.len() as int + 1];
        let hole2 = pars[more.len() as int];
        let frame2 = SpecFrame::PrimArgs { prim, args, done: more, env };
        assert(typed(ctx, rho, next, hole2));
        assert(args_pending(ctx, rho, env, pars, args, more, hole2));
        lemma_prim_frame_ok(ctx, rho, env, prim, args, more, hole2);
        lemma_push_ok(rest, frame2, hole2, out, result);
        lemma_eval_state_ok(ctx, rho, env, next, rest.push(frame2), hole2, result);
    }
}

/// Handing a value to the continuation of a binding keeps the machine typed.
pub proof fn lemma_let_return_ok(
    v: SpecValue,
    frame: SpecFrame,
    rest: Seq<SpecFrame>,
    hole: SpecType,
    out: SpecType,
    result: SpecType,
)
    requires
        frame is LetBody,
        val_ok(v, hole),
        frame_ok(frame, hole, out),
        takes(rest, out, result),
    ensures
        state_ok(return_step(v, frame, rest), result),
{
    let bind = frame->bind;
    let cont = frame->cont;
    let env = frame->LetBody_env;
    if exists|ctx: Map<SpecName, SpecType>, rho: Map<SpecName, SpecType>, first: SpecType|
     #[trigger] let_pending(ctx, rho, first, env, bind, cont, hole, out) {
        let (ctx, rho, first) = choose|
            ctx: Map<SpecName, SpecType>,
            rho: Map<SpecName, SpecType>,
            first: SpecType,
        | #[trigger] let_pending(ctx, rho, first, env, bind, cont, hole, out);
        lemma_env_insert(env, ctx, rho, bind, v, first);
        let ctx2 = ctx.insert(bind, first);
        lemma_ctx_insert(rho.dom(), ctx, bind, first);
        lemma_eval_state_ok(ctx2, rho, env.insert(bind, v), cont, rest, out, result);
    } else {
        let (ctx, rho, seals, flds, opens) = choose|
            ctx: Map<SpecName, SpecType>,
            rho: Map<SpecName, SpecType>,
            seals: Seq<SpecName>,
            flds: Seq<SpecType>,
            opens: Seq<SpecName>,
        | #[trigger] unpack_pending(ctx, rho, seals, flds, opens, env, bind, cont, hole, out);
        lemma_unpack_return_ok(v, ctx, rho, seals, flds, opens, env, bind, cont, rest, hole, out, result);
    }
}

/// Handing a package to the continuation of its unpacking keeps the machine
/// typed: the opened names are read as the types that the package hides.
pub proof fn lemma_unpack_return_ok(
    v: SpecValue,
    ctx: Map<SpecName, SpecType>,
    rho: Map<SpecName, SpecType>,
    seals: Seq<SpecName>,
    flds: Seq<SpecType>,
    opens: Seq<SpecName>,
    env: Map<SpecName, SpecValue>,
    bind: SpecName,
    cont: SpecExpr,
    rest: Seq<SpecFrame>,
    hole: SpecType,
    out: SpecType,
    result: SpecType,
)
    requires
        val_ok(v, hole),
        unpack_pending(ctx, rho, seals, flds, opens, env, bind, cont, hole, out),
        takes(rest, out, result),
    ensures
        state_ok(
            going(SpecControl::Eval { env: env.insert(bind, v), expr: cont }, rest),
            result,
        ),
{
    let tys = rho.dom();
    let inner = tys + opens.to_set();
    let under = rho.remove_keys(seals.to_set());
    let opened = opened_type(seals, flds, opens);
    let ctx2 = ctx.insert(bind, opened);
    let found = check_spec(inner, ctx2, cont)->Ok_0;
    // The package is a tuple that hides some ground types.
    let sealed = subst_all(under, flds);
    assert(hole == SpecType::Exist { seals, flds: sealed });
    lemma_package_value(v, seals, sealed);
    let vs = v->Tup_0;
    let hidden = choose|hidden: Seq<SpecType>| #[trigger]
        hides(seals, sealed, hidden, vs.len()) && vals_typed(
            vs,
            subst_all(instance_map(seals, hidden), sealed),
        );
    // The opened names are read as the hidden types.
    let whole = bind_all(rho, pair_up(opens, hidden));
    lemma_bind_generics(rho, opens, hidden);
    assert(whole.dom() == inner);
    assert(agree(tys, whole, rho)) by {
        assert forall|x: SpecName| #[trigger] tys.contains(x) implies whole.contains_key(x)
            == rho.contains_key(x) && (whole.contains_key(x) ==> whole[x] == rho[x]) by {
            assert(!opens.to_set().contains(x));
        }
    }
    // The tuple has the type that the check gave the bound name.
    let made = subst_all(whole, subst_all(instance_map(seals, vars_of(opens)), flds));
    assert forall|i: int| 0 <= i < flds.len() implies made[i] == subst_all(
        instance_map(seals, hidden),
        sealed,
    )[i] by {
        lemma_subst_open(rho, seals, opens, hidden, flds[i]);
    }
    assert(made =~= subst_all(instance_map(seals, hidden), sealed));
    assert(subst_spec(whole, opened) == SpecType::Tup { flds: made });
    assert(val_ok(v, subst_spec(whole, opened))) by {
        assert forall|i: int| 0 <= i < vs.len() implies val_ok(vs[i], #[trigger] made[i]) by {
            assert(val_ok(vs[i], made[i]));
        }
    }
    // The environment of the continuation is typed.
    lemma_opened_type_ok(tys, seals, flds, opens);
    lemma_ctx_grows(tys, inner, ctx);
    lemma_ctx_insert(inner, ctx, bind, opened);
    lemma_env_retype(env, ctx, rho, whole);
    lemma_env_insert(env, ctx, whole, bind, v, opened);
    lemma_subst_agree(tys, whole, rho, found);
    assert(typed(ctx2, whole, cont, out));
    lemma_eval_state_ok(ctx2, whole, env.insert(bind, v), cont, rest, out, result);
}

/// Handing a function to the arguments of its call keeps the machine typed.
pub proof fn lemma_call_return_ok(
    v: SpecValue,
    frame: SpecFrame,
    rest: Seq<SpecFrame>,
    hole: SpecType,
    out: SpecType,
    result: SpecType,
)
    requires
        frame is AppFunc,
        val_ok(v, hole),
        frame_ok(frame, hole, out),
        takes(rest, out, result),
    ensures
        state_ok(return_step(v, frame, rest), result),
{
    let args = frame->AppFunc_args;
    let env = frame->AppFunc_env;
    let (ctx, rho) = choose|ctx: Map<SpecName, SpecType>, rho: Map<SpecName, SpecType>|
     #[trigger] call_pending(ctx, rho, env, args, hole, out);
    let pars = hole->Func_pars;
    assert(hole == SpecType::Func { pars, res: Box::new(out) });
    lemma_function_value(v, pars, out);
    let made_in = v->env;
    let group = v->group;
    let vpars = v->pars;
    let body = v->body;
    assert(v == SpecValue::Clos { env: made_in, group, pars: vpars, body });
    let none = Seq::<SpecValue>::empty();
    if args.len() == 0 {
        lemma_enter_ok(made_in, group, vpars, body, none, pars, out);
        let (ctx2, rho2) = choose|ctx2: Map<SpecName, SpecType>, rho2: Map<SpecName, SpecType>|
         #[trigger] eval_ok(ctx2, rho2, enter(made_in, group, vpars, none), body, out);
        lemma_eval_state_ok(
            ctx2,
            rho2,
            enter(made_in, group, vpars, none),
            body,
            rest,
            out,
            result,
        );
    } else {
        let hole2 = pars[0];
        let frame2 = SpecFrame::AppArgs {
            made_in,
            group,
            pars: vpars,
            body,
            args,
            done: none,
            env,
        };
        assert(typed(ctx, rho, args[0], hole2));
        assert(args_pending(ctx, rho, env, pars, args, none, hole2));
        lemma_args_frame_ok(
            ctx,
            rho,
            env,
            made_in,
            group,
            vpars,
            body,
            pars,
            args,
            none,
            hole2,
            out,
        );
        lemma_push_ok(rest, frame2, hole2, out, result);
        lemma_eval_state_ok(ctx, rho, env, args[0], rest.push(frame2), hole2, result);
    }
}

/// Handing a value to the arguments of a call keeps the machine typed.
pub proof fn lemma_args_return_ok(
    v: SpecValue,
    frame: SpecFrame,
    rest: Seq<SpecFrame>,
    hole: SpecType,
    out: SpecType,
    result: SpecType,
)
    requires
        frame is AppArgs,
        val_ok(v, hole),
        frame_ok(frame, hole, out),
        takes(rest, out, result),
    ensures
        state_ok(return_step(v, frame, rest), result),
{
    let made_in = frame->made_in;
    let group = frame->group;
    let vpars = frame->pars;
    let body = frame->body;
    let args = frame->AppArgs_args;
    let done = frame->AppArgs_done;
    let env = frame->AppArgs_env;
    let (ctx, rho, ts) = choose|
        ctx: Map<SpecName, SpecType>,
        rho: Map<SpecName, SpecType>,
        ts: Seq<SpecType>,
    | #[trigger]
        args_pending(ctx, rho, env, ts, args, done, hole) && val_ok(
            SpecValue::Clos { env: made_in, group, pars: vpars, body },
            SpecType::Func { pars: ts, res: Box::new(out) },
        );
    let more = done.push(v);
    lemma_done_push(done, v, ts);
    if done.len() + 1 >= args.len() {
        lemma_enter_ok(made_in, group, vpars, body, more, ts, out);
        let (ctx2, rho2) = choose|ctx2: Map<SpecName, SpecType>, rho2: Map<SpecName, SpecType>|
         #[trigger] eval_ok(ctx2, rho2, enter(made_in, group, vpars, more), body, out);
        lemma_eval_state_ok(
            ctx2,
            rho2,
            enter(made_in, group, vpars, more),
            body,
            rest,
            out,
            result,
        );
    } else {
        let next = args[done.len() as int + 1];
        let hole2 = ts[more.len() as int];
        let frame2 = SpecFrame::AppArgs { made_in, group, pars: vpars, body, args, done: more, env };
        assert(typed(ctx, rho, next, hole2));
        assert(args_pending(ctx, rho, env, ts, args, more, hole2));
        lemma_args_frame_ok(
            ctx,
            rho,
            env,
            made_in,
            group,
            vpars,
            body,
            ts,
            args,
            more,
            hole2,
            out,
        );
        lemma_push_ok(rest, frame2, hole2, out, result);
        lemma_eval_state_ok(ctx, rho, env, next, rest.push(frame2), hole2, result);
    }
}

/// Handing a value to the fields of a tuple keeps the machine typed.
pub proof fn lemma_tup_return_ok(
    v: SpecValue,
    frame: SpecFrame,
    rest: Seq<SpecFrame>,
    hole: SpecType,
    out: SpecType,
    result: SpecType,
)
    requires
        frame is TupFlds,
        val_ok(v, hole),
        frame_ok(frame, hole, out),
        takes(rest, out, result),
    ensures
        state_ok(return_step(v, frame, rest), result),
{
    let flds = frame->flds;
    let done = frame->TupFlds_done;
    let env = frame->TupFlds_env;
    let (ctx, rho, ts) = choose|
        ctx: Map<SpecName, SpecType>,
        rho: Map<SpecName, SpecType>,
        ts: Seq<SpecType>,
    | #[trigger]
        args_pending(ctx, rho, env, ts, flds, done, hole) && out == (SpecType::Tup { flds: ts });
    let more = done.push(v);
    lemma_done_push(done, v, ts);
    if done.len() + 1 >= flds.len() {
        let tuple = SpecValue::Tup(more);
        assert(val_ok(tuple, out)) by {
            assert(tuple is Tup && tuple->Tup_0 == more);
            assert forall|i: int| 0 <= i < more.len() implies val_ok(more[i], #[trigger] ts[i]) by {
                assert(val_ok(more[i], ts[i]));
            }
        }
        lemma_state_ok(SpecControl::Return(tuple), rest, out, result);
    } else {
        let next = flds[done.len() as int + 1];
        let hole2 = ts[more.len() as int];
        let frame2 = SpecFrame::TupFlds { flds, done: more, env };
        assert(typed(ctx, rho, next, hole2));
        assert(args_pending(ctx, rho, env, ts, flds, more, hole2));
        lemma_tup_frame_ok(ctx, rho, env, ts, flds, more, hole2);
        lemma_push_ok(rest, frame2, hole2, out, result);
        lemma_eval_state_ok(ctx, rho, env, next, rest.push(frame2), hole2, result);
    }
}

/// Handing a tuple to a projection keeps the machine typed.
pub proof fn lemma_sel_return_ok(
    v: SpecValue,
    frame: SpecFrame,
    rest: Seq<SpecFrame>,
    hole: SpecType,
    out: SpecType,
    result: SpecType,
)
    requires
        frame is SelOf,
        val_ok(v, hole),
        frame_ok(frame, hole, out),
        takes(rest, out, result),
    ensures
        state_ok(return_step(v, frame, rest), result),
{
    let idx = frame->idx;
    let flds = hole->Tup_flds;
    lemma_tuple_value(v, flds);
    let vs = v->Tup_0;
    assert(val_ok(vs[idx as int], flds[idx as int]));
    lemma_state_ok(SpecControl::Return(vs[idx as int]), rest, out, result);
}

/// Handing a truth value to a conditional keeps the machine typed.
pub proof fn lemma_ifte_return_ok(
    v: SpecValue,
    frame: SpecFrame,
    rest: Seq<SpecFrame>,
    hole: SpecType,
    out: SpecType,
    result: SpecType,
)
    requires
        frame is IfteCond,
        val_ok(v, hole),
        frame_ok(frame, hole, out),
        takes(rest, out, result),
    ensures
        state_ok(return_step(v, frame, rest), result),
{
    let trbr = frame->trbr;
    let flbr = frame->flbr;
    let env = frame->IfteCond_env;
    let (ctx, rho) = choose|ctx: Map<SpecName, SpecType>, rho: Map<SpecName, SpecType>|
     #[trigger] branches_pending(ctx, rho, env, trbr, flbr, hole, out);
    lemma_literal_value(v, LitType::TyBool);
    if v == SpecValue::Lit(LitVal::Bool(true)) {
        lemma_eval_state_ok(ctx, rho, env, trbr, rest, out, result);
    } else {
        assert(v == SpecValue::Lit(LitVal::Bool(false)));
        lemma_eval_state_ok(ctx, rho, env, flbr, rest, out, result);
    }
}

/// Handing a value of the type awaited to a frame keeps the machine typed.
pub proof fn lemma_return_step_ok(
    v: SpecValue,
    frame: SpecFrame,
    rest: Seq<SpecFrame>,
    hole: SpecType,
    out: SpecType,
    result: SpecType,
)
    requires
        val_ok(v, hole),
        frame_ok(frame, hole, out),
        takes(rest, out, result),
    ensures
        state_ok(return_step(v, frame, rest), result),
{
    match frame {
        SpecFrame::PrimArgs { .. } => lemma_prim_return_ok(v, frame, rest, hole, out, result),
        SpecFrame::LetBody { .. } => lemma_let_return_ok(v, frame, rest, hole, out, result),
        SpecFrame::AppFunc { .. } => lemma_call_return_ok(v, frame, rest, hole, out, result),
        SpecFrame::AppArgs { .. } => lemma_args_return_ok(v, frame, rest, hole, out, result),
        SpecFrame::TupFlds { .. } => lemma_tup_return_ok(v, frame, rest, hole, out, result),
        SpecFrame::SelOf { .. } => lemma_sel_return_ok(v, frame, rest, hole, out, result),
        SpecFrame::IfteCond { .. } => lemma_ifte_return_ok(v, frame, rest, hole, out, result),
    }
}

/// A step keeps a typed machine typed.
pub proof fn lemma_step_ok(m: SpecMachine, result: SpecType)
    requires
        state_ok(m, result),
    ensures
        state_ok(step_spec(m), result),
{
    match m.ctrl {
        SpecControl::Eval { env, expr } => {
            let t = choose|t: SpecType| #[trigger] ctrl_ok(m.ctrl, t) && takes(m.stack, t, result);
            let (ctx, rho) = choose|ctx: Map<SpecName, SpecType>, rho: Map<SpecName, SpecType>|
             #[trigger] eval_ok(ctx, rho, env, expr, t);
            lemma_eval_step_ok(ctx, rho, env, expr, m.stack, t, result);
        },
        SpecControl::Return(v) => {
            if m.stack.len() > 0 {
                let t = choose|t: SpecType| #[trigger]
                    ctrl_ok(m.ctrl, t) && takes(m.stack, t, result);
                let hole = choose|hole: SpecType| #[trigger]
                    coerces(t, hole) && stack_ok(m.stack, hole, result);
                lemma_coerce_val(v, t, hole);
                let (out, next) = choose|out: SpecType, next: SpecType| #[trigger]
                    link_ok(m.stack.last(), hole, out, next) && stack_ok(
                        m.stack.drop_last(),
                        next,
                        result,
                    );
                assert(coerces(out, next) && stack_ok(m.stack.drop_last(), next, result));
                assert(takes(m.stack.drop_last(), out, result));
                lemma_return_step_ok(v, m.stack.last(), m.stack.drop_last(), hole, out, result);
            }
        },
        _ => {},
    }
}

/// An answer keeps a typed machine typed.
pub proof fn lemma_resume_ok(m: SpecMachine, answer: SpecAnswer, result: SpecType)
    requires
        state_ok(m, result),
    ensures
        state_ok(resume_spec(m, answer), result),
{
    match m.ctrl {
        SpecControl::Ask(request) => {
            let t = choose|t: SpecType| #[trigger] ctrl_ok(m.ctrl, t) && takes(m.stack, t, result);
            match answered(request, answer) {
                Some(next) => {
                    assert(ctrl_ok(next, t));
                    lemma_state_ok(next, m.stack, t, result);
                },
                None => {},
            }
        },
        _ => {},
    }
}

/// Steps keep a typed machine typed.
pub proof fn lemma_steps_ok(m: SpecMachine, fuel: nat, result: SpecType)
    requires
        state_ok(m, result),
    ensures
        state_ok(steps_spec(m, fuel), result),
    decreases fuel,
{
    if fuel > 0 && running(m) {
        lemma_step_ok(m, result);
        lemma_steps_ok(step_spec(m), (fuel - 1) as nat, result);
    }
}

/// An evaluation against given answers keeps a typed machine typed.
pub proof fn lemma_replay_ok(m: SpecMachine, answers: Seq<SpecAnswer>, fuel: nat, result: SpecType)
    requires
        state_ok(m, result),
    ensures
        state_ok(replay_spec(m, answers, fuel).0, result),
    decreases answers.len(),
{
    let stopped = steps_spec(m, fuel);
    lemma_steps_ok(m, fuel, result);
    if stopped.ctrl is Ask && answers.len() > 0 {
        lemma_resume_ok(stopped, answers[0], result);
        lemma_replay_ok(resume_spec(stopped, answers[0]), answers.drop_first(), fuel, result);
    }
}

/// What a group binds among its first `n` members is one of these members.
pub proof fn lemma_bound_member(
    made_in: Map<SpecName, SpecValue>,
    group: Seq<SpecDecl>,
    n: nat,
    x: SpecName,
)
    requires
        n <= group.len(),
        bind_members(made_in, group, n).contains_key(x),
        !made_in.contains_key(x),
    ensures
        exists|j: int|
            0 <= j < n && #[trigger] bind_members(made_in, group, n)[x] == (SpecValue::Clos {
                env: made_in,
                group,
                pars: group[j].pars,
                body: group[j].body,
            }),
    decreases n,
{
    if n > 0 {
        let d = group[n - 1];
        let member = SpecValue::Clos { env: made_in, group, pars: d.pars, body: d.body };
        if x == d.name {
            assert(bind_members(made_in, group, n)[x] == member);
        } else {
            lemma_bound_member(made_in, group, (n - 1) as nat, x);
            let j = choose|j: int|
                0 <= j < n - 1 && #[trigger] bind_members(made_in, group, (n - 1) as nat)[x] == (
                SpecValue::Clos { env: made_in, group, pars: group[j].pars, body: group[j].body });
            assert(bind_members(made_in, group, n)[x] == (SpecValue::Clos {
                env: made_in,
                group,
                pars: group[j].pars,
                body: group[j].body,
            }));
        }
    }
}

/// The machine at the start of a checked simple program is typed.
pub proof fn lemma_start_ok(decls: Seq<SpecDecl>)
    requires
        check_prog_spec(decls) is Ok,
        simple_program(decls),
    ensures
        exists|result: SpecType| #[trigger] state_ok(program_start(decls), result),
{
    let none_bound = Map::<SpecName, SpecValue>::empty();
    let none_typed = Map::<SpecName, SpecType>::empty();
    let env = bind_group(none_bound, decls);
    assert(none_typed.dom() =~= Set::<SpecName>::empty());
    assert(env_ok(none_bound, none_typed, none_typed));
    assert(group_ok(none_typed.dom(), none_typed, decls));
    let unit = SpecType::Lit { lit: LitType::TyUnit };
    let idle = SpecControl::Return(SpecValue::Lit(LitVal::Unit));
    assert(stack_ok(Seq::empty(), unit, unit));
    lemma_takes_same(Seq::empty(), unit, unit);
    lemma_state_ok(idle, Seq::empty(), unit, unit);
    assert(state_ok(unit_result(), unit));
    if env.contains_key(main_name()) {
        lemma_bound_member(none_bound, decls, decls.len(), main_name());
        let j = choose|j: int|
            0 <= j < decls.len() && #[trigger] bind_members(none_bound, decls, decls.len())[main_name()]
                == (SpecValue::Clos {
                env: none_bound,
                group: decls,
                pars: decls[j].pars,
                body: decls[j].body,
            });
        let d = decls[j];
        if d.pars.len() == 0 {
            let none = Seq::<SpecValue>::empty();
            let inner = match d.gens {
                None => none_typed,
                Some(gens) => bind_all(
                    none_typed,
                    pair_up(gens, Seq::new(gens.len(), |i: int| unit)),
                ),
            };
            match d.gens {
                None => {},
                Some(gens) => {
                    lemma_bind_generics(none_typed, gens, Seq::new(gens.len(), |i: int| unit));
                    assert(inner.dom() =~= decl_scope(none_typed.dom(), d));
                },
            }
            assert(agree(none_typed.dom(), inner, none_typed));
            lemma_enter_with(none_bound, none_typed, none_typed, inner, decls, j, none);
            let out = subst_spec(inner, d.res);
            let all = bind_all(bind_all(none_typed, signatures(decls)), d.pars);
            assert(stack_ok(Seq::empty(), out, out));
            lemma_takes_same(Seq::empty(), out, out);
            lemma_eval_state_ok(
                all,
                inner,
                enter(none_bound, decls, d.pars, none),
                d.body,
                Seq::empty(),
                out,
                out,
            );
            assert(state_ok(program_start(decls), out));
        } else {
            assert(state_ok(program_start(decls), unit));
        }
    } else {
        assert(state_ok(program_start(decls), unit));
    }
}

/// A checked program of the simple fragment does not get stuck.
///
/// Let the declarations of a program pass the check, and let them be simple
/// ([`simple_program`]): they hold no function literal, the types they write
/// down hold no quantifier, the names that a declaration or an unpacking
/// binds for types are not in scope already, and no type that an unpacking
/// opens leaves it. Then however many
/// steps the evaluation takes and whatever answers it gets, the machine stays
/// well typed. So a fault that it stops on is a division by zero or a line of
/// input that cannot be read: never a built-in operation that is stuck, a
/// call of what is no function or with another number of arguments than it
/// takes, a projection of what is no tuple or beyond its fields, a condition
/// that is no truth value, or a variable that is not bound.
pub proof fn lemma_simple_program_sound(decls: Seq<SpecDecl>, answers: Seq<SpecAnswer>, fuel: nat)
    requires
        check_prog_spec(decls) is Ok,
        simple_program(decls),
    ensures
        exists|result: SpecType| #[trigger]
            state_ok(replay_spec(program_start(decls), answers, fuel).0, result),
        replay_spec(program_start(decls), answers, fuel).0.ctrl matches SpecControl::Fail(e)
            ==> e is DivByZero || e is BadInput,
{
    lemma_start_ok(decls);
    let result = choose|result: SpecType| #[trigger] state_ok(program_start(decls), result);
    lemma_replay_ok(program_start(decls), answers, fuel, result);
}

} // verus!
