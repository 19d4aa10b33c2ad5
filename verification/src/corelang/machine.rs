//! The steps of the evaluator's machine.

use vstd::prelude::*;
use crate::common::lit::LitVal;
use crate::common::name::{Name, SpecName};
use crate::common::prim::Prim;
use crate::common::text::{parse_char, parse_int, parsed_char, parsed_int, trim_text, trimmed};
use crate::corelang::eval::{
    Answer, Control, Env, EvalError, Frame, Machine, Request, SpecAnswer, SpecControl,
    SpecEvalError, SpecFrame, SpecMachine, SpecRequest, SpecValue, Value, answers_view, env_values,
    frames_view, group_view, lemma_values_view, requests_view, values_clone, values_get,
    values_insert, values_view,
};
use crate::corelang::primop::{apply_prim, lit, prim_outcome, ret_lit};
use crate::corelang::syntax::{
    Decl, Expr, SpecDecl, SpecExpr, SpecType, Type, decls_view, lemma_decls_view, lemma_exprs_view,
    lemma_params_view, params_view,
};

verus! {

/// `made_in` with the first `n` members of a group bound in order, each to
/// the function it declares: a function made in `made_in`, with the whole
/// group to be bound again when it is called.
pub open spec fn bind_members(
    made_in: Map<SpecName, SpecValue>,
    group: Seq<SpecDecl>,
    n: nat,
) -> Map<SpecName, SpecValue>
    decreases n,
{
    if n == 0 || n > group.len() {
        made_in
    } else {
        bind_members(made_in, group, (n - 1) as nat).insert(
            group[n - 1].name,
            SpecValue::Clos {
                env: made_in,
                group,
                pars: group[n - 1].pars,
                body: group[n - 1].body,
            },
        )
    }
}

/// `made_in` with every member of a group bound.
pub open spec fn bind_group(made_in: Map<SpecName, SpecValue>, group: Seq<SpecDecl>) -> Map<
    SpecName,
    SpecValue,
> {
    bind_members(made_in, group, group.len())
}

/// `env` with the first `n` parameters bound in order, each to the value at
/// its position.
pub open spec fn bind_values(
    env: Map<SpecName, SpecValue>,
    pars: Seq<(SpecName, SpecType)>,
    vals: Seq<SpecValue>,
    n: nat,
) -> Map<SpecName, SpecValue>
    decreases n,
{
    if n == 0 || n > pars.len() || n > vals.len() {
        env
    } else {
        bind_values(env, pars, vals, (n - 1) as nat).insert(pars[n - 1].0, vals[n - 1])
    }
}

/// The environment in which the body of a called function is evaluated: the
/// one the function was made in, with its group bound and then its
/// parameters, each to the argument at its position.
pub open spec fn enter(
    made_in: Map<SpecName, SpecValue>,
    group: Seq<SpecDecl>,
    pars: Seq<(SpecName, SpecType)>,
    vals: Seq<SpecValue>,
) -> Map<SpecName, SpecValue> {
    bind_values(
        bind_group(made_in, group),
        pars,
        vals,
        if pars.len() <= vals.len() {
            pars.len()
        } else {
            vals.len()
        },
    )
}

/// A copy of `made_in` with every member of the group bound.
pub fn with_group<'a>(made_in: &Env<'a>, group: Option<&'a Vec<Decl>>) -> (r: Env<'a>)
    ensures
        env_values(r) == bind_group(env_values(*made_in), group_view(group)),
{
    let mut out = values_clone(made_in);
    match group {
        None => {},
        Some(decls) => {
            proof {
                lemma_decls_view(decls@);
            }
            let mut i: usize = 0;
            while i < decls.len()
                invariant
                    i <= decls.len(),
                    group == Some(decls),
                    decls_view(decls@).len() == decls.len(),
                    forall|j: int|
                        0 <= j < decls.len() ==> (#[trigger] decls_view(decls@)[j]) == decls@[j]@,
                    env_values(out) == bind_members(
                        env_values(*made_in),
                        decls_view(decls@),
                        i as nat,
                    ),
                decreases decls.len() - i,
            {
                let member = Value::Clos(
                    values_clone(made_in),
                    group,
                    &decls[i].pars,
                    &decls[i].body,
                );
                values_insert(&mut out, decls[i].name.clone(), member);
                i += 1;
            }
        },
    }
    out
}

/// The environment for the body of a called function: see [`enter`].
pub fn enter_call<'a>(
    made_in: &Env<'a>,
    group: Option<&'a Vec<Decl>>,
    pars: &'a Vec<(Name, Type)>,
    vals: Vec<Value<'a>>,
) -> (r: Env<'a>)
    ensures
        env_values(r) == enter(
            env_values(*made_in),
            group_view(group),
            params_view(pars@),
            values_view(vals@),
        ),
{
    let mut out = with_group(made_in, group);
    proof {
        lemma_params_view(pars@);
        lemma_values_view(vals@);
    }
    let mut i: usize = 0;
    while i < pars.len() && i < vals.len()
        invariant
            i <= pars.len(),
            i <= vals.len(),
            params_view(pars@).len() == pars.len(),
            values_view(vals@).len() == vals.len(),
            forall|j: int|
                0 <= j < pars.len() ==> (#[trigger] params_view(pars@)[j]) == (
                    pars@[j].0@,
                    pars@[j].1@,
                ),
            forall|j: int| 0 <= j < vals.len() ==> (#[trigger] values_view(vals@)[j]) == vals@[j]@,
            env_values(out) == bind_values(
                bind_group(env_values(*made_in), group_view(group)),
                params_view(pars@),
                values_view(vals@),
                i as nat,
            ),
        decreases pars.len() - i,
    {
        values_insert(&mut out, pars[i].0.clone(), vals[i].clone());
        i += 1;
    }
    out
}

/// The machine that goes on with the given control.
pub open spec fn going(ctrl: SpecControl, stack: Seq<SpecFrame>) -> SpecMachine {
    SpecMachine { ctrl, stack }
}

/// Whether the machine can take a step: it is evaluating an expression, or
/// it holds a value that something on the stack waits for.
pub open spec fn running(m: SpecMachine) -> bool {
    match m.ctrl {
        SpecControl::Eval { .. } => true,
        SpecControl::Return(_) => m.stack.len() > 0,
        _ => false,
    }
}

/// The first step of evaluating `expr` in `env`, under `stack`.
///
/// Type annotations play no part: an instantiation and a packing evaluate
/// the expression inside, an unpacking is a binding.
pub open spec fn eval_step(
    env: Map<SpecName, SpecValue>,
    expr: SpecExpr,
    stack: Seq<SpecFrame>,
) -> SpecMachine {
    match expr {
        SpecExpr::Lit { lit } => going(SpecControl::Return(SpecValue::Lit(lit)), stack),
        SpecExpr::Var { var } => if env.contains_key(var) {
            going(SpecControl::Return(env[var]), stack)
        } else {
            going(SpecControl::Fail(SpecEvalError::ValVarNotInScope(var)), stack)
        },
        SpecExpr::Prim { prim, args } => if args.len() == 0 {
            going(prim_outcome(prim, Seq::empty()), stack)
        } else {
            going(
                SpecControl::Eval { env, expr: args[0] },
                stack.push(SpecFrame::PrimArgs { prim, args, done: Seq::empty(), env }),
            )
        },
        SpecExpr::Let { bind, expr, cont } => going(
            SpecControl::Eval { env, expr: *expr },
            stack.push(SpecFrame::LetBody { bind, cont: *cont, env }),
        ),
        SpecExpr::Func { pars, body } => going(
            SpecControl::Return(SpecValue::Clos { env, group: Seq::empty(), pars, body: *body }),
            stack,
        ),
        SpecExpr::App { func, args } => going(
            SpecControl::Eval { env, expr: *func },
            stack.push(SpecFrame::AppFunc { args, env }),
        ),
        SpecExpr::Tup { flds } => if flds.len() == 0 {
            going(SpecControl::Return(SpecValue::Tup(Seq::empty())), stack)
        } else {
            going(
                SpecControl::Eval { env, expr: flds[0] },
                stack.push(SpecFrame::TupFlds { flds, done: Seq::empty(), env }),
            )
        },
        SpecExpr::Sel { expr, idx } => going(
            SpecControl::Eval { env, expr: *expr },
            stack.push(SpecFrame::SelOf { idx }),
        ),
        SpecExpr::Letrec { decls, cont } => going(
            SpecControl::Eval { env: bind_group(env, decls), expr: *cont },
            stack,
        ),
        SpecExpr::Inst { expr, typs } => going(SpecControl::Eval { env, expr: *expr }, stack),
        SpecExpr::Pack { expr, seals, flds } => going(
            SpecControl::Eval { env, expr: *expr },
            stack,
        ),
        SpecExpr::Unpack { bind, opens, expr, cont } => going(
            SpecControl::Eval { env, expr: *expr },
            stack.push(SpecFrame::LetBody { bind, cont: *cont, env }),
        ),
        SpecExpr::Ifte { cond, trbr, flbr } => going(
            SpecControl::Eval { env, expr: *cond },
            stack.push(SpecFrame::IfteCond { trbr: *trbr, flbr: *flbr, env }),
        ),
    }
}

/// The step that hands the value `v` to `frame`, the top of a stack whose
/// rest is `rest`.
///
/// The arguments of a call are evaluated in the caller's environment, from
/// left to right, after the function has been seen to be one that takes
/// their number; the body is then evaluated in the function's own
/// environment ([`enter`]).
pub open spec fn return_step(v: SpecValue, frame: SpecFrame, rest: Seq<SpecFrame>) -> SpecMachine {
    match frame {
        SpecFrame::PrimArgs { prim, args, done, env } => if done.len() + 1 >= args.len() {
            going(prim_outcome(prim, done.push(v)), rest)
        } else {
            going(
                SpecControl::Eval { env, expr: args[done.len() as int + 1] },
                rest.push(SpecFrame::PrimArgs { prim, args, done: done.push(v), env }),
            )
        },
        SpecFrame::LetBody { bind, cont, env } => going(
            SpecControl::Eval { env: env.insert(bind, v), expr: cont },
            rest,
        ),
        SpecFrame::AppFunc { args, env } => match v {
            SpecValue::Clos { env: made_in, group, pars, body } => if pars.len() != args.len() {
                going(SpecControl::Fail(SpecEvalError::AppLengthNotMatch(args, pars)), rest)
            } else if args.len() == 0 {
                going(
                    SpecControl::Eval {
                        env: enter(made_in, group, pars, Seq::empty()),
                        expr: body,
                    },
                    rest,
                )
            } else {
                going(
                    SpecControl::Eval { env, expr: args[0] },
                    rest.push(
                        SpecFrame::AppArgs {
                            made_in,
                            group,
                            pars,
                            body,
                            args,
                            done: Seq::empty(),
                            env,
                        },
                    ),
                )
            },
            _ => going(SpecControl::Fail(SpecEvalError::AppNotAFunction(v)), rest),
        },
        SpecFrame::AppArgs { made_in, group, pars, body, args, done, env } => if done.len() + 1
            >= args.len() {
            going(
                SpecControl::Eval { env: enter(made_in, group, pars, done.push(v)), expr: body },
                rest,
            )
        } else {
            going(
                SpecControl::Eval { env, expr: args[done.len() as int + 1] },
                rest.push(
                    SpecFrame::AppArgs {
                        made_in,
                        group,
                        pars,
                        body,
                        args,
                        done: done.push(v),
                        env,
                    },
                ),
            )
        },
        SpecFrame::TupFlds { flds, done, env } => if done.len() + 1 >= flds.len() {
            going(SpecControl::Return(SpecValue::Tup(done.push(v))), rest)
        } else {
            going(
                SpecControl::Eval { env, expr: flds[done.len() as int + 1] },
                rest.push(SpecFrame::TupFlds { flds, done: done.push(v), env }),
            )
        },
        SpecFrame::SelOf { idx } => match v {
            SpecValue::Tup(flds) => if idx < flds.len() {
                going(SpecControl::Return(flds[idx as int]), rest)
            } else {
                going(SpecControl::Fail(SpecEvalError::SelIndexOutOfBound(v, idx)), rest)
            },
            _ => going(SpecControl::Fail(SpecEvalError::SelNotATuple(v)), rest),
        },
        SpecFrame::IfteCond { trbr, flbr, env } => match v {
            SpecValue::Lit(LitVal::Bool(true)) => going(SpecControl::Eval { env, expr: trbr }, rest),
            SpecValue::Lit(LitVal::Bool(false)) => going(
                SpecControl::Eval { env, expr: flbr },
                rest,
            ),
            _ => going(SpecControl::Fail(SpecEvalError::IfteNotABool(v)), rest),
        },
    }
}

/// One step of the machine. A machine that cannot take a step stays as it is.
pub open spec fn step_spec(m: SpecMachine) -> SpecMachine {
    match m.ctrl {
        SpecControl::Eval { env, expr } => eval_step(env, expr, m.stack),
        SpecControl::Return(v) => if m.stack.len() > 0 {
            return_step(v, m.stack.last(), m.stack.drop_last())
        } else {
            m
        },
        _ => m,
    }
}

/// The machine after up to `fuel` steps: it stops before that where it
/// cannot take a step.
pub open spec fn steps_spec(m: SpecMachine, fuel: nat) -> SpecMachine
    decreases fuel,
{
    if fuel == 0 || !running(m) {
        m
    } else {
        steps_spec(step_spec(m), (fuel - 1) as nat)
    }
}

/// Pushing a frame pushes its view.
pub proof fn lemma_frames_push(fs: Seq<Frame<'_>>, f: Frame<'_>)
    ensures
        frames_view(fs.push(f)) == frames_view(fs).push(f@),
{
    assert(frames_view(fs.push(f)) =~= frames_view(fs).push(f@));
}

/// Pushing a value pushes its view.
pub proof fn lemma_values_push(vs: Seq<Value<'_>>, v: Value<'_>)
    ensures
        values_view(vs.push(v)) == values_view(vs).push(v@),
{
    lemma_values_view(vs);
    lemma_values_view(vs.push(v));
    assert(values_view(vs.push(v)) =~= values_view(vs).push(v@));
}

/// The machine that goes on with `ctrl` under `stack` with `frame` pushed.
fn push_frame<'a>(ctrl: Control<'a>, stack: Vec<Frame<'a>>, frame: Frame<'a>) -> (r: Machine<'a>)
    ensures
        r@ == going(ctrl@, frames_view(stack@).push(frame@)),
{
    let mut stack = stack;
    proof {
        lemma_frames_push(stack@, frame);
    }
    stack.push(frame);
    Machine { ctrl, stack }
}

/// The first step of evaluating `expr` in `env`, under `stack`.
pub fn start_eval<'a>(env: Env<'a>, expr: &'a Expr, stack: Vec<Frame<'a>>) -> (r: Machine<'a>)
    ensures
        r@ == eval_step(env_values(env), expr@, frames_view(stack@)),
{
    match expr {
        Expr::Lit { lit } => Machine { ctrl: Control::Return(Value::Lit(*lit)), stack },
        Expr::Var { var } => {
            let ctrl = match values_get(&env, var) {
                Some(v) => Control::Return(v.clone()),
                None => Control::Fail(EvalError::ValVarNotInScope(var.clone())),
            };
            Machine { ctrl, stack }
        },
        Expr::Prim { prim, args } => {
            proof {
                lemma_exprs_view(args@);
            }
            if args.len() == 0 {
                let none: Vec<Value<'a>> = Vec::new();
                assert(values_view(none@) =~= Seq::empty());
                Machine { ctrl: apply_prim(*prim, none), stack }
            } else {
                let done: Vec<Value<'a>> = Vec::new();
                assert(values_view(done@) =~= Seq::empty());
                let frame = Frame::PrimArgs { prim: *prim, args, done, env: values_clone(&env) };
                push_frame(Control::Eval(env, &args[0]), stack, frame)
            }
        },
        Expr::Let { bind, expr, cont } => {
            let frame = Frame::LetBody { bind, cont: &**cont, env: values_clone(&env) };
            push_frame(Control::Eval(env, &**expr), stack, frame)
        },
        Expr::Func { pars, body } => Machine {
            ctrl: Control::Return(Value::Clos(env, None, pars, &**body)),
            stack,
        },
        Expr::App { func, args } => {
            let frame = Frame::AppFunc { args, env: values_clone(&env) };
            push_frame(Control::Eval(env, &**func), stack, frame)
        },
        Expr::Tup { flds } => {
            proof {
                lemma_exprs_view(flds@);
            }
            let done: Vec<Value<'a>> = Vec::new();
            assert(values_view(done@) =~= Seq::empty());
            if flds.len() == 0 {
                Machine { ctrl: Control::Return(Value::Tup(done)), stack }
            } else {
                let frame = Frame::TupFlds { flds, done, env: values_clone(&env) };
                push_frame(Control::Eval(env, &flds[0]), stack, frame)
            }
        },
        Expr::Sel { expr, idx } => {
            push_frame(Control::Eval(env, &**expr), stack, Frame::SelOf { idx: *idx })
        },
        Expr::Letrec { decls, cont } => {
            let env2 = with_group(&env, Some(decls));
            Machine { ctrl: Control::Eval(env2, &**cont), stack }
        },
        Expr::Inst { expr, typs } => Machine { ctrl: Control::Eval(env, &**expr), stack },
        Expr::Pack { expr, seals, flds } => Machine { ctrl: Control::Eval(env, &**expr), stack },
        Expr::Unpack { bind, opens, expr, cont } => {
            let frame = Frame::LetBody { bind, cont: &**cont, env: values_clone(&env) };
            push_frame(Control::Eval(env, &**expr), stack, frame)
        },
        Expr::Ifte { cond, trbr, flbr } => {
            let frame = Frame::IfteCond {
                trbr: &**trbr,
                flbr: &**flbr,
                env: values_clone(&env),
            };
            push_frame(Control::Eval(env, &**cond), stack, frame)
        },
    }
}

/// The step that hands the value `v` to `frame`, which was the top of a
/// stack whose rest is `rest`.
pub fn hand_over<'a>(v: Value<'a>, frame: Frame<'a>, rest: Vec<Frame<'a>>) -> (r: Machine<'a>)
    ensures
        r@ == return_step(v@, frame@, frames_view(rest@)),
{
    match frame {
        Frame::PrimArgs { prim, args, done, env } => {
            let mut done = done;
            proof {
                lemma_exprs_view(args@);
                lemma_values_view(done@);
                lemma_values_push(done@, v);
            }
            done.push(v);
            if done.len() >= args.len() {
                Machine { ctrl: apply_prim(prim, done), stack: rest }
            } else {
                let next = &args[done.len()];
                let frame = Frame::PrimArgs { prim, args, done, env: values_clone(&env) };
                push_frame(Control::Eval(env, next), rest, frame)
            }
        },
        Frame::LetBody { bind, cont, env } => {
            let mut env = env;
            values_insert(&mut env, bind.clone(), v);
            Machine { ctrl: Control::Eval(env, cont), stack: rest }
        },
        Frame::AppFunc { args, env } => {
            proof {
                lemma_exprs_view(args@);
            }
            match v {
                Value::Clos(made_in, group, pars, body) => {
                    proof {
                        lemma_params_view(pars@);
                    }
                    if pars.len() != args.len() {
                        Machine {
                            ctrl: Control::Fail(EvalError::AppLengthNotMatch(args, pars)),
                            stack: rest,
                        }
                    } else if args.len() == 0 {
                        let none: Vec<Value<'a>> = Vec::new();
                        assert(values_view(none@) =~= Seq::empty());
                        let env2 = enter_call(&made_in, group, pars, none);
                        Machine { ctrl: Control::Eval(env2, body), stack: rest }
                    } else {
                        let done: Vec<Value<'a>> = Vec::new();
                        assert(values_view(done@) =~= Seq::empty());
                        let frame = Frame::AppArgs {
                            made_in,
                            group,
                            pars,
                            body,
                            args,
                            done,
                            env: values_clone(&env),
                        };
                        push_frame(Control::Eval(env, &args[0]), rest, frame)
                    }
                },
                other => Machine {
                    ctrl: Control::Fail(EvalError::AppNotAFunction(other)),
                    stack: rest,
                },
            }
        },
        Frame::AppArgs { made_in, group, pars, body, args, done, env } => {
            let mut done = done;
            proof {
                lemma_exprs_view(args@);
                lemma_values_view(done@);
                lemma_values_push(done@, v);
            }
            done.push(v);
            if done.len() >= args.len() {
                let env2 = enter_call(&made_in, group, pars, done);
                Machine { ctrl: Control::Eval(env2, body), stack: rest }
            } else {
                let next = &args[done.len()];
                let frame = Frame::AppArgs {
                    made_in,
                    group,
                    pars,
                    body,
                    args,
                    done,
                    env: values_clone(&env),
                };
                push_frame(Control::Eval(env, next), rest, frame)
            }
        },
        Frame::TupFlds { flds, done, env } => {
            let mut done = done;
            proof {
                lemma_exprs_view(flds@);
                lemma_values_view(done@);
                lemma_values_push(done@, v);
            }
            done.push(v);
            if done.len() >= flds.len() {
                Machine { ctrl: Control::Return(Value::Tup(done)), stack: rest }
            } else {
                let next = &flds[done.len()];
                let frame = Frame::TupFlds { flds, done, env: values_clone(&env) };
                push_frame(Control::Eval(env, next), rest, frame)
            }
        },
        Frame::SelOf { idx } => {
            let ctrl = match v {
                Value::Tup(flds) => {
                    proof {
                        lemma_values_view(flds@);
                    }
                    if idx < flds.len() {
                        Control::Return(flds[idx].clone())
                    } else {
                        Control::Fail(EvalError::SelIndexOutOfBound(Value::Tup(flds), idx))
                    }
                },
                other => Control::Fail(EvalError::SelNotATuple(other)),
            };
            Machine { ctrl, stack: rest }
        },
        Frame::IfteCond { trbr, flbr, env } => {
            let ctrl = match v {
                Value::Lit(LitVal::Bool(true)) => Control::Eval(env, trbr),
                Value::Lit(LitVal::Bool(false)) => Control::Eval(env, flbr),
                other => Control::Fail(EvalError::IfteNotABool(other)),
            };
            Machine { ctrl, stack: rest }
        },
    }
}

impl<'a> Machine<'a> {
    /// Whether the machine can take a step.
    pub fn is_running(&self) -> (b: bool)
        ensures
            b == running(self@),
    {
        match &self.ctrl {
            Control::Eval(_, _) => true,
            Control::Return(_) => self.stack.len() > 0,
            _ => false,
        }
    }

    /// Takes one step. A machine that cannot take a step stays as it is.
    pub fn step(self) -> (r: Machine<'a>)
        ensures
            r@ == step_spec(self@),
    {
        let Machine { ctrl, stack } = self;
        match ctrl {
            Control::Eval(env, expr) => start_eval(env, expr, stack),
            Control::Return(v) => {
                let mut stack = stack;
                match stack.pop() {
                    Some(frame) => {
                        proof {
                            assert(frames_view(stack@) =~= frames_view(self.stack@).drop_last());
                        }
                        hand_over(v, frame, stack)
                    },
                    None => Machine { ctrl: Control::Return(v), stack },
                }
            },
            other => Machine { ctrl: other, stack },
        }
    }

    /// Takes up to `fuel` steps, stopping before that where the machine
    /// cannot take a step: on a result, a request or a fault.
    pub fn run(self, fuel: usize) -> (r: Machine<'a>)
        ensures
            r@ == steps_spec(self@, fuel as nat),
    {
        let mut m = self;
        let mut left: usize = fuel;
        while left > 0 && m.is_running()
            invariant
                steps_spec(m@, left as nat) == steps_spec(self@, fuel as nat),
            decreases left,
        {
            m = m.step();
            left -= 1;
        }
        m
    }
}

/// What the machine goes on with when its request gets the answer; `None`
/// where the answer is not one that the request can get.
///
/// A line that was read is trimmed. For an integer or a character read, the
/// trimmed line is read as one, and is a fault where it is none. For a
/// floating-point read the caller is asked to read the trimmed line. What the
/// caller computed is taken as it is.
pub open spec fn answered(request: SpecRequest, answer: SpecAnswer) -> Option<SpecControl> {
    match (request, answer) {
        (SpecRequest::ReadLine(Prim::IScan), SpecAnswer::Line(s)) => Some(
            match parsed_int(trimmed(s)) {
                Some(i) => lit(LitVal::Int(i)),
                None => SpecControl::Fail(SpecEvalError::BadInput(trimmed(s))),
            },
        ),
        (SpecRequest::ReadLine(Prim::CScan), SpecAnswer::Line(s)) => Some(
            match parsed_char(trimmed(s)) {
                Some(c) => lit(LitVal::Char(c)),
                None => SpecControl::Fail(SpecEvalError::BadInput(trimmed(s))),
            },
        ),
        (SpecRequest::ReadLine(Prim::FScan), SpecAnswer::Line(s)) => Some(
            SpecControl::Ask(SpecRequest::ParseFloat(trimmed(s))),
        ),
        (SpecRequest::ParseFloat(_), SpecAnswer::Float(x)) => Some(lit(LitVal::Float(x))),
        (SpecRequest::ParseFloat(s), SpecAnswer::NoFloat) => Some(
            SpecControl::Fail(SpecEvalError::BadInput(s)),
        ),
        (SpecRequest::FloatUnary(Prim::FNeg, _), SpecAnswer::Float(x)) => Some(
            lit(LitVal::Float(x)),
        ),
        (SpecRequest::FloatBinary(Prim::FAdd, _, _), SpecAnswer::Float(x))
        | (SpecRequest::FloatBinary(Prim::FSub, _, _), SpecAnswer::Float(x))
        | (SpecRequest::FloatBinary(Prim::FMul, _, _), SpecAnswer::Float(x))
        | (SpecRequest::FloatBinary(Prim::FDiv, _, _), SpecAnswer::Float(x)) => Some(
            lit(LitVal::Float(x)),
        ),
        (SpecRequest::FloatBinary(Prim::FCmp(_), _, _), SpecAnswer::Bool(b)) => Some(
            lit(LitVal::Bool(b)),
        ),
        (SpecRequest::ShowFloat(_), SpecAnswer::Text(s)) => Some(
            SpecControl::Ask(SpecRequest::Print(s)),
        ),
        (SpecRequest::Print(_), SpecAnswer::Printed) => Some(lit(LitVal::Unit)),
        _ => None,
    }
}

/// The machine after its request got the answer. A machine that asks
/// nothing, or that cannot get this answer, stays as it is.
pub open spec fn resume_spec(m: SpecMachine, answer: SpecAnswer) -> SpecMachine {
    match m.ctrl {
        SpecControl::Ask(request) => match answered(request, answer) {
            Some(ctrl) => going(ctrl, m.stack),
            None => m,
        },
        _ => m,
    }
}

/// The view of what a request goes on with.
pub open spec fn answered_view(r: Option<Control<'_>>) -> Option<SpecControl> {
    match r {
        Some(c) => Some(c@),
        None => None,
    }
}

/// What a request goes on with when it gets the answer: see [`answered`].
pub fn answer_request<'a>(request: &Request, answer: Answer) -> (r: Option<Control<'a>>)
    ensures
        answered_view(r) == answered(request@, answer@),
{
    match (request, answer) {
        (Request::ReadLine(Prim::IScan), Answer::Line(s)) => {
            let text = trim_text(s.as_str());
            match parse_int(text) {
                Some(i) => Some(ret_lit(LitVal::Int(i))),
                None => Some(Control::Fail(EvalError::BadInput(text.to_owned()))),
            }
        },
        (Request::ReadLine(Prim::CScan), Answer::Line(s)) => {
            let text = trim_text(s.as_str());
            match parse_char(text) {
                Some(c) => Some(ret_lit(LitVal::Char(c))),
                None => Some(Control::Fail(EvalError::BadInput(text.to_owned()))),
            }
        },
        (Request::ReadLine(Prim::FScan), Answer::Line(s)) => {
            let text = trim_text(s.as_str());
            Some(Control::Ask(Request::ParseFloat(text.to_owned())))
        },
        (Request::ParseFloat(_), Answer::Float(x)) => Some(
            ret_lit(LitVal::Float(x)),
        ),
        (Request::ParseFloat(s), Answer::NoFloat) => Some(
            Control::Fail(EvalError::BadInput(s.clone())),
        ),
        (Request::FloatUnary(Prim::FNeg, _), Answer::Float(x)) => Some(
            ret_lit(LitVal::Float(x)),
        ),
        (Request::FloatBinary(Prim::FAdd, _, _), Answer::Float(x))
        | (Request::FloatBinary(Prim::FSub, _, _), Answer::Float(x))
        | (Request::FloatBinary(Prim::FMul, _, _), Answer::Float(x))
        | (Request::FloatBinary(Prim::FDiv, _, _), Answer::Float(x)) => Some(
            ret_lit(LitVal::Float(x)),
        ),
        (Request::FloatBinary(Prim::FCmp(_), _, _), Answer::Bool(b)) => Some(
            ret_lit(LitVal::Bool(b)),
        ),
        (Request::ShowFloat(_), Answer::Text(s)) => Some(Control::Ask(Request::Print(s))),
        (Request::Print(_), Answer::Printed) => Some(ret_lit(LitVal::Unit)),
        _ => None,
    }
}

impl<'a> Machine<'a> {
    /// Hands the machine the answer to its request. A machine that asks
    /// nothing, or that cannot get this answer, stays as it is.
    pub fn resume(self, answer: Answer) -> (r: Machine<'a>)
        ensures
            r@ == resume_spec(self@, answer@),
    {
        let Machine { ctrl, stack } = self;
        match ctrl {
            Control::Ask(request) => match answer_request(&request, answer) {
                Some(next) => Machine { ctrl: next, stack },
                None => Machine { ctrl: Control::Ask(request), stack },
            },
            other => Machine { ctrl: other, stack },
        }
    }
}

/// A whole evaluation against answers that are given beforehand: the machine
/// at its end and the requests it made, in order.
///
/// The machine runs for up to `fuel` steps. Where it then asks a request and
/// an answer is left, it gets the next answer and the evaluation goes on in
/// the same way. It ends where the machine asks nothing, or asks and no
/// answer is left: the request that it then waits on is the last of the list.
pub open spec fn replay_spec(m: SpecMachine, answers: Seq<SpecAnswer>, fuel: nat) -> (
    SpecMachine,
    Seq<SpecRequest>,
)
    decreases answers.len(),
{
    let stopped = steps_spec(m, fuel);
    match stopped.ctrl {
        SpecControl::Ask(request) => if answers.len() > 0 {
            let rest = replay_spec(resume_spec(stopped, answers[0]), answers.drop_first(), fuel);
            (rest.0, seq![request] + rest.1)
        } else {
            (stopped, seq![request])
        },
        _ => (stopped, Seq::empty()),
    }
}

impl<'a> Machine<'a> {
    /// Evaluates against answers that are given beforehand: see
    /// [`replay_spec`].
    pub fn replay(self, answers: &Vec<Answer>, fuel: usize) -> (r: (Machine<'a>, Vec<Request>))
        ensures
            r.0@ == replay_spec(self@, answers_view(answers@), fuel as nat).0,
            requests_view(r.1@) == replay_spec(self@, answers_view(answers@), fuel as nat).1,
    {
        let mut m = self.run(fuel);
        let mut asked: Vec<Request> = Vec::new();
        let mut i: usize = 0;
        let ghost all = answers_view(answers@);
        assert(all.subrange(0, all.len() as int) == all);
        assert(requests_view(asked@) =~= Seq::empty());
        loop
            invariant_except_break
                exists|before: SpecMachine|
                    m@ == steps_spec(before, fuel as nat) && replay_spec(
                        self@,
                        all,
                        fuel as nat,
                    ).0 == replay_spec(before, all.subrange(i as int, all.len() as int), fuel as nat).0
                        && replay_spec(self@, all, fuel as nat).1 == requests_view(asked@)
                        + replay_spec(
                        before,
                        all.subrange(i as int, all.len() as int),
                        fuel as nat,
                    ).1,
            invariant
                i <= answers.len(),
                all == answers_view(answers@),
            ensures
                m@ == replay_spec(self@, all, fuel as nat).0,
                requests_view(asked@) == replay_spec(self@, all, fuel as nat).1,
            decreases answers.len() - i,
        {
            let ghost before = choose|before: SpecMachine|
                m@ == steps_spec(before, fuel as nat) && replay_spec(self@, all, fuel as nat).0
                    == replay_spec(before, all.subrange(i as int, all.len() as int), fuel as nat).0
                    && replay_spec(self@, all, fuel as nat).1 == requests_view(asked@)
                    + replay_spec(
                    before,
                    all.subrange(i as int, all.len() as int),
                    fuel as nat,
                ).1;
            let ghost left = all.subrange(i as int, all.len() as int);
            let ghost logged = requests_view(asked@);
            let request = match &m.ctrl {
                Control::Ask(request) => request.clone(),
                _ => {
                    assert(logged + Seq::<SpecRequest>::empty() =~= logged);
                    break ;
                },
            };
            proof {
                assert(requests_view(asked@.push(request)) =~= logged + seq![request@]);
            }
            asked.push(request);
            if i >= answers.len() {
                break ;
            }
            let ghost stopped = m@;
            m = m.resume(answers[i].clone());
            proof {
                assert(left[0] == answers@[i as int]@);
                assert(left.drop_first() =~= all.subrange(i + 1, all.len() as int));
                let rest = replay_spec(m@, left.drop_first(), fuel as nat);
                assert((logged + seq![request@]) + rest.1 =~= logged + (seq![request@] + rest.1));
            }
            m = m.run(fuel);
            i += 1;
        }
        (m, asked)
    }
}

/// An evaluation is decided by the machine it starts from and the answers it
/// gets: two evaluations from one state against the same answers end in the
/// same state, with the same result, after the same requests, and so after
/// writing the same lines.
pub proof fn lemma_replay_deterministic(
    first: Machine<'_>,
    second: Machine<'_>,
    first_answers: Seq<Answer>,
    second_answers: Seq<Answer>,
    fuel: nat,
)
    requires
        first@ == second@,
        answers_view(first_answers) == answers_view(second_answers),
    ensures
        replay_spec(first@, answers_view(first_answers), fuel) == replay_spec(
            second@,
            answers_view(second_answers),
            fuel,
        ),
{
}

} // verus!
