//! The evaluator: an abstract machine that runs an expression step by step.
//!
//! Reading input, writing output and floating-point arithmetic are not done
//! here. Where the machine needs one of them it stops with a request; the
//! caller does what is asked and resumes the machine with the answer.

use vstd::prelude::*;
use crate::common::lit::LitVal;
use crate::common::name::{Name, SpecName};
use crate::common::prim::Prim;
use crate::corelang::machine::{bind_group, enter, enter_call, steps_spec, with_group};
use crate::corelang::syntax::{
    Decl, Expr, Program, SpecDecl, SpecExpr, SpecType, Type, decls_view, exprs_view,
    lemma_params_view, params_view,
};

verus! {

/// A map from names to values: the environment of an evaluation.
///
/// It is a persistent hash map of the `im` crate, so that a copy shares its
/// structure with the map it was copied from. Verus does not read it: what
/// it holds is named by [`env_values`], and the functions below that work on
/// it have contracts over that name which are taken on trust.
#[verifier::external_body]
#[derive(Debug, PartialEq, PartialOrd)]
pub struct Env<'a> {
    map: im::HashMap<Name, Value<'a>>,
}

/// What an expression evaluates to.
///
/// A function value borrows its parameters and its body from the program it
/// was made from, which therefore outlives it.
#[derive(Debug, PartialEq, PartialOrd)]
pub enum Value<'a> {
    Lit(LitVal),
    /// A function: the environment it was made in, the group of declarations
    /// it was declared with (`None` for a function literal), its parameters
    /// and its body. Every member of the group is in scope in the body.
    Clos(Env<'a>, Option<&'a Vec<Decl>>, &'a Vec<(Name, Type)>, &'a Expr),
    Tup(Vec<Value<'a>>),
}

/// The mathematical value of a [`Value`].
pub enum SpecValue {
    Lit(LitVal),
    Clos {
        env: Map<SpecName, SpecValue>,
        group: Seq<SpecDecl>,
        pars: Seq<(SpecName, SpecType)>,
        body: SpecExpr,
    },
    Tup(Seq<SpecValue>),
}

/// The bindings that an environment holds.
pub uninterp spec fn env_values(env: Env<'_>) -> Map<SpecName, SpecValue>;

/// The mathematical value of a value.
pub open spec fn value_model(v: Value<'_>) -> SpecValue
    decreases v,
{
    match v {
        Value::Lit(lit) => SpecValue::Lit(lit),
        Value::Clos(env, group, pars, body) => SpecValue::Clos {
            env: env_values(env),
            group: match group {
                Some(decls) => decls_view(decls@),
                None => Seq::empty(),
            },
            pars: params_view(pars@),
            body: body@,
        },
        Value::Tup(flds) => SpecValue::Tup(values_view(flds@)),
    }
}

/// The views of a list of values, in order.
pub open spec fn values_view(vs: Seq<Value<'_>>) -> Seq<SpecValue>
    decreases vs,
{
    Seq::new(
        vs.len(),
        |i: int|
            if 0 <= i < vs.len() {
                value_model(vs[i])
            } else {
                SpecValue::Tup(Seq::empty())
            },
    )
}

impl<'a> View for Value<'a> {
    type V = SpecValue;

    open spec fn view(&self) -> SpecValue {
        value_model(*self)
    }
}

/// The map without bindings.
pub open spec fn no_values() -> Map<SpecName, SpecValue> {
    Map::empty()
}

/// `im::HashMap::new`: an environment without bindings.
#[verifier::external_body]
pub(crate) fn values_new<'a>() -> (env: Env<'a>)
    ensures
        env_values(env) == no_values(),
{
    Env { map: im::HashMap::new() }
}

/// `Clone::clone` of `im::HashMap`: an environment with the bindings of the
/// given one.
#[verifier::external_body]
pub(crate) fn values_clone<'a>(env: &Env<'a>) -> (r: Env<'a>)
    ensures
        env_values(r) == env_values(*env),
{
    Env { map: env.map.clone() }
}

/// `im::HashMap::insert`: afterwards the name is bound to the value, in
/// place of an earlier binding of that name; the other bindings stay.
#[verifier::external_body]
pub(crate) fn values_insert<'a>(env: &mut Env<'a>, name: Name, value: Value<'a>)
    ensures
        env_values(*final(env)) == env_values(*old(env)).insert(name@, value@),
{
    env.map.insert(name, value);
}

/// `im::HashMap::get`: the value that the name is bound to, if it is bound.
#[verifier::external_body]
pub(crate) fn values_get<'a, 'b>(env: &'b Env<'a>, name: &Name) -> (r: Option<&'b Value<'a>>)
    ensures
        r.is_some() == env_values(*env).contains_key(name@),
        r.is_some() ==> r.unwrap()@ == env_values(*env)[name@],
{
    env.map.get(name)
}

impl<'a> Clone for Value<'a> {
    fn clone(&self) -> (r: Value<'a>)
        ensures
            r@ == self@,
        decreases self,
    {
        match self {
            Value::Lit(lit) => Value::Lit(*lit),
            Value::Clos(env, group, pars, body) => Value::Clos(
                values_clone(env),
                *group,
                *pars,
                *body,
            ),
            Value::Tup(flds) => Value::Tup(clone_values(flds)),
        }
    }
}

/// Copies a list of values.
pub fn clone_values<'a>(vs: &Vec<Value<'a>>) -> (r: Vec<Value<'a>>)
    ensures
        values_view(r@) == values_view(vs@),
    decreases vs,
{
    let mut out: Vec<Value<'a>> = Vec::new();
    let mut i: usize = 0;
    while i < vs.len()
        invariant
            i <= vs.len(),
            out@.len() == i,
            forall|j: int| 0 <= j < i ==> out@[j]@ == vs@[j]@,
        decreases vs.len() - i,
    {
        out.push(vs[i].clone());
        i += 1;
    }
    assert(values_view(out@) =~= values_view(vs@));
    out
}

impl<'a> Clone for Env<'a> {
    fn clone(&self) -> (r: Env<'a>)
        ensures
            env_values(r) == env_values(*self),
    {
        values_clone(self)
    }
}

impl<'a> Env<'a> {
    /// An environment without bindings.
    pub fn new() -> (env: Env<'a>)
        ensures
            env_values(env) == no_values(),
    {
        values_new()
    }

    /// Binds the name to the value, in place of an earlier binding of that
    /// name. Copies of the environment made before keep what they held.
    pub fn insert(&mut self, name: Name, value: Value<'a>)
        ensures
            env_values(*final(self)) == env_values(*old(self)).insert(name@, value@),
    {
        values_insert(self, name, value)
    }

    /// The value that the name is bound to, if it is bound.
    pub fn get(&self, name: &Name) -> (r: Option<&Value<'a>>)
        ensures
            r.is_some() == env_values(*self).contains_key(name@),
            r.is_some() ==> r.unwrap()@ == env_values(*self)[name@],
    {
        values_get(self, name)
    }
}

/// The values of a list and their views agree position by position.
pub proof fn lemma_values_view(vs: Seq<Value<'_>>)
    ensures
        values_view(vs).len() == vs.len(),
        forall|i: int| 0 <= i < vs.len() ==> (#[trigger] values_view(vs)[i]) == vs[i]@,
{
}

/// A fault of an evaluation.
#[derive(Debug, PartialEq)]
pub enum EvalError<'a> {
    ValVarNotInScope(Name),
    /// A built-in operation met arguments that it does not work on.
    PrimGotStuck(Prim, Vec<Value<'a>>),
    AppNotAFunction(Value<'a>),
    /// The arguments of a call and the parameters of the function called,
    /// which differ in number.
    AppLengthNotMatch(&'a Vec<Expr>, &'a Vec<(Name, Type)>),
    SelNotATuple(Value<'a>),
    SelIndexOutOfBound(Value<'a>, usize),
    IfteNotABool(Value<'a>),
    /// An integer was divided by zero, or its remainder by zero was taken.
    DivByZero(Prim),
    /// A line of input, trimmed, was not of the kind that was read.
    BadInput(String),
}

/// The mathematical value of an [`EvalError`].
pub enum SpecEvalError {
    ValVarNotInScope(SpecName),
    PrimGotStuck(Prim, Seq<SpecValue>),
    AppNotAFunction(SpecValue),
    AppLengthNotMatch(Seq<SpecExpr>, Seq<(SpecName, SpecType)>),
    SelNotATuple(SpecValue),
    SelIndexOutOfBound(SpecValue, usize),
    IfteNotABool(SpecValue),
    DivByZero(Prim),
    BadInput(Seq<char>),
}

impl<'a> View for EvalError<'a> {
    type V = SpecEvalError;

    open spec fn view(&self) -> SpecEvalError {
        match self {
            EvalError::ValVarNotInScope(n) => SpecEvalError::ValVarNotInScope(n@),
            EvalError::PrimGotStuck(p, vs) => SpecEvalError::PrimGotStuck(*p, values_view(vs@)),
            EvalError::AppNotAFunction(v) => SpecEvalError::AppNotAFunction(v@),
            EvalError::AppLengthNotMatch(args, pars) => SpecEvalError::AppLengthNotMatch(
                exprs_view(args@),
                params_view(pars@),
            ),
            EvalError::SelNotATuple(v) => SpecEvalError::SelNotATuple(v@),
            EvalError::SelIndexOutOfBound(v, i) => SpecEvalError::SelIndexOutOfBound(v@, *i),
            EvalError::IfteNotABool(v) => SpecEvalError::IfteNotABool(v@),
            EvalError::DivByZero(p) => SpecEvalError::DivByZero(*p),
            EvalError::BadInput(s) => SpecEvalError::BadInput(s@),
        }
    }
}

/// What the machine asks of its caller when it cannot go on by itself.
#[derive(Debug, PartialEq)]
pub enum Request {
    /// Read a line of input, for the given read operation.
    ReadLine(Prim),
    /// Read a floating-point number from the text.
    ParseFloat(String),
    /// Apply the floating-point operation to the number with the given bits.
    FloatUnary(Prim, u64),
    /// Apply the floating-point operation to the two numbers with the given
    /// bits.
    FloatBinary(Prim, u64, u64),
    /// Give the text of the floating-point number with the given bits.
    ShowFloat(u64),
    /// Write the text and a line end to the output.
    Print(String),
}

/// The mathematical value of a [`Request`].
pub enum SpecRequest {
    ReadLine(Prim),
    ParseFloat(Seq<char>),
    FloatUnary(Prim, u64),
    FloatBinary(Prim, u64, u64),
    ShowFloat(u64),
    Print(Seq<char>),
}

impl View for Request {
    type V = SpecRequest;

    open spec fn view(&self) -> SpecRequest {
        match self {
            Request::ReadLine(p) => SpecRequest::ReadLine(*p),
            Request::ParseFloat(s) => SpecRequest::ParseFloat(s@),
            Request::FloatUnary(p, a) => SpecRequest::FloatUnary(*p, *a),
            Request::FloatBinary(p, a, b) => SpecRequest::FloatBinary(*p, *a, *b),
            Request::ShowFloat(a) => SpecRequest::ShowFloat(*a),
            Request::Print(s) => SpecRequest::Print(s@),
        }
    }
}

/// What the caller hands back for a [`Request`].
#[derive(Debug, PartialEq)]
pub enum Answer {
    /// The line that was read, or the empty text at the end of the input.
    Line(String),
    /// The bits of a floating-point number: one read from a text, or the
    /// result of an arithmetic operation.
    Float(u64),
    /// The text did not hold a floating-point number.
    NoFloat,
    /// The result of a floating-point comparison.
    Bool(bool),
    /// The text of a floating-point number.
    Text(String),
    /// The line was written.
    Printed,
}

impl Clone for Answer {
    fn clone(&self) -> (r: Answer)
        ensures
            r@ == self@,
    {
        match self {
            Answer::Line(s) => Answer::Line(s.clone()),
            Answer::Float(a) => Answer::Float(*a),
            Answer::NoFloat => Answer::NoFloat,
            Answer::Bool(b) => Answer::Bool(*b),
            Answer::Text(s) => Answer::Text(s.clone()),
            Answer::Printed => Answer::Printed,
        }
    }
}

impl Clone for Request {
    fn clone(&self) -> (r: Request)
        ensures
            r@ == self@,
    {
        match self {
            Request::ReadLine(p) => Request::ReadLine(*p),
            Request::ParseFloat(s) => Request::ParseFloat(s.clone()),
            Request::FloatUnary(p, a) => Request::FloatUnary(*p, *a),
            Request::FloatBinary(p, a, b) => Request::FloatBinary(*p, *a, *b),
            Request::ShowFloat(a) => Request::ShowFloat(*a),
            Request::Print(s) => Request::Print(s.clone()),
        }
    }
}

/// The views of a list of answers, in order.
pub open spec fn answers_view(answers: Seq<Answer>) -> Seq<SpecAnswer> {
    Seq::new(answers.len(), |i: int| answers[i]@)
}

/// The views of a list of requests, in order.
pub open spec fn requests_view(requests: Seq<Request>) -> Seq<SpecRequest> {
    Seq::new(requests.len(), |i: int| requests[i]@)
}

/// The mathematical value of an [`Answer`].
pub enum SpecAnswer {
    Line(Seq<char>),
    Float(u64),
    NoFloat,
    Bool(bool),
    Text(Seq<char>),
    Printed,
}

impl View for Answer {
    type V = SpecAnswer;

    open spec fn view(&self) -> SpecAnswer {
        match self {
            Answer::Line(s) => SpecAnswer::Line(s@),
            Answer::Float(a) => SpecAnswer::Float(*a),
            Answer::NoFloat => SpecAnswer::NoFloat,
            Answer::Bool(b) => SpecAnswer::Bool(*b),
            Answer::Text(s) => SpecAnswer::Text(s@),
            Answer::Printed => SpecAnswer::Printed,
        }
    }
}

/// What the machine is doing.
#[derive(Debug, PartialEq)]
pub enum Control<'a> {
    /// Evaluating the expression in the environment.
    Eval(Env<'a>, &'a Expr),
    /// Handing a value to what waits on the stack; with nothing waiting, the
    /// value is the result.
    Return(Value<'a>),
    /// Waiting for the caller's answer.
    Ask(Request),
    /// Stopped on a fault.
    Fail(EvalError<'a>),
}

/// The mathematical value of a [`Control`].
pub enum SpecControl {
    Eval { env: Map<SpecName, SpecValue>, expr: SpecExpr },
    Return(SpecValue),
    Ask(SpecRequest),
    Fail(SpecEvalError),
}

impl<'a> View for Control<'a> {
    type V = SpecControl;

    open spec fn view(&self) -> SpecControl {
        match self {
            Control::Eval(env, expr) => SpecControl::Eval { env: env_values(*env), expr: expr@ },
            Control::Return(v) => SpecControl::Return(v@),
            Control::Ask(r) => SpecControl::Ask(r@),
            Control::Fail(e) => SpecControl::Fail(e@),
        }
    }
}

/// What waits for the value of a part of an expression.
#[derive(Debug, PartialEq)]
pub enum Frame<'a> {
    /// The arguments of a built-in operation: those after `done` are still to
    /// be evaluated in `env`.
    PrimArgs { prim: Prim, args: &'a Vec<Expr>, done: Vec<Value<'a>>, env: Env<'a> },
    /// The continuation of a binding, to be evaluated in `env` with `bind`
    /// bound to the value.
    LetBody { bind: &'a Name, cont: &'a Expr, env: Env<'a> },
    /// The arguments of a call, whose function is being evaluated.
    AppFunc { args: &'a Vec<Expr>, env: Env<'a> },
    /// The arguments of a call of the function with environment `made_in`,
    /// group `group`, parameters `pars` and body `body`: those after `done`
    /// are still to be evaluated in `env`.
    AppArgs {
        made_in: Env<'a>,
        group: Option<&'a Vec<Decl>>,
        pars: &'a Vec<(Name, Type)>,
        body: &'a Expr,
        args: &'a Vec<Expr>,
        done: Vec<Value<'a>>,
        env: Env<'a>,
    },
    /// The fields of a tuple: those after `done` are still to be evaluated
    /// in `env`.
    TupFlds { flds: &'a Vec<Expr>, done: Vec<Value<'a>>, env: Env<'a> },
    /// A projection of the value.
    SelOf { idx: usize },
    /// The branches of a conditional.
    IfteCond { trbr: &'a Expr, flbr: &'a Expr, env: Env<'a> },
}

/// The mathematical value of a [`Frame`].
pub enum SpecFrame {
    PrimArgs {
        prim: Prim,
        args: Seq<SpecExpr>,
        done: Seq<SpecValue>,
        env: Map<SpecName, SpecValue>,
    },
    LetBody { bind: SpecName, cont: SpecExpr, env: Map<SpecName, SpecValue> },
    AppFunc { args: Seq<SpecExpr>, env: Map<SpecName, SpecValue> },
    AppArgs {
        made_in: Map<SpecName, SpecValue>,
        group: Seq<SpecDecl>,
        pars: Seq<(SpecName, SpecType)>,
        body: SpecExpr,
        args: Seq<SpecExpr>,
        done: Seq<SpecValue>,
        env: Map<SpecName, SpecValue>,
    },
    TupFlds { flds: Seq<SpecExpr>, done: Seq<SpecValue>, env: Map<SpecName, SpecValue> },
    SelOf { idx: usize },
    IfteCond { trbr: SpecExpr, flbr: SpecExpr, env: Map<SpecName, SpecValue> },
}

/// The declarations of a group, by value; none for a function literal.
pub open spec fn group_view(group: Option<&Vec<Decl>>) -> Seq<SpecDecl> {
    match group {
        Some(decls) => decls_view(decls@),
        None => Seq::empty(),
    }
}

impl<'a> View for Frame<'a> {
    type V = SpecFrame;

    open spec fn view(&self) -> SpecFrame {
        match self {
            Frame::PrimArgs { prim, args, done, env } => SpecFrame::PrimArgs {
                prim: *prim,
                args: exprs_view(args@),
                done: values_view(done@),
                env: env_values(*env),
            },
            Frame::LetBody { bind, cont, env } => SpecFrame::LetBody {
                bind: bind@,
                cont: cont@,
                env: env_values(*env),
            },
            Frame::AppFunc { args, env } => SpecFrame::AppFunc {
                args: exprs_view(args@),
                env: env_values(*env),
            },
            Frame::AppArgs { made_in, group, pars, body, args, done, env } => SpecFrame::AppArgs {
                made_in: env_values(*made_in),
                group: group_view(*group),
                pars: params_view(pars@),
                body: body@,
                args: exprs_view(args@),
                done: values_view(done@),
                env: env_values(*env),
            },
            Frame::TupFlds { flds, done, env } => SpecFrame::TupFlds {
                flds: exprs_view(flds@),
                done: values_view(done@),
                env: env_values(*env),
            },
            Frame::SelOf { idx } => SpecFrame::SelOf { idx: *idx },
            Frame::IfteCond { trbr, flbr, env } => SpecFrame::IfteCond {
                trbr: trbr@,
                flbr: flbr@,
                env: env_values(*env),
            },
        }
    }
}

/// The views of a stack of frames, from the bottom up.
pub open spec fn frames_view(fs: Seq<Frame<'_>>) -> Seq<SpecFrame> {
    Seq::new(fs.len(), |i: int| fs[i]@)
}

/// The state of an evaluation.
#[derive(Debug, PartialEq)]
pub struct Machine<'a> {
    pub ctrl: Control<'a>,
    /// What waits for values, the innermost last.
    pub stack: Vec<Frame<'a>>,
}

/// The mathematical value of a [`Machine`].
pub struct SpecMachine {
    pub ctrl: SpecControl,
    pub stack: Seq<SpecFrame>,
}

impl<'a> View for Machine<'a> {
    type V = SpecMachine;

    open spec fn view(&self) -> SpecMachine {
        SpecMachine { ctrl: self.ctrl@, stack: frames_view(self.stack@) }
    }
}

/// The machine that is about to evaluate `expr` in `env`.
pub open spec fn start(env: Map<SpecName, SpecValue>, expr: SpecExpr) -> SpecMachine {
    SpecMachine { ctrl: SpecControl::Eval { env, expr }, stack: Seq::empty() }
}

/// Evaluates an expression in an environment, for up to `fuel` steps.
///
/// The machine that comes back holds the result, or a fault, or a request,
/// or is still running where the steps did not suffice: see
/// [`Machine::outcome`], [`Machine::resume`] and [`Machine::run`].
pub fn eval<'a>(env: &Env<'a>, expr: &'a Expr, fuel: usize) -> (r: Machine<'a>)
    ensures
        r@ == steps_spec(start(env_values(*env), expr@), fuel as nat),
{
    let stack: Vec<Frame<'a>> = Vec::new();
    assert(frames_view(stack@) =~= Seq::empty());
    let m = Machine { ctrl: Control::Eval(values_clone(env), expr), stack };
    m.run(fuel)
}

/// The name of the function at which a program starts.
pub open spec fn main_name() -> SpecName {
    SpecName::RawId("main"@)
}

/// The machine that has the unit value as its result.
pub open spec fn unit_result() -> SpecMachine {
    SpecMachine {
        ctrl: SpecControl::Return(SpecValue::Lit(LitVal::Unit)),
        stack: Seq::empty(),
    }
}

/// The machine at the start of a program.
///
/// The declarations form one group. If the group binds `main` to a function
/// without parameters, the machine is about to evaluate its body as in a
/// call without arguments. Otherwise it has the unit value as its result.
/// Where several declarations have the name `main`, the group binds the last.
pub open spec fn program_start(decls: Seq<SpecDecl>) -> SpecMachine {
    let env = bind_group(Map::empty(), decls);
    if env.contains_key(main_name()) {
        match env[main_name()] {
            SpecValue::Clos { env: made_in, group, pars, body } => if pars.len() == 0 {
                start(enter(made_in, group, pars, Seq::empty()), body)
            } else {
                unit_result()
            },
            _ => unit_result(),
        }
    } else {
        unit_result()
    }
}

/// Runs a program for up to `fuel` steps: its function `main`, if it has
/// one that takes no parameters.
pub fn eval_prog<'a>(prog: &'a Program, fuel: usize) -> (r: Machine<'a>)
    ensures
        r@ == steps_spec(program_start(decls_view(prog.decls@)), fuel as nat),
{
    let empty = values_new();
    let env = with_group(&empty, Some(&prog.decls));
    let main = Name::RawId("main".to_owned());
    let stack: Vec<Frame<'a>> = Vec::new();
    assert(frames_view(stack@) =~= Seq::empty());
    let unit = Control::Return(Value::Lit(LitVal::Unit));
    let ctrl = match values_get(&env, &main) {
        Some(Value::Clos(made_in, group, pars, body)) => {
            proof {
                lemma_params_view(pars@);
            }
            if pars.len() == 0 {
                let none: Vec<Value<'a>> = Vec::new();
                assert(values_view(none@) =~= Seq::empty());
                Control::Eval(enter_call(made_in, *group, *pars, none), *body)
            } else {
                unit
            }
        },
        _ => unit,
    };
    let m = Machine { ctrl, stack };
    m.run(fuel)
}

/// How an evaluation ended, where it has ended.
pub open spec fn outcome_spec(m: SpecMachine) -> Option<Result<SpecValue, SpecEvalError>> {
    match m.ctrl {
        SpecControl::Return(v) => if m.stack.len() == 0 {
            Some(Ok(v))
        } else {
            None
        },
        SpecControl::Fail(e) => Some(Err(e)),
        _ => None,
    }
}

/// The view of how an evaluation ended.
pub open spec fn outcome_view(r: Option<Result<Value<'_>, EvalError<'_>>>) -> Option<
    Result<SpecValue, SpecEvalError>,
> {
    match r {
        Some(Ok(v)) => Some(Ok(v@)),
        Some(Err(e)) => Some(Err(e@)),
        None => None,
    }
}

impl<'a> Machine<'a> {
    /// The result of the evaluation or its fault; `None` while the machine
    /// is running or waits for an answer.
    pub fn outcome(self) -> (r: Option<Result<Value<'a>, EvalError<'a>>>)
        ensures
            outcome_view(r) == outcome_spec(self@),
    {
        let Machine { ctrl, stack } = self;
        match ctrl {
            Control::Return(v) => if stack.len() == 0 {
                Some(Ok(v))
            } else {
                None
            },
            Control::Fail(e) => Some(Err(e)),
            _ => None,
        }
    }
}

} // verus!
