use norem_lang::common::lit::{LitType, LitVal};
use norem_lang::common::name::Name;
use norem_lang::common::prim::{Compare, Prim};
use norem_lang::common::text::parse_char;
use norem_lang::corelang::eval::{
    eval, eval_prog, Answer, Control, Env, EvalError, Machine, Request, Value,
};
use norem_lang::corelang::primop::{apply_prim, compare_chars, compare_ints, int_op};
use norem_lang::corelang::syntax::{Decl, Expr, Program, Type};

const FUEL: usize = 1_000_000;

fn raw(s: &str) -> Name {
    Name::RawId(s.to_string())
}

fn var(s: &str) -> Expr {
    Expr::Var { var: raw(s) }
}

fn tint() -> Type {
    Type::Lit { lit: LitType::TyInt }
}

fn num(i: i64) -> Expr {
    Expr::Lit { lit: LitVal::Int(i) }
}

fn truth(b: bool) -> Expr {
    Expr::Lit { lit: LitVal::Bool(b) }
}

fn float(x: f64) -> Expr {
    Expr::Lit { lit: LitVal::Float(x.to_bits()) }
}

fn letter(c: char) -> Expr {
    Expr::Lit { lit: LitVal::Char(c) }
}

fn prim(prim: Prim, args: Vec<Expr>) -> Expr {
    Expr::Prim { prim, args }
}

fn vint<'a>(i: i64) -> Value<'a> {
    Value::Lit(LitVal::Int(i))
}

fn vbool<'a>(b: bool) -> Value<'a> {
    Value::Lit(LitVal::Bool(b))
}

fn run(expr: &Expr) -> Option<Result<Value<'_>, EvalError<'_>>> {
    eval(&Env::new(), expr, FUEL).outcome()
}

fn value_of(expr: &Expr) -> Value<'_> {
    match run(expr) {
        Some(Ok(v)) => v,
        other => panic!("no value: {:?}", other),
    }
}

fn fault_of(expr: &Expr) -> EvalError<'_> {
    match run(expr) {
        Some(Err(e)) => e,
        other => panic!("no fault: {:?}", other),
    }
}

#[test]
fn integer_arithmetic_wraps() {
    let op = |p: Prim, a: i64, b: i64| prim(p, vec![num(a), num(b)]);
    assert_eq!(value_of(&op(Prim::IAdd, 2, 3)), vint(5));
    assert_eq!(value_of(&op(Prim::ISub, 2, 3)), vint(-1));
    assert_eq!(value_of(&op(Prim::IMul, -4, 3)), vint(-12));
    assert_eq!(value_of(&op(Prim::IDiv, 7, 2)), vint(3));
    assert_eq!(value_of(&op(Prim::IDiv, -7, 2)), vint(-3));
    assert_eq!(value_of(&op(Prim::IDiv, 7, -2)), vint(-3));
    assert_eq!(value_of(&op(Prim::IRem, 7, 2)), vint(1));
    assert_eq!(value_of(&op(Prim::IRem, -7, 2)), vint(-1));
    assert_eq!(value_of(&op(Prim::IRem, 7, -2)), vint(1));
    assert_eq!(value_of(&op(Prim::IAdd, i64::MAX, 1)), vint(i64::MIN));
    assert_eq!(value_of(&op(Prim::ISub, i64::MIN, 1)), vint(i64::MAX));
    assert_eq!(value_of(&op(Prim::IMul, i64::MAX, 2)), vint(-2));
    assert_eq!(value_of(&op(Prim::IDiv, i64::MIN, -1)), vint(i64::MIN));
    assert_eq!(value_of(&op(Prim::IRem, i64::MIN, -1)), vint(0));
    assert_eq!(value_of(&prim(Prim::INeg, vec![num(5)])), vint(-5));
    assert_eq!(value_of(&prim(Prim::INeg, vec![num(i64::MIN)])), vint(i64::MIN));
    assert_eq!(int_op(Prim::IAdd, 40, 2), Some(42));
    assert_eq!(int_op(Prim::IDiv, 40, 0), None);
    assert_eq!(int_op(Prim::BAnd, 1, 1), None);
}

#[test]
fn comparisons() {
    let all = [Compare::Lt, Compare::Le, Compare::Eq, Compare::Ne, Compare::Ge, Compare::Gt];
    let on = |a: i64, b: i64| -> Vec<bool> { all.iter().map(|c| compare_ints(*c, a, b)).collect() };
    assert_eq!(on(1, 2), vec![true, true, false, true, false, false]);
    assert_eq!(on(2, 2), vec![false, true, true, false, true, false]);
    assert_eq!(on(3, 2), vec![false, false, false, true, true, true]);
    let chars: Vec<bool> = all.iter().map(|c| compare_chars(*c, 'a', 'b')).collect();
    assert_eq!(chars, vec![true, true, false, true, false, false]);
    assert_eq!(value_of(&prim(Prim::ICmp(Compare::Le), vec![num(-1), num(0)])), vbool(true));
    assert_eq!(
        value_of(&prim(Prim::CCmp(Compare::Gt), vec![letter('z'), letter('a')])),
        vbool(true)
    );
    assert_eq!(
        value_of(&prim(Prim::CCmp(Compare::Eq), vec![letter('z'), letter('a')])),
        vbool(false)
    );
}

#[test]
fn boolean_operations() {
    let op = |p: Prim, a: bool, b: bool| prim(p, vec![truth(a), truth(b)]);
    assert_eq!(value_of(&prim(Prim::BNot, vec![truth(true)])), vbool(false));
    assert_eq!(value_of(&op(Prim::BAnd, true, false)), vbool(false));
    assert_eq!(value_of(&op(Prim::BAnd, true, true)), vbool(true));
    assert_eq!(value_of(&op(Prim::BOr, false, false)), vbool(false));
    assert_eq!(value_of(&op(Prim::BOr, true, false)), vbool(true));
    assert_eq!(value_of(&op(Prim::BXor, true, true)), vbool(false));
    assert_eq!(value_of(&op(Prim::BXor, true, false)), vbool(true));
}

#[test]
fn stuck_primitives() {
    let e = prim(Prim::IAdd, vec![num(1), truth(true)]);
    assert_eq!(fault_of(&e), EvalError::PrimGotStuck(Prim::IAdd, vec![vint(1), vbool(true)]));
    let e = prim(Prim::IAdd, vec![num(1)]);
    assert_eq!(fault_of(&e), EvalError::PrimGotStuck(Prim::IAdd, vec![vint(1)]));
    let e = prim(Prim::INeg, vec![]);
    assert_eq!(fault_of(&e), EvalError::PrimGotStuck(Prim::INeg, vec![]));
    let e = prim(Prim::IScan, vec![num(1)]);
    assert_eq!(fault_of(&e), EvalError::PrimGotStuck(Prim::IScan, vec![vint(1)]));
    let e = prim(Prim::BNot, vec![Expr::Tup { flds: vec![] }]);
    assert_eq!(fault_of(&e), EvalError::PrimGotStuck(Prim::BNot, vec![Value::Tup(vec![])]));
    let e = prim(Prim::IAdd, vec![num(1), num(2), num(3)]);
    assert_eq!(
        fault_of(&e),
        EvalError::PrimGotStuck(Prim::IAdd, vec![vint(1), vint(2), vint(3)])
    );
    assert_eq!(
        apply_prim(Prim::FAdd, vec![vint(1), vint(2)]),
        Control::Fail(EvalError::PrimGotStuck(Prim::FAdd, vec![vint(1), vint(2)]))
    );
    // The arguments are evaluated before the operation looks at them.
    let e = prim(Prim::IAdd, vec![truth(true), var("nowhere")]);
    assert_eq!(fault_of(&e), EvalError::ValVarNotInScope(raw("nowhere")));
}

#[test]
fn bindings_shadow_and_do_not_leak() {
    let e = Expr::Let {
        bind: raw("x"),
        expr: Box::new(num(1)),
        cont: Box::new(Expr::Tup {
            flds: vec![
                Expr::Let { bind: raw("x"), expr: Box::new(num(2)), cont: Box::new(var("x")) },
                var("x"),
            ],
        }),
    };
    assert_eq!(value_of(&e), Value::Tup(vec![vint(2), vint(1)]));
    let e = Expr::Tup {
        flds: vec![
            Expr::Let { bind: raw("y"), expr: Box::new(num(2)), cont: Box::new(var("y")) },
            var("y"),
        ],
    };
    assert_eq!(fault_of(&e), EvalError::ValVarNotInScope(raw("y")));
}

#[test]
fn environments_hold_what_was_put_in() {
    let x = var("x");
    let mut env: Env<'_> = Env::new();
    assert_eq!(env.get(&raw("x")), None);
    env.insert(raw("x"), vint(1));
    let before = env.clone();
    env.insert(raw("x"), vint(2));
    env.insert(raw("y"), vint(3));
    assert_eq!(env.get(&raw("x")), Some(&vint(2)));
    assert_eq!(env.get(&raw("y")), Some(&vint(3)));
    assert_eq!(before.get(&raw("x")), Some(&vint(1)));
    assert_eq!(before.get(&raw("y")), None);
    assert_eq!(eval(&env, &x, FUEL).outcome(), Some(Ok(vint(2))));
    assert_eq!(eval(&before, &x, FUEL).outcome(), Some(Ok(vint(1))));
}

#[test]
fn tuples_are_built_and_projected() {
    let pair = || Expr::Tup { flds: vec![num(1), truth(true)] };
    assert_eq!(value_of(&pair()), Value::Tup(vec![vint(1), vbool(true)]));
    assert_eq!(value_of(&Expr::Tup { flds: vec![] }), Value::Tup(vec![]));
    let sel = |idx: usize| Expr::Sel { expr: Box::new(pair()), idx };
    assert_eq!(value_of(&sel(0)), vint(1));
    assert_eq!(value_of(&sel(1)), vbool(true));
    assert_eq!(
        fault_of(&sel(2)),
        EvalError::SelIndexOutOfBound(Value::Tup(vec![vint(1), vbool(true)]), 2)
    );
    let e = Expr::Sel { expr: Box::new(num(1)), idx: 0 };
    assert_eq!(fault_of(&e), EvalError::SelNotATuple(vint(1)));
}

#[test]
fn conditionals_choose_a_branch() {
    let ifte = |c: Expr, t: Expr, f: Expr| Expr::Ifte {
        cond: Box::new(c),
        trbr: Box::new(t),
        flbr: Box::new(f),
    };
    assert_eq!(value_of(&ifte(truth(true), num(1), var("unused"))), vint(1));
    assert_eq!(value_of(&ifte(truth(false), var("unused"), num(2))), vint(2));
    assert_eq!(fault_of(&ifte(num(0), num(1), num(2))), EvalError::IfteNotABool(vint(0)));
}

#[test]
fn functions_and_calls() {
    let pars = vec![(raw("x"), tint()), (raw("y"), tint())];
    let body = prim(Prim::ISub, vec![var("x"), var("y")]);
    let f = || Expr::Func { pars: pars.clone(), body: Box::new(body.clone()) };
    let call = |args: Vec<Expr>| Expr::App { func: Box::new(f()), args };
    assert_eq!(value_of(&call(vec![num(5), num(3)])), vint(2));
    let one = vec![num(5)];
    let e = Expr::App { func: Box::new(f()), args: one.clone() };
    match fault_of(&e) {
        EvalError::AppLengthNotMatch(args, found) => {
            assert_eq!(*args, one);
            assert_eq!(*found, pars);
        }
        other => panic!("another fault: {:?}", other),
    }
    let e = Expr::App { func: Box::new(num(1)), args: vec![num(2)] };
    assert_eq!(fault_of(&e), EvalError::AppNotAFunction(vint(1)));
    // A function that does not take the arguments' number is not given them.
    let e = Expr::App { func: Box::new(f()), args: vec![var("nowhere")] };
    assert!(matches!(fault_of(&e), EvalError::AppLengthNotMatch(_, _)));
    let e = Expr::App { func: Box::new(num(1)), args: vec![var("nowhere")] };
    assert_eq!(fault_of(&e), EvalError::AppNotAFunction(vint(1)));
}

#[test]
fn closures_keep_their_environment() {
    // let a = 1 in let f = fn(x) => x + a in let a = 10 in f(5)
    let f = Expr::Func {
        pars: vec![(raw("x"), tint())],
        body: Box::new(prim(Prim::IAdd, vec![var("x"), var("a")])),
    };
    let e = Expr::Let {
        bind: raw("a"),
        expr: Box::new(num(1)),
        cont: Box::new(Expr::Let {
            bind: raw("f"),
            expr: Box::new(f),
            cont: Box::new(Expr::Let {
                bind: raw("a"),
                expr: Box::new(num(10)),
                cont: Box::new(Expr::App {
                    func: Box::new(var("f")),
                    args: vec![prim(Prim::IAdd, vec![var("a"), num(0)])],
                }),
            }),
        }),
    };
    assert_eq!(value_of(&e), vint(11));
}

#[test]
fn type_annotations_are_erased() {
    let inst = Expr::Inst { expr: Box::new(num(7)), typs: vec![tint()] };
    assert_eq!(value_of(&inst), vint(7));
    let pack = Expr::Pack {
        expr: Box::new(num(7)),
        seals: vec![(raw("T"), tint())],
        flds: vec![],
    };
    assert_eq!(value_of(&pack), vint(7));
    let unpack = Expr::Unpack {
        bind: raw("c"),
        opens: vec![raw("T")],
        expr: Box::new(num(7)),
        cont: Box::new(prim(Prim::IAdd, vec![var("c"), num(1)])),
    };
    assert_eq!(value_of(&unpack), vint(8));
}

fn countdown() -> Program {
    // function loop(n) = if n == 0 then 0 else loop(n - 1); main = loop(1000)
    let body = Expr::Ifte {
        cond: Box::new(prim(Prim::ICmp(Compare::Eq), vec![var("n"), num(0)])),
        trbr: Box::new(num(0)),
        flbr: Box::new(Expr::App {
            func: Box::new(var("loop")),
            args: vec![prim(Prim::ISub, vec![var("n"), num(1)])],
        }),
    };
    Program {
        datas: vec![],
        decls: vec![
            Decl {
                name: raw("loop"),
                gens: None,
                pars: vec![(raw("n"), tint())],
                res: tint(),
                body,
            },
            Decl {
                name: raw("main"),
                gens: None,
                pars: vec![],
                res: tint(),
                body: Expr::App { func: Box::new(var("loop")), args: vec![num(1000)] },
            },
        ],
    }
}

#[test]
fn fuel_bounds_the_steps() {
    let prog = countdown();
    let m = eval_prog(&prog, 10);
    assert!(m.is_running());
    assert_eq!(m.outcome(), None);
    let m = eval_prog(&prog, 10).run(FUEL);
    assert!(!m.is_running());
    assert_eq!(m.outcome(), Some(Ok(vint(0))));
    // Running in pieces comes to the same end as running at once.
    let mut m = eval_prog(&prog, 0);
    let mut rounds = 0;
    while m.is_running() {
        m = m.run(7);
        rounds += 1;
    }
    assert!(rounds > 100);
    assert_eq!(m.outcome(), Some(Ok(vint(0))));
    assert_eq!(eval_prog(&prog, FUEL).outcome(), Some(Ok(vint(0))));
}

#[test]
fn a_machine_at_rest_stays() {
    let e = num(1);
    let m = eval(&Env::new(), &e, FUEL);
    assert_eq!(m.ctrl, Control::Return(vint(1)));
    let m = m.step().run(5).resume(Answer::Printed);
    assert_eq!(m.ctrl, Control::Return(vint(1)));
    assert!(m.stack.is_empty());
}

fn ask_of<'a>(m: &Machine<'a>) -> Request {
    match &m.ctrl {
        Control::Ask(r) => r.clone(),
        other => panic!("no request: {:?}", other),
    }
}

#[test]
fn reading_integers() {
    let e = prim(Prim::IAdd, vec![prim(Prim::IScan, vec![]), num(1)]);
    let m = eval(&Env::new(), &e, FUEL);
    assert_eq!(ask_of(&m), Request::ReadLine(Prim::IScan));
    assert_eq!(m.outcome(), None);
    let m = eval(&Env::new(), &e, FUEL).resume(Answer::Line("  41 \n".to_string())).run(FUEL);
    assert_eq!(m.outcome(), Some(Ok(vint(42))));
    let m = eval(&Env::new(), &e, FUEL).resume(Answer::Line("-7\n".to_string())).run(FUEL);
    assert_eq!(m.outcome(), Some(Ok(vint(-6))));
    let m = eval(&Env::new(), &e, FUEL).resume(Answer::Line(" x1 \n".to_string())).run(FUEL);
    assert_eq!(m.outcome(), Some(Err(EvalError::BadInput("x1".to_string()))));
    let m = eval(&Env::new(), &e, FUEL).resume(Answer::Line(String::new())).run(FUEL);
    assert_eq!(m.outcome(), Some(Err(EvalError::BadInput(String::new()))));
}

#[test]
fn reading_characters() {
    let e = prim(Prim::CScan, vec![]);
    let m = eval(&Env::new(), &e, FUEL).resume(Answer::Line(" q\n".to_string()));
    assert_eq!(m.outcome(), Some(Ok(Value::Lit(LitVal::Char('q')))));
    let m = eval(&Env::new(), &e, FUEL).resume(Answer::Line("qq\n".to_string()));
    assert_eq!(m.outcome(), Some(Err(EvalError::BadInput("qq".to_string()))));
    let m = eval(&Env::new(), &e, FUEL).resume(Answer::Line("\n".to_string()));
    assert_eq!(m.outcome(), Some(Err(EvalError::BadInput(String::new()))));
}

#[test]
fn reading_floats() {
    let e = prim(Prim::FScan, vec![]);
    let m = eval(&Env::new(), &e, FUEL).resume(Answer::Line(" 1.5 \n".to_string()));
    assert_eq!(ask_of(&m), Request::ParseFloat("1.5".to_string()));
    let m = m.resume(Answer::Float(1.5f64.to_bits()));
    assert_eq!(m.outcome(), Some(Ok(Value::Lit(LitVal::Float(1.5f64.to_bits())))));
    let m = eval(&Env::new(), &e, FUEL)
        .resume(Answer::Line("abc\n".to_string()))
        .resume(Answer::NoFloat);
    assert_eq!(m.outcome(), Some(Err(EvalError::BadInput("abc".to_string()))));
}

#[test]
fn writing() {
    let e = prim(Prim::IPrint, vec![num(-42)]);
    let m = eval(&Env::new(), &e, FUEL);
    assert_eq!(ask_of(&m), Request::Print("-42".to_string()));
    assert_eq!(m.resume(Answer::Printed).outcome(), Some(Ok(Value::Lit(LitVal::Unit))));
    let e = prim(Prim::CPrint, vec![letter('x')]);
    let m = eval(&Env::new(), &e, FUEL);
    assert_eq!(ask_of(&m), Request::Print("x".to_string()));
    let e = prim(Prim::FPrint, vec![float(2.5)]);
    let m = eval(&Env::new(), &e, FUEL);
    assert_eq!(ask_of(&m), Request::ShowFloat(2.5f64.to_bits()));
    let m = m.resume(Answer::Text("2.5".to_string()));
    assert_eq!(ask_of(&m), Request::Print("2.5".to_string()));
    assert_eq!(m.resume(Answer::Printed).outcome(), Some(Ok(Value::Lit(LitVal::Unit))));
}

#[test]
fn floating_point_is_asked_for() {
    let a = 1.5f64.to_bits();
    let b = 2.0f64.to_bits();
    let e = prim(Prim::FAdd, vec![float(1.5), float(2.0)]);
    let m = eval(&Env::new(), &e, FUEL);
    assert_eq!(ask_of(&m), Request::FloatBinary(Prim::FAdd, a, b));
    let m = m.resume(Answer::Float(3.5f64.to_bits()));
    assert_eq!(m.outcome(), Some(Ok(Value::Lit(LitVal::Float(3.5f64.to_bits())))));
    let e = prim(Prim::FCmp(Compare::Lt), vec![float(1.5), float(2.0)]);
    let m = eval(&Env::new(), &e, FUEL);
    assert_eq!(ask_of(&m), Request::FloatBinary(Prim::FCmp(Compare::Lt), a, b));
    assert_eq!(m.resume(Answer::Bool(true)).outcome(), Some(Ok(vbool(true))));
    let e = prim(Prim::FNeg, vec![float(1.5)]);
    let m = eval(&Env::new(), &e, FUEL);
    assert_eq!(ask_of(&m), Request::FloatUnary(Prim::FNeg, a));
    let m = m.resume(Answer::Float((-1.5f64).to_bits()));
    assert_eq!(m.outcome(), Some(Ok(Value::Lit(LitVal::Float((-1.5f64).to_bits())))));
}

#[test]
fn an_answer_of_the_wrong_kind_is_not_taken() {
    let e = prim(Prim::FCmp(Compare::Lt), vec![float(1.5), float(2.0)]);
    let m = eval(&Env::new(), &e, FUEL);
    let asked = ask_of(&m);
    let m = m.resume(Answer::Float(0)).resume(Answer::Printed).resume(Answer::Line(String::new()));
    assert_eq!(ask_of(&m), asked);
    let e = prim(Prim::IPrint, vec![num(1)]);
    let m = eval(&Env::new(), &e, FUEL).resume(Answer::Bool(true));
    assert_eq!(ask_of(&m), Request::Print("1".to_string()));
    let e = prim(Prim::IScan, vec![]);
    let m = eval(&Env::new(), &e, FUEL).resume(Answer::Float(1));
    assert_eq!(ask_of(&m), Request::ReadLine(Prim::IScan));
}

#[test]
fn characters_are_read_from_a_text_of_one() {
    assert_eq!(parse_char("a"), Some('a'));
    assert_eq!(parse_char("é"), Some('é'));
    assert_eq!(parse_char(""), None);
    assert_eq!(parse_char("ab"), None);
}

#[test]
fn lines_are_trimmed_and_numbers_read_and_written() {
    let read = Expr::Prim { prim: Prim::IScan, args: vec![] };
    let reading = |line: &str| {
        eval(&Env::new(), &read, FUEL).resume(Answer::Line(line.to_string())).outcome()
    };
    assert_eq!(reading(" \t 12 \r\n"), Some(Ok(vint(12))));
    assert_eq!(reading("+12"), Some(Ok(vint(12))));
    assert_eq!(reading("-9223372036854775808"), Some(Ok(vint(i64::MIN))));
    assert_eq!(
        reading("9223372036854775808\n"),
        Some(Err(EvalError::BadInput("9223372036854775808".to_string())))
    );
    assert_eq!(reading(" 1 2 "), Some(Err(EvalError::BadInput("1 2".to_string()))));
    let written = |i: i64| apply_prim(Prim::IPrint, vec![vint(i)]);
    assert_eq!(written(0), Control::Ask(Request::Print("0".to_string())));
    assert_eq!(written(-15), Control::Ask(Request::Print("-15".to_string())));
    assert_eq!(
        apply_prim(Prim::CPrint, vec![Value::Lit(LitVal::Char('é'))]),
        Control::Ask(Request::Print("é".to_string()))
    );
}

fn echo_twice() -> Program {
    // main = let a = read() in let _ = print(a + 1) in let b = read() in print(a * b)
    let body = Expr::Let {
        bind: raw("a"),
        expr: Box::new(prim(Prim::IScan, vec![])),
        cont: Box::new(Expr::Let {
            bind: raw("u"),
            expr: Box::new(prim(Prim::IPrint, vec![prim(Prim::IAdd, vec![var("a"), num(1)])])),
            cont: Box::new(Expr::Let {
                bind: raw("b"),
                expr: Box::new(prim(Prim::IScan, vec![])),
                cont: Box::new(prim(
                    Prim::IPrint,
                    vec![prim(Prim::IMul, vec![var("a"), var("b")])],
                )),
            }),
        }),
    };
    Program {
        datas: vec![],
        decls: vec![Decl {
            name: raw("main"),
            gens: None,
            pars: vec![],
            res: Type::Lit { lit: LitType::TyUnit },
            body,
        }],
    }
}

#[test]
fn replaying_answers() {
    let prog = echo_twice();
    let answers = vec![
        Answer::Line("6\n".to_string()),
        Answer::Printed,
        Answer::Line("7\n".to_string()),
        Answer::Printed,
    ];
    let (m, asked) = eval_prog(&prog, 0).replay(&answers, FUEL);
    assert_eq!(
        asked,
        vec![
            Request::ReadLine(Prim::IScan),
            Request::Print("7".to_string()),
            Request::ReadLine(Prim::IScan),
            Request::Print("42".to_string()),
        ]
    );
    assert_eq!(m.outcome(), Some(Ok(Value::Lit(LitVal::Unit))));
    // With too few answers the machine waits on the request it could not get answered.
    let (m, asked) = eval_prog(&prog, 0).replay(&answers[..2].to_vec(), FUEL);
    assert_eq!(asked.len(), 3);
    assert_eq!(ask_of(&m), Request::ReadLine(Prim::IScan));
    // With too little fuel for a piece the machine is still running.
    let (m, asked) = eval_prog(&prog, 0).replay(&answers, 1);
    assert!(asked.is_empty());
    assert!(m.is_running());
}

#[test]
fn the_same_answers_give_the_same_evaluation() {
    let prog = echo_twice();
    let answers = vec![
        Answer::Line("3\n".to_string()),
        Answer::Printed,
        Answer::Line("oops\n".to_string()),
    ];
    let (first, first_asked) = eval_prog(&prog, FUEL).replay(&answers, FUEL);
    let (second, second_asked) = eval_prog(&prog, 3).replay(&answers.clone(), FUEL);
    assert_eq!(first_asked, second_asked);
    assert_eq!(first, second);
    assert_eq!(first.outcome(), Some(Err(EvalError::BadInput("oops".to_string()))));
}

#[test]
fn arguments_are_evaluated_from_left_to_right() {
    let e = Expr::Tup {
        flds: vec![prim(Prim::IPrint, vec![num(1)]), prim(Prim::IPrint, vec![num(2)])],
    };
    let (m, asked) =
        eval(&Env::new(), &e, FUEL).replay(&vec![Answer::Printed, Answer::Printed], FUEL);
    assert_eq!(asked, vec![Request::Print("1".to_string()), Request::Print("2".to_string())]);
    let unit = || Value::Lit(LitVal::Unit);
    assert_eq!(m.outcome(), Some(Ok(Value::Tup(vec![unit(), unit()]))));
    // Each argument of a call is evaluated once.
    let f = Expr::Func { pars: vec![(raw("x"), tint())], body: Box::new(var("x")) };
    let e = Expr::App {
        func: Box::new(f),
        args: vec![Expr::Let {
            bind: raw("u"),
            expr: Box::new(prim(Prim::IPrint, vec![num(9)])),
            cont: Box::new(num(5)),
        }],
    };
    let (m, asked) = eval(&Env::new(), &e, FUEL).replay(&vec![Answer::Printed; 3], FUEL);
    assert_eq!(asked, vec![Request::Print("9".to_string())]);
    assert_eq!(m.outcome(), Some(Ok(vint(5))));
}
