//! What the built-in operations do.

use vstd::prelude::*;
use crate::common::lit::LitVal;
use crate::common::prim::{Compare, Prim};
use crate::common::text::{int_text, show_char, show_int};
use crate::corelang::eval::{
    Control, EvalError, Request, SpecControl, SpecEvalError, SpecRequest, SpecValue, Value,
    lemma_values_view, values_view,
};

verus! {

/// Whether the comparison holds of two numbers.
pub open spec fn holds(c: Compare, x: int, y: int) -> bool {
    match c {
        Compare::Lt => x < y,
        Compare::Le => x <= y,
        Compare::Eq => x == y,
        Compare::Ne => x != y,
        Compare::Ge => x >= y,
        Compare::Gt => x > y,
    }
}

/// Compares two integers.
pub fn compare_ints(c: Compare, x: i64, y: i64) -> (b: bool)
    ensures
        b == holds(c, x as int, y as int),
{
    match c {
        Compare::Lt => x < y,
        Compare::Le => x <= y,
        Compare::Eq => x == y,
        Compare::Ne => x != y,
        Compare::Ge => x >= y,
        Compare::Gt => x > y,
    }
}

/// Compares two characters, by their code points.
pub fn compare_chars(c: Compare, x: char, y: char) -> (b: bool)
    ensures
        b == holds(c, x as int, y as int),
{
    let a: u32 = x as u32;
    let b: u32 = y as u32;
    match c {
        Compare::Lt => a < b,
        Compare::Le => a <= b,
        Compare::Eq => a == b,
        Compare::Ne => a != b,
        Compare::Ge => a >= b,
        Compare::Gt => a > b,
    }
}

/// The value of an integer operation on two operands, in two's complement:
/// a result out of range wraps around. `None` for a division or a remainder
/// by zero, and for an operation that is none of these.
pub open spec fn int_binary(prim: Prim, x: i64, y: i64) -> Option<i64> {
    match prim {
        Prim::IAdd => Some(x.wrapping_add(y)),
        Prim::ISub => Some(x.wrapping_sub(y)),
        Prim::IMul => Some(x.wrapping_mul(y)),
        Prim::IDiv => if y == 0 {
            None
        } else {
            match x.checked_div(y) {
                Some(q) => Some(q),
                None => Some(i64::MIN),
            }
        },
        Prim::IRem => if y == 0 {
            None
        } else {
            match x.checked_rem(y) {
                Some(r) => Some(r),
                None => Some(0i64),
            }
        },
        _ => None,
    }
}

/// [`int_binary`], computed.
pub fn int_op(prim: Prim, x: i64, y: i64) -> (r: Option<i64>)
    ensures
        r == int_binary(prim, x, y),
{
    match prim {
        Prim::IAdd => Some(x.wrapping_add(y)),
        Prim::ISub => Some(x.wrapping_sub(y)),
        Prim::IMul => Some(x.wrapping_mul(y)),
        Prim::IDiv => if y == 0 {
            None
        } else {
            match x.checked_div(y) {
                Some(q) => Some(q),
                None => Some(i64::MIN),
            }
        },
        Prim::IRem => if y == 0 {
            None
        } else {
            match x.checked_rem(y) {
                Some(r) => Some(r),
                None => Some(0i64),
            }
        },
        _ => None,
    }
}

/// The value of a literal.
pub open spec fn lit(v: LitVal) -> SpecControl {
    SpecControl::Return(SpecValue::Lit(v))
}

/// The control that returns a literal.
pub fn ret_lit<'a>(v: LitVal) -> (c: Control<'a>)
    ensures
        c@ == lit(v),
{
    Control::Return(Value::Lit(v))
}

/// What an operation does with one literal argument; `None` where it does
/// not work on one such argument.
///
/// Negating an integer wraps around. A floating-point operation is asked
/// of the caller, and so is writing a line.
pub open spec fn unary_outcome(prim: Prim, a: LitVal) -> Option<SpecControl> {
    match (prim, a) {
        (Prim::INeg, LitVal::Int(x)) => Some(lit(LitVal::Int(0i64.wrapping_sub(x)))),
        (Prim::FNeg, LitVal::Float(x)) => Some(SpecControl::Ask(SpecRequest::FloatUnary(prim, x))),
        (Prim::BNot, LitVal::Bool(x)) => Some(lit(LitVal::Bool(!x))),
        (Prim::IPrint, LitVal::Int(x)) => Some(SpecControl::Ask(SpecRequest::Print(int_text(x)))),
        (Prim::FPrint, LitVal::Float(x)) => Some(SpecControl::Ask(SpecRequest::ShowFloat(x))),
        (Prim::CPrint, LitVal::Char(x)) => Some(SpecControl::Ask(SpecRequest::Print(seq![x]))),
        _ => None,
    }
}

/// What an operation does with two literal arguments; `None` where it does
/// not work on two such arguments.
pub open spec fn binary_outcome(prim: Prim, a: LitVal, b: LitVal) -> Option<SpecControl> {
    match (prim, a, b) {
        (Prim::IAdd, LitVal::Int(x), LitVal::Int(y))
        | (Prim::ISub, LitVal::Int(x), LitVal::Int(y))
        | (Prim::IMul, LitVal::Int(x), LitVal::Int(y))
        | (Prim::IDiv, LitVal::Int(x), LitVal::Int(y))
        | (Prim::IRem, LitVal::Int(x), LitVal::Int(y)) => match int_binary(prim, x, y) {
            Some(z) => Some(lit(LitVal::Int(z))),
            None => Some(SpecControl::Fail(SpecEvalError::DivByZero(prim))),
        },
        (Prim::ICmp(c), LitVal::Int(x), LitVal::Int(y)) => Some(
            lit(LitVal::Bool(holds(c, x as int, y as int))),
        ),
        (Prim::FAdd, LitVal::Float(x), LitVal::Float(y))
        | (Prim::FSub, LitVal::Float(x), LitVal::Float(y))
        | (Prim::FMul, LitVal::Float(x), LitVal::Float(y))
        | (Prim::FDiv, LitVal::Float(x), LitVal::Float(y))
        | (Prim::FCmp(_), LitVal::Float(x), LitVal::Float(y)) => Some(
            SpecControl::Ask(SpecRequest::FloatBinary(prim, x, y)),
        ),
        (Prim::CCmp(c), LitVal::Char(x), LitVal::Char(y)) => Some(
            lit(LitVal::Bool(holds(c, x as int, y as int))),
        ),
        (Prim::BAnd, LitVal::Bool(x), LitVal::Bool(y)) => Some(lit(LitVal::Bool(x && y))),
        (Prim::BOr, LitVal::Bool(x), LitVal::Bool(y)) => Some(lit(LitVal::Bool(x || y))),
        (Prim::BXor, LitVal::Bool(x), LitVal::Bool(y)) => Some(lit(LitVal::Bool(x != y))),
        _ => None,
    }
}

/// What an operation does with its argument values.
///
/// A read, which takes no argument, asks the caller for a line. An operation
/// that gets another number of arguments than it takes, or an argument that
/// is no literal or a literal of another kind, is stuck.
pub open spec fn prim_outcome(prim: Prim, vals: Seq<SpecValue>) -> SpecControl {
    match found_outcome(prim, vals) {
        Some(c) => c,
        None => SpecControl::Fail(SpecEvalError::PrimGotStuck(prim, vals)),
    }
}

/// [`prim_outcome`] where the operation works on the values.
pub open spec fn found_outcome(prim: Prim, vals: Seq<SpecValue>) -> Option<SpecControl> {
    if vals.len() == 0 {
        match prim {
            Prim::IScan | Prim::FScan | Prim::CScan => Some(
                SpecControl::Ask(SpecRequest::ReadLine(prim)),
            ),
            _ => None,
        }
    } else if vals.len() == 1 {
        match vals[0] {
            SpecValue::Lit(a) => unary_outcome(prim, a),
            _ => None,
        }
    } else if vals.len() == 2 {
        match (vals[0], vals[1]) {
            (SpecValue::Lit(a), SpecValue::Lit(b)) => binary_outcome(prim, a, b),
            _ => None,
        }
    } else {
        None
    }
}

/// The view of what an operation is found to do.
pub open spec fn found_view(r: Option<Control<'_>>) -> Option<SpecControl> {
    match r {
        Some(c) => Some(c@),
        None => None,
    }
}

/// [`unary_outcome`], computed.
pub fn apply_unary<'a>(prim: Prim, a: LitVal) -> (r: Option<Control<'a>>)
    ensures
        found_view(r) == unary_outcome(prim, a),
{
    match (prim, a) {
        (Prim::INeg, LitVal::Int(x)) => Some(
            Control::Return(Value::Lit(LitVal::Int(0i64.wrapping_sub(x)))),
        ),
        (Prim::FNeg, LitVal::Float(x)) => Some(Control::Ask(Request::FloatUnary(prim, x))),
        (Prim::BNot, LitVal::Bool(x)) => Some(Control::Return(Value::Lit(LitVal::Bool(!x)))),
        (Prim::IPrint, LitVal::Int(x)) => Some(Control::Ask(Request::Print(show_int(x)))),
        (Prim::FPrint, LitVal::Float(x)) => Some(Control::Ask(Request::ShowFloat(x))),
        (Prim::CPrint, LitVal::Char(x)) => Some(Control::Ask(Request::Print(show_char(x)))),
        _ => None,
    }
}

/// [`binary_outcome`], computed.
pub fn apply_binary<'a>(prim: Prim, a: LitVal, b: LitVal) -> (r: Option<Control<'a>>)
    ensures
        found_view(r) == binary_outcome(prim, a, b),
{
    match (prim, a, b) {
        (Prim::IAdd, LitVal::Int(x), LitVal::Int(y))
        | (Prim::ISub, LitVal::Int(x), LitVal::Int(y))
        | (Prim::IMul, LitVal::Int(x), LitVal::Int(y))
        | (Prim::IDiv, LitVal::Int(x), LitVal::Int(y))
        | (Prim::IRem, LitVal::Int(x), LitVal::Int(y)) => match int_op(prim, x, y) {
            Some(z) => Some(Control::Return(Value::Lit(LitVal::Int(z)))),
            None => Some(Control::Fail(EvalError::DivByZero(prim))),
        },
        (Prim::ICmp(c), LitVal::Int(x), LitVal::Int(y)) => Some(
            Control::Return(Value::Lit(LitVal::Bool(compare_ints(c, x, y)))),
        ),
        (Prim::FAdd, LitVal::Float(x), LitVal::Float(y))
        | (Prim::FSub, LitVal::Float(x), LitVal::Float(y))
        | (Prim::FMul, LitVal::Float(x), LitVal::Float(y))
        | (Prim::FDiv, LitVal::Float(x), LitVal::Float(y))
        | (Prim::FCmp(_), LitVal::Float(x), LitVal::Float(y)) => Some(
            Control::Ask(Request::FloatBinary(prim, x, y)),
        ),
        (Prim::CCmp(c), LitVal::Char(x), LitVal::Char(y)) => Some(
            Control::Return(Value::Lit(LitVal::Bool(compare_chars(c, x, y)))),
        ),
        (Prim::BAnd, LitVal::Bool(x), LitVal::Bool(y)) => Some(
            Control::Return(Value::Lit(LitVal::Bool(x && y))),
        ),
        (Prim::BOr, LitVal::Bool(x), LitVal::Bool(y)) => Some(
            Control::Return(Value::Lit(LitVal::Bool(x || y))),
        ),
        (Prim::BXor, LitVal::Bool(x), LitVal::Bool(y)) => Some(
            Control::Return(Value::Lit(LitVal::Bool(x != y))),
        ),
        _ => None,
    }
}

/// Applies a built-in operation to its argument values: the result, a
/// request to the caller, or a fault.
pub fn apply_prim<'a>(prim: Prim, vals: Vec<Value<'a>>) -> (r: Control<'a>)
    ensures
        r@ == prim_outcome(prim, values_view(vals@)),
{
    proof {
        lemma_values_view(vals@);
    }
    let found: Option<Control<'a>> = if vals.len() == 0 {
        match prim {
            Prim::IScan | Prim::FScan | Prim::CScan => Some(Control::Ask(Request::ReadLine(prim))),
            _ => None,
        }
    } else if vals.len() == 1 {
        match &vals[0] {
            Value::Lit(a) => apply_unary(prim, *a),
            _ => None,
        }
    } else if vals.len() == 2 {
        match (&vals[0], &vals[1]) {
            (Value::Lit(a), Value::Lit(b)) => apply_binary(prim, *a, *b),
            _ => None,
        }
    } else {
        None
    };
    match found {
        Some(c) => c,
        None => Control::Fail(EvalError::PrimGotStuck(prim, vals)),
    }
}

} // verus!
