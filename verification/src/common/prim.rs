//! The built-in operations and their types.

use vstd::prelude::*;
use crate::common::lit::LitType;
use crate::corelang::syntax::{SpecType, Type, type_model, types_view};

verus! {

/// The six comparisons.
#[derive(Clone, Copy, Debug, Hash, PartialEq, Eq, PartialOrd, Ord, Structural)]
pub enum Compare {
    Lt,
    Le,
    Eq,
    Ne,
    Ge,
    Gt,
}

/// A built-in operation.
#[derive(Clone, Copy, Debug, Hash, PartialEq, Eq, PartialOrd, Ord, Structural)]
pub enum Prim {
    /// fn(Int) -> Int
    INeg,
    /// fn(Int, Int) -> Int
    IAdd,
    ISub,
    IMul,
    IDiv,
    IRem,
    /// fn(Int, Int) -> Bool
    ICmp(Compare),
    /// fn(Float) -> Float
    FNeg,
    /// fn(Float, Float) -> Float
    FAdd,
    FSub,
    FMul,
    FDiv,
    /// fn(Float, Float) -> Bool
    FCmp(Compare),
    /// fn(Char, Char) -> Bool
    CCmp(Compare),
    /// fn(Bool) -> Bool
    BNot,
    /// fn(Bool, Bool) -> Bool
    BAnd,
    BOr,
    BXor,
    /// fn() -> Int, reading a line of input
    IScan,
    /// fn() -> Float, reading a line of input
    FScan,
    /// fn() -> Char, reading a line of input
    CScan,
    /// fn(Int) -> (), writing a line of output
    IPrint,
    /// fn(Float) -> (), writing a line of output
    FPrint,
    /// fn(Char) -> (), writing a line of output
    CPrint,
}

/// The type of a function that takes `arity` arguments of type `operand` and
/// returns a `result`.
pub open spec fn lit_func(operand: LitType, arity: nat, result: LitType) -> SpecType {
    SpecType::Func {
        pars: Seq::new(arity, |i: int| SpecType::Lit { lit: operand }),
        res: Box::new(SpecType::Lit { lit: result }),
    }
}

pub fn unop(lit: LitType) -> (t: Type)
    ensures
        t@ == lit_func(lit, 1, lit),
{
    let t = Type::Func { pars: vec![Type::Lit { lit }], res: Box::new(Type::Lit { lit }) };
    proof {
        reveal_with_fuel(type_model, 2);
        reveal_with_fuel(types_view, 2);
        assert(type_model(Type::Lit { lit }) == SpecType::Lit { lit });
    }
    assert(t@->Func_pars =~= lit_func(lit, 1, lit)->Func_pars);
    t
}

pub fn binop(lit: LitType) -> (t: Type)
    ensures
        t@ == lit_func(lit, 2, lit),
{
    let t = Type::Func {
        pars: vec![Type::Lit { lit }, Type::Lit { lit }],
        res: Box::new(Type::Lit { lit }),
    };
    proof {
        reveal_with_fuel(type_model, 2);
        reveal_with_fuel(types_view, 2);
        assert(type_model(Type::Lit { lit }) == SpecType::Lit { lit });
    }
    assert(t@->Func_pars =~= lit_func(lit, 2, lit)->Func_pars);
    t
}

pub fn binop_comp(lit: LitType) -> (t: Type)
    ensures
        t@ == lit_func(lit, 2, LitType::TyBool),
{
    let t = Type::Func {
        pars: vec![Type::Lit { lit }, Type::Lit { lit }],
        res: Box::new(Type::Lit { lit: LitType::TyBool }),
    };
    proof {
        reveal_with_fuel(type_model, 2);
        reveal_with_fuel(types_view, 2);
        assert(type_model(Type::Lit { lit }) == SpecType::Lit { lit });
    }
    assert(t@->Func_pars =~= lit_func(lit, 2, LitType::TyBool)->Func_pars);
    t
}

pub fn scan(lit: LitType) -> (t: Type)
    ensures
        t@ == lit_func(lit, 0, lit),
{
    let t = Type::Func { pars: Vec::new(), res: Box::new(Type::Lit { lit }) };
    proof {
        reveal_with_fuel(type_model, 2);
        reveal_with_fuel(types_view, 2);
        assert(type_model(Type::Lit { lit }) == SpecType::Lit { lit });
    }
    assert(t@->Func_pars =~= lit_func(lit, 0, lit)->Func_pars);
    t
}

pub fn print(lit: LitType) -> (t: Type)
    ensures
        t@ == lit_func(lit, 1, LitType::TyUnit),
{
    let t = Type::Func {
        pars: vec![Type::Lit { lit }],
        res: Box::new(Type::Lit { lit: LitType::TyUnit }),
    };
    proof {
        reveal_with_fuel(type_model, 2);
        reveal_with_fuel(types_view, 2);
        assert(type_model(Type::Lit { lit }) == SpecType::Lit { lit });
    }
    assert(t@->Func_pars =~= lit_func(lit, 1, LitType::TyUnit)->Func_pars);
    t
}

impl Prim {
    /// The literal type that the operation works on: that of its arguments,
    /// or for a read that of its result.
    pub open spec fn operand(self) -> LitType {
        match self {
            Prim::INeg | Prim::IAdd | Prim::ISub | Prim::IMul | Prim::IDiv | Prim::IRem
            | Prim::ICmp(_) | Prim::IScan | Prim::IPrint => LitType::TyInt,
            Prim::FNeg | Prim::FAdd | Prim::FSub | Prim::FMul | Prim::FDiv | Prim::FCmp(_)
            | Prim::FScan | Prim::FPrint => LitType::TyFloat,
            Prim::CCmp(_) | Prim::CScan | Prim::CPrint => LitType::TyChar,
            Prim::BNot | Prim::BAnd | Prim::BOr | Prim::BXor => LitType::TyBool,
        }
    }

    /// How many arguments the operation takes.
    pub open spec fn arity(self) -> nat {
        match self {
            Prim::IScan | Prim::FScan | Prim::CScan => 0,
            Prim::INeg | Prim::FNeg | Prim::BNot | Prim::IPrint | Prim::FPrint
            | Prim::CPrint => 1,
            _ => 2,
        }
    }

    /// The literal type of the operation's result.
    pub open spec fn result(self) -> LitType {
        match self {
            Prim::ICmp(_) | Prim::FCmp(_) | Prim::CCmp(_) => LitType::TyBool,
            Prim::IPrint | Prim::FPrint | Prim::CPrint => LitType::TyUnit,
            _ => self.operand(),
        }
    }

    /// The fixed function type of the operation.
    pub open spec fn typ(self) -> SpecType {
        lit_func(self.operand(), self.arity(), self.result())
    }

    pub fn get_type(&self) -> (t: Type)
        ensures
            t@ == self.typ(),
    {
        match self {
            Prim::INeg => unop(LitType::TyInt),
            Prim::IAdd => binop(LitType::TyInt),
            Prim::ISub => binop(LitType::TyInt),
            Prim::IMul => binop(LitType::TyInt),
            Prim::IDiv => binop(LitType::TyInt),
            Prim::IRem => binop(LitType::TyInt),
            Prim::ICmp(_) => binop_comp(LitType::TyInt),
            Prim::FNeg => unop(LitType::TyFloat),
            Prim::FAdd => binop(LitType::TyFloat),
            Prim::FSub => binop(LitType::TyFloat),
            Prim::FMul => binop(LitType::TyFloat),
            Prim::FDiv => binop(LitType::TyFloat),
            Prim::FCmp(_) => binop_comp(LitType::TyFloat),
            Prim::CCmp(_) => binop_comp(LitType::TyChar),
            Prim::BNot => unop(LitType::TyBool),
            Prim::BAnd => binop(LitType::TyBool),
            Prim::BOr => binop(LitType::TyBool),
            Prim::BXor => binop(LitType::TyBool),
            Prim::IScan => scan(LitType::TyInt),
            Prim::FScan => scan(LitType::TyFloat),
            Prim::CScan => scan(LitType::TyChar),
            Prim::IPrint => print(LitType::TyInt),
            Prim::FPrint => print(LitType::TyFloat),
            Prim::CPrint => print(LitType::TyChar),
        }
    }
}

} // verus!
