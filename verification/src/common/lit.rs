//! Literal values and their types.

use vstd::prelude::*;

verus! {

/// The type of a literal.
#[derive(Clone, Copy, Debug, Hash, PartialEq, Eq, PartialOrd, Ord, Structural)]
pub enum LitType {
    TyInt,
    TyFloat,
    TyChar,
    TyBool,
    TyUnit,
}

/// A literal value.
///
/// A floating-point literal is held as the bit pattern of its IEEE-754
/// binary64 encoding; nothing in this library computes with it.
#[derive(Clone, Copy, Debug, Hash, PartialEq, Eq, PartialOrd, Ord, Structural)]
pub enum LitVal {
    Int(i64),
    Float(u64),
    Char(char),
    Bool(bool),
    Unit,
}

impl LitVal {
    /// The type of a literal, which its tag alone decides.
    pub open spec fn typ(self) -> LitType {
        match self {
            LitVal::Int(_) => LitType::TyInt,
            LitVal::Float(_) => LitType::TyFloat,
            LitVal::Char(_) => LitType::TyChar,
            LitVal::Bool(_) => LitType::TyBool,
            LitVal::Unit => LitType::TyUnit,
        }
    }

    pub fn get_typ(&self) -> (t: LitType)
        ensures
            t == self.typ(),
    {
        match self {
            LitVal::Int(_) => LitType::TyInt,
            LitVal::Float(_) => LitType::TyFloat,
            LitVal::Char(_) => LitType::TyChar,
            LitVal::Bool(_) => LitType::TyBool,
            LitVal::Unit => LitType::TyUnit,
        }
    }
}

} // verus!
