//! The types of the language, under a module of their own.

pub use crate::corelang::syntax::{SpecType, Type};
