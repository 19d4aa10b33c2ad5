//! A small explicitly typed intermediate language with universal and
//! existential quantification: its data model, a static checker and an
//! evaluator, each function carrying a machine-checked contract.
//!
//! [`corelang::check`] gives an expression its type or the first fault in
//! it. [`corelang::eval`] runs a program on an abstract machine that asks its
//! caller for input, output and floating-point arithmetic. Two theorems tie
//! them together: substitution keeps types well formed
//! ([`corelang::wellformed`]), and a checked program of the fragment that
//! [`corelang::fragment`] describes does not get stuck
//! ([`corelang::soundness`]).

pub mod common;
pub mod corelang;
