//! The language itself: its syntax, its checkers, its evaluator, and what is
//! proved of them.

/// Well-formed types, substitution and the typing of expressions.
pub mod check;
/// Values, environments, the machine's state, and running a program.
pub mod eval;
/// The programs that do not get stuck once they pass the check.
pub mod fragment;
/// A checker that keeps the variables in scope in a list.
pub mod infer;
/// The steps of the machine.
pub mod machine;
/// What the built-in operations do.
pub mod primop;
/// The persistent collections that the scopes of the checker are kept in.
pub mod scope;
/// Simple and scoped types, and substitution on them.
pub mod simple;
/// Checked programs of the fragment do not get stuck.
pub mod soundness;
/// Types, expressions, declarations, programs.
pub mod syntax;
/// The types, under a module of their own.
pub mod typ;
/// Substitution keeps types well formed.
pub mod wellformed;
