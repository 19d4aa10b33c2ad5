//! What the language shares with its surroundings: literals, names, built-in
//! operations, and the text of input and output lines.

pub mod lit;
pub mod name;
pub mod prim;
pub mod text;
