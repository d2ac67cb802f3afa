//! Text of a port selection: characters, numbers and the grammar over them.

pub mod canonical;
pub mod laws;
pub mod number;
pub mod parser;
pub mod text;
