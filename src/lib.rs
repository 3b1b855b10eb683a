pub mod eval;
pub mod laws;
pub mod lexer;
