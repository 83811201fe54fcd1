pub mod lexer;
pub mod line;
