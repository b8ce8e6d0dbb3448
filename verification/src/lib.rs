pub mod atom;
pub mod diagnostics;
pub mod lexer;
pub mod position;
pub mod text;
pub mod token;
