pub mod error;
pub mod lexer;
pub mod parser;
pub mod eval;
pub mod environment;
pub mod run;
