pub mod environment;
pub mod expr;
pub mod interpreter;
pub mod number;
pub mod parser;
pub mod scanner;
pub mod stmt;
