pub mod expr;
pub mod grammar;
pub mod native;
pub mod parser;
pub mod resolution;
pub mod resolver;
pub mod scanner;
pub mod stmt;
pub mod text;
pub mod token;
