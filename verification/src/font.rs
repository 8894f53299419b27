pub mod grammar;
pub mod parser;
