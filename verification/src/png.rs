pub mod chunk;
pub mod grammar;
