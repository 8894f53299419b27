pub mod decoder;
pub mod grammar;
