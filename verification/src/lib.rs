pub mod error;
pub mod font;
pub mod jpeg;
pub mod png;
