pub mod builtins;
pub mod env;
pub mod evaluator;
pub mod laws;
pub mod printer;
pub mod reader;
mod text;
pub mod types;
