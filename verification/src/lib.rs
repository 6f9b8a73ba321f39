pub mod config;
pub mod idempotence;
pub mod laws;
pub mod names;
pub mod parser;
pub mod printer;
pub mod syntax;
pub mod tags;
pub mod text;
pub mod value;
