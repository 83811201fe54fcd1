pub mod error;
pub mod instructions;
pub mod parser;
pub mod simulation;
pub mod util;
