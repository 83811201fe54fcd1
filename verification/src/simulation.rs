pub mod memory;
pub mod registry;
pub mod simulator;
