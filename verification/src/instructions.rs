pub mod argument_type;
pub mod implementation;
pub mod instruction_field;
pub mod targets;
