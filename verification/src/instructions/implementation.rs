pub mod arithmetic_instructions;
