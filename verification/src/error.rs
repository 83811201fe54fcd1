use vstd::prelude::*;
use crate::instructions::targets::{Capability, TargetKind};

verus! {

/// Everything that resolving an operand or running an instruction can
/// fail with.
#[derive(Debug, PartialEq, Eq)]
pub enum EzasmError {
    /// No register of this name exists.
    UnknownRegister(String),
    /// No label of this name was defined.
    UnknownLabel(String),
    /// The string was never interned, or memory had no room for it.
    UnknownString(String),
    /// The address does not lie within memory.
    OutOfRange(i64),
    /// An instruction was given another number of arguments than it declares.
    ArityMismatch { expected: usize, actual: usize },
    /// The argument at `position` cannot do what the parameter requires.
    CapabilityMismatch { position: usize, required: Capability, found: TargetKind },
    /// No instruction of this name is registered.
    UnknownInstruction(String),
    /// The text is not a numeric literal.
    NumericParseError(String),
}

impl Clone for EzasmError {
    fn clone(&self) -> (copy: Self)
        ensures
            copy == *self,
    {
        match self {
            EzasmError::UnknownRegister(name) => EzasmError::UnknownRegister(name.clone()),
            EzasmError::UnknownLabel(name) => EzasmError::UnknownLabel(name.clone()),
            EzasmError::UnknownString(content) => EzasmError::UnknownString(content.clone()),
            EzasmError::OutOfRange(address) => EzasmError::OutOfRange(*address),
            EzasmError::ArityMismatch { expected, actual } => EzasmError::ArityMismatch {
                expected: *expected,
                actual: *actual,
            },
            EzasmError::CapabilityMismatch { position, required, found } => {
                EzasmError::CapabilityMismatch {
                    position: *position,
                    required: *required,
                    found: *found,
                }
            },
            EzasmError::UnknownInstruction(name) => EzasmError::UnknownInstruction(name.clone()),
            EzasmError::NumericParseError(text) => EzasmError::NumericParseError(text.clone()),
        }
    }
}

} // verus!
