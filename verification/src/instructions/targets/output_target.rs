use vstd::prelude::*;
use crate::error::EzasmError;
use crate::instructions::targets::{Target, TargetKind};
use crate::simulation::memory::{encode, splice};
use crate::simulation::simulator::{Simulator, SimulatorState};
use crate::util::raw_data::RawData;

verus! {

/// A target that can accept a value and apply it to the simulator's
/// state.
pub trait Output: Target {
    /// The state that `set` leaves and what it returns, given the state
    /// it starts from.
    spec fn spec_set(&self, state: SimulatorState, data: RawData) -> (
        SimulatorState,
        Result<(), EzasmError>,
    );

    fn set(&self, simulator: &mut Simulator, data: RawData) -> (done: Result<(), EzasmError>)
        requires
            old(simulator).wf(),
        ensures
            final(simulator).wf(),
            final(simulator)@ == self.spec_set(old(simulator)@, data).0,
            done == self.spec_set(old(simulator)@, data).1,
    ;
}

/// The nearest integer to `value` that a 64-bit signed integer can hold.
pub open spec fn saturate(value: int) -> i64 {
    if value < i64::MIN {
        i64::MIN
    } else if value > i64::MAX {
        i64::MAX
    } else {
        value as i64
    }
}

/// The targets that can only accept a value.
#[derive(Debug, PartialEq, Eq)]
pub enum OutputTarget {
    /// The memory address that lies `offset` bytes past what `register`
    /// holds.
    AddressOutput { register: String, offset: i64 },
}

impl OutputTarget {
    /// The target for the address `offset` bytes past what `register` holds.
    pub fn new_address(register: &String, offset: i64) -> (target: OutputTarget)
        ensures
            target == (OutputTarget::AddressOutput { register: *register, offset }),
    {
        Self::AddressOutput { register: register.clone(), offset }
    }
}

impl Target for OutputTarget {
    open spec fn spec_kind(&self) -> TargetKind {
        TargetKind::Address
    }

    fn kind(&self) -> (kind: TargetKind) {
        TargetKind::Address
    }
}

impl Output for OutputTarget {
    /// The address is the register's signed value plus the offset. The
    /// word is written there in its own width; an address at which it
    /// does not fit into memory is refused and nothing changes.
    open spec fn spec_set(&self, state: SimulatorState, data: RawData) -> (
        SimulatorState,
        Result<(), EzasmError>,
    ) {
        match self {
            OutputTarget::AddressOutput { register, offset } => if !state.registers.dom().contains(
                register@,
            ) {
                (state, Err(EzasmError::UnknownRegister(*register)))
            } else {
                let address = saturate(state.registers[register@].spec_int_value() + *offset);
                let count = data.spec_word_size().spec_bytes();
                if 0 <= address && address + count <= state.bytes.len() {
                    (
                        SimulatorState {
                            bytes: splice(
                                state.bytes,
                                address as int,
                                encode(data.spec_bits(), count as nat),
                            ),
                            ..state
                        },
                        Ok(()),
                    )
                } else {
                    (state, Err(EzasmError::OutOfRange(address)))
                }
            },
        }
    }

    fn set(&self, simulator: &mut Simulator, data: RawData) -> (done: Result<(), EzasmError>) {
        match self {
            OutputTarget::AddressOutput { register, offset } => {
                let base: i64 = match simulator.get_registers().get_register(register) {
                    Ok(found) => found.get_data().int_value(),
                    Err(error) => {
                        return Err(error);
                    },
                };
                let sum: i128 = base as i128 + *offset as i128;
                let address: i64 = if sum < i64::MIN as i128 {
                    i64::MIN
                } else if sum > i64::MAX as i128 {
                    i64::MAX
                } else {
                    sum as i64
                };
                let done = simulator.get_memory_mut().write(address, &data);
                done
            },
        }
    }
}

impl Clone for OutputTarget {
    fn clone(&self) -> (copy: Self)
        ensures
            copy == *self,
    {
        match self {
            Self::AddressOutput { register, offset } => Self::AddressOutput {
                register: register.clone(),
                offset: *offset,
            },
        }
    }
}

} // verus!
