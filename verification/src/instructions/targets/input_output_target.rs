use vstd::prelude::*;
use crate::error::EzasmError;
use crate::instructions::targets::input_target::Input;
use crate::instructions::targets::output_target::Output;
use crate::instructions::targets::{Target, TargetKind};
use crate::simulation::simulator::{Simulator, SimulatorState};
use crate::util::raw_data::RawData;

verus! {

/// The targets that can both produce and accept a value.
#[derive(Debug, PartialEq, Eq)]
pub enum InputOutputTarget {
    /// The register of this name.
    RegisterInputOutput(String),
}

impl InputOutputTarget {
    /// The target for the register of this name.
    pub fn new_register(name: &String) -> (target: InputOutputTarget)
        ensures
            target == InputOutputTarget::RegisterInputOutput(*name),
    {
        Self::RegisterInputOutput(name.clone())
    }
}

impl Target for InputOutputTarget {
    open spec fn spec_kind(&self) -> TargetKind {
        TargetKind::Register
    }

    fn kind(&self) -> (kind: TargetKind) {
        TargetKind::Register
    }
}

impl Input for InputOutputTarget {
    /// A register stands for the word it holds.
    open spec fn spec_get(&self, state: SimulatorState) -> Result<RawData, EzasmError> {
        match self {
            InputOutputTarget::RegisterInputOutput(name) => if state.registers.dom().contains(
                name@,
            ) {
                Ok(state.registers[name@])
            } else {
                Err(EzasmError::UnknownRegister(*name))
            },
        }
    }

    fn get(&self, simulator: &Simulator) -> (found: Result<RawData, EzasmError>) {
        match self {
            InputOutputTarget::RegisterInputOutput(name) => match simulator.get_registers().get_register(
                name,
            ) {
                Ok(register) => Ok(*register.get_data()),
                Err(error) => Err(error),
            },
        }
    }
}

impl Output for InputOutputTarget {
    /// A register that exists then holds the word; nothing else changes.
    open spec fn spec_set(&self, state: SimulatorState, data: RawData) -> (
        SimulatorState,
        Result<(), EzasmError>,
    ) {
        match self {
            InputOutputTarget::RegisterInputOutput(name) => if state.registers.dom().contains(
                name@,
            ) {
                (
                    SimulatorState { registers: state.registers.insert(name@, data), ..state },
                    Ok(()),
                )
            } else {
                (state, Err(EzasmError::UnknownRegister(*name)))
            },
        }
    }

    fn set(&self, simulator: &mut Simulator, data: RawData) -> (done: Result<(), EzasmError>) {
        match self {
            InputOutputTarget::RegisterInputOutput(name) => {
                let done = simulator.get_registers_mut().set_register(name, data);
                done
            },
        }
    }
}

impl Clone for InputOutputTarget {
    fn clone(&self) -> (copy: Self)
        ensures
            copy == *self,
    {
        match self {
            Self::RegisterInputOutput(name) => Self::RegisterInputOutput(name.clone()),
        }
    }
}

/// A word written to a register that exists is the word read from it
/// next, unchanged.
pub proof fn lemma_register_round_trip(name: String, data: RawData, state: SimulatorState)
    requires
        state.registers.dom().contains(name@),
    ensures
        InputOutputTarget::RegisterInputOutput(name).spec_set(state, data).1 == Ok::<
            (),
            EzasmError,
        >(()),
        InputOutputTarget::RegisterInputOutput(name).spec_get(
            InputOutputTarget::RegisterInputOutput(name).spec_set(state, data).0,
        ) == Ok::<RawData, EzasmError>(data),
{
}

/// Writing to a register leaves every other register, and everything
/// that is not a register, as it was.
pub proof fn lemma_register_write_frame(
    name: String,
    other: String,
    data: RawData,
    state: SimulatorState,
)
    requires
        name@ != other@,
    ensures
        InputOutputTarget::RegisterInputOutput(other).spec_get(
            InputOutputTarget::RegisterInputOutput(name).spec_set(state, data).0,
        ) == InputOutputTarget::RegisterInputOutput(other).spec_get(state),
        InputOutputTarget::RegisterInputOutput(name).spec_set(state, data).0 == (SimulatorState {
            registers: InputOutputTarget::RegisterInputOutput(name).spec_set(
                state,
                data,
            ).0.registers,
            ..state
        }),
{
}

} // verus!
