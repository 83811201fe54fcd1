use vstd::prelude::*;
use crate::error::EzasmError;
use crate::instructions::targets::input_output_target::InputOutputTarget;
use crate::instructions::targets::input_target::{Input, InputTarget};
use crate::instructions::targets::output_target::{Output, OutputTarget};
use crate::instructions::targets::{Capability, Target, TargetKind};
use crate::simulation::simulator::{Simulator, SimulatorState};
use crate::util::raw_data::RawData;

verus! {

/// One resolved operand, as it is handed to an instruction.
#[derive(Debug, PartialEq, Eq)]
pub enum ArgumentType {
    Input(InputTarget),
    InputOutput(InputOutputTarget),
    Output(OutputTarget),
}

/// What an operand is, as mathematical values: its variant and the
/// characters and numbers that it carries.
pub enum Operand {
    Immediate(RawData),
    Label(Seq<char>),
    Text(Seq<char>),
    Register(Seq<char>),
    Address { register: Seq<char>, offset: i64 },
}

impl View for ArgumentType {
    type V = Operand;

    open spec fn view(&self) -> Operand {
        match self {
            ArgumentType::Input(InputTarget::ImmediateInput(data)) => Operand::Immediate(*data),
            ArgumentType::Input(InputTarget::LabelReferenceInput(name)) => Operand::Label(name@),
            ArgumentType::Input(InputTarget::StringInput(content)) => Operand::Text(content@),
            ArgumentType::InputOutput(InputOutputTarget::RegisterInputOutput(name)) => {
                Operand::Register(name@)
            },
            ArgumentType::Output(OutputTarget::AddressOutput { register, offset }) => {
                Operand::Address { register: register@, offset: *offset }
            },
        }
    }
}

impl Target for ArgumentType {
    open spec fn spec_kind(&self) -> TargetKind {
        match self {
            ArgumentType::Input(target) => target.spec_kind(),
            ArgumentType::InputOutput(target) => target.spec_kind(),
            ArgumentType::Output(target) => target.spec_kind(),
        }
    }

    fn kind(&self) -> (kind: TargetKind) {
        match self {
            ArgumentType::Input(target) => target.kind(),
            ArgumentType::InputOutput(target) => target.kind(),
            ArgumentType::Output(target) => target.kind(),
        }
    }
}

impl ArgumentType {
    /// What reading the operand gives when it stands at `position`: the
    /// value of a target that can produce one, a mismatch for one that
    /// cannot.
    pub open spec fn spec_read(&self, state: SimulatorState, position: usize) -> Result<
        RawData,
        EzasmError,
    > {
        match self {
            ArgumentType::Input(target) => target.spec_get(state),
            ArgumentType::InputOutput(target) => target.spec_get(state),
            ArgumentType::Output(target) => Err(
                EzasmError::CapabilityMismatch {
                    position,
                    required: Capability::Input,
                    found: target.spec_kind(),
                },
            ),
        }
    }

    /// Reads the operand that stands at `position`.
    pub fn read(&self, simulator: &Simulator, position: usize) -> (found: Result<
        RawData,
        EzasmError,
    >)
        requires
            simulator.wf(),
        ensures
            found == self.spec_read(simulator@, position),
    {
        match self {
            ArgumentType::Input(target) => target.get(simulator),
            ArgumentType::InputOutput(target) => target.get(simulator),
            ArgumentType::Output(target) => Err(
                EzasmError::CapabilityMismatch {
                    position,
                    required: Capability::Input,
                    found: target.kind(),
                },
            ),
        }
    }

    /// The state that writing `data` to the operand at `position` leaves,
    /// and what the write returns: the effect of a target that can accept
    /// a value, a mismatch and no change for one that cannot.
    pub open spec fn spec_write(&self, state: SimulatorState, position: usize, data: RawData) -> (
        SimulatorState,
        Result<(), EzasmError>,
    ) {
        match self {
            ArgumentType::Input(target) => (
                state,
                Err(
                    EzasmError::CapabilityMismatch {
                        position,
                        required: Capability::Output,
                        found: target.spec_kind(),
                    },
                ),
            ),
            ArgumentType::InputOutput(target) => target.spec_set(state, data),
            ArgumentType::Output(target) => target.spec_set(state, data),
        }
    }

    /// Writes `data` to the operand that stands at `position`.
    pub fn write(&self, simulator: &mut Simulator, position: usize, data: RawData) -> (done: Result<
        (),
        EzasmError,
    >)
        requires
            old(simulator).wf(),
        ensures
            final(simulator).wf(),
            final(simulator)@ == self.spec_write(old(simulator)@, position, data).0,
            done == self.spec_write(old(simulator)@, position, data).1,
    {
        match self {
            ArgumentType::Input(target) => Err(
                EzasmError::CapabilityMismatch {
                    position,
                    required: Capability::Output,
                    found: target.kind(),
                },
            ),
            ArgumentType::InputOutput(target) => target.set(simulator, data),
            ArgumentType::Output(target) => target.set(simulator, data),
        }
    }
}

impl Clone for ArgumentType {
    fn clone(&self) -> (copy: Self)
        ensures
            copy == *self,
    {
        match self {
            Self::Input(target) => Self::Input(target.clone()),
            Self::InputOutput(target) => Self::InputOutput(target.clone()),
            Self::Output(target) => Self::Output(target.clone()),
        }
    }
}

} // verus!
