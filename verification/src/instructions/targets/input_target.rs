use vstd::prelude::*;
use crate::error::EzasmError;
use crate::instructions::targets::{Target, TargetKind};
use crate::simulation::simulator::{Simulator, SimulatorState};
use crate::simulation::memory::lemma_interned_addresses;
use crate::util::raw_data::{fits, lemma_from_int_round_trip, RawData};

verus! {

/// A target that can produce a value from the simulator's state. Producing
/// one never changes the state.
pub trait Input: Target {
    /// What `get` gives in a given state.
    spec fn spec_get(&self, state: SimulatorState) -> Result<RawData, EzasmError>;

    fn get(&self, simulator: &Simulator) -> (found: Result<RawData, EzasmError>)
        requires
            simulator.wf(),
        ensures
            found == self.spec_get(simulator@),
    ;
}

/// The targets that can only produce a value.
#[derive(Debug, PartialEq, Eq)]
pub enum InputTarget {
    /// A literal word.
    ImmediateInput(RawData),
    /// The name of a label; it stands for the label's line number.
    LabelReferenceInput(String),
    /// The content of a string; it stands for the address of the
    /// interned copy.
    StringInput(String),
}

impl InputTarget {
    /// The target for a literal word.
    pub fn new_immediate(data: RawData) -> (target: InputTarget)
        ensures
            target == InputTarget::ImmediateInput(data),
    {
        Self::ImmediateInput(data)
    }

    /// The target for the label of this name.
    pub fn new_label_reference(data: &String) -> (target: InputTarget)
        ensures
            target == InputTarget::LabelReferenceInput(*data),
    {
        Self::LabelReferenceInput(data.clone())
    }

    /// The target for a string of this content.
    pub fn new_string(data: &String) -> (target: InputTarget)
        ensures
            target == InputTarget::StringInput(*data),
    {
        Self::StringInput(data.clone())
    }
}

impl Target for InputTarget {
    open spec fn spec_kind(&self) -> TargetKind {
        match self {
            InputTarget::ImmediateInput(_) => TargetKind::Immediate,
            InputTarget::LabelReferenceInput(_) => TargetKind::LabelReference,
            InputTarget::StringInput(_) => TargetKind::StringReference,
        }
    }

    fn kind(&self) -> (kind: TargetKind) {
        match self {
            InputTarget::ImmediateInput(_) => TargetKind::Immediate,
            InputTarget::LabelReferenceInput(_) => TargetKind::LabelReference,
            InputTarget::StringInput(_) => TargetKind::StringReference,
        }
    }
}

impl Input for InputTarget {
    /// An immediate is its own value. A label stands for its line number
    /// as a word of the active configuration. A string stands for the
    /// address it was interned at.
    open spec fn spec_get(&self, state: SimulatorState) -> Result<RawData, EzasmError> {
        match self {
            InputTarget::ImmediateInput(data) => Ok(*data),
            InputTarget::LabelReferenceInput(name) => if state.labels.dom().contains(name@) {
                Ok(RawData::spec_from_int(state.labels[name@] as int, state.word_size))
            } else {
                Err(EzasmError::UnknownLabel(*name))
            },
            InputTarget::StringInput(content) => if state.strings.dom().contains(content@) {
                Ok(state.strings[content@])
            } else {
                Err(EzasmError::UnknownString(*content))
            },
        }
    }

    fn get(&self, simulator: &Simulator) -> (found: Result<RawData, EzasmError>) {
        match self {
            InputTarget::ImmediateInput(data) => Ok(*data),
            InputTarget::LabelReferenceInput(name) => match simulator.get_label_line_number(name) {
                Ok(line) => Ok(RawData::from_int(line, simulator.get_word_size())),
                Err(error) => Err(error),
            },
            InputTarget::StringInput(content) => match simulator.get_memory().get_string_immediate_address(
                content,
            ) {
                Ok(address) => Ok(*address),
                Err(error) => Err(error),
            },
        }
    }
}

impl Clone for InputTarget {
    fn clone(&self) -> (copy: Self)
        ensures
            copy == *self,
    {
        match self {
            Self::ImmediateInput(data) => Self::ImmediateInput(*data),
            Self::LabelReferenceInput(name) => Self::LabelReferenceInput(name.clone()),
            Self::StringInput(content) => Self::StringInput(content.clone()),
        }
    }
}

/// An immediate target gives exactly the word it was built from, in
/// every state.
pub proof fn lemma_immediate_identity(value: RawData, state: SimulatorState)
    ensures
        InputTarget::ImmediateInput(value).spec_get(state) == Ok::<RawData, EzasmError>(value),
{
}

/// A reference to a label defined at `line` gives a word whose signed
/// value is `line`, provided that `line` is within the signed range of
/// the active width.
pub proof fn lemma_label_resolution(name: String, line: i64, state: SimulatorState)
    requires
        state.word_size.wf(),
        state.labels.dom().contains(name@),
        state.labels[name@] == line,
        fits(line as int, state.word_size),
    ensures
        InputTarget::LabelReferenceInput(name).spec_get(state) matches Ok(word)
            && word.spec_int_value() == line,
{
    lemma_from_int_round_trip(line as int, state.word_size);
}

/// Two references to the same interned content give the same address,
/// however often they are resolved.
pub proof fn lemma_string_same_address(first: String, second: String, state: SimulatorState)
    requires
        first@ == second@,
        state.strings.dom().contains(first@),
    ensures
        InputTarget::StringInput(first).spec_get(state) is Ok,
        InputTarget::StringInput(first).spec_get(state) == InputTarget::StringInput(
            second,
        ).spec_get(state),
{
}

/// References to two different interned contents give different
/// addresses.
pub proof fn lemma_string_no_aliasing(first: String, second: String, simulator: Simulator)
    requires
        simulator.wf(),
        first@ != second@,
        simulator@.strings.dom().contains(first@),
        simulator@.strings.dom().contains(second@),
    ensures
        InputTarget::StringInput(first).spec_get(simulator@) matches Ok(one)
            && InputTarget::StringInput(second).spec_get(simulator@) matches Ok(other) && one
            != other,
{
    lemma_interned_addresses(simulator.spec_memory(), first@, second@);
}

} // verus!
