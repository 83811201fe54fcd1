use vstd::prelude::*;
use crate::error::EzasmError;
use crate::instructions::argument_type::ArgumentType;
use crate::instructions::targets::{
    spec_satisfies, standard_capabilities, Capability, CapabilitySet, Target, TargetKind,
};
use crate::simulation::simulator::{Simulator, SimulatorState};
use crate::util::name_map::NameMap;

verus! {

/// The body of an instruction: what it does to the simulator, given its
/// resolved arguments. A body that fails part of the way leaves the state
/// as changed as it was by then; nothing is rolled back.
pub trait InstructionFunction {
    /// The state that the body leaves and what it returns, given the
    /// state it starts from.
    spec fn spec_effect(&self, state: SimulatorState, arguments: Seq<ArgumentType>) -> (
        SimulatorState,
        Result<(), EzasmError>,
    );

    fn execute(&self, simulator: &mut Simulator, arguments: &Vec<ArgumentType>) -> (done: Result<
        (),
        EzasmError,
    >)
        requires
            old(simulator).wf(),
        ensures
            final(simulator).wf(),
            final(simulator)@ == self.spec_effect(old(simulator)@, arguments@).0,
            done == self.spec_effect(old(simulator)@, arguments@).1,
    ;
}

/// Whether the argument at `position` may stand where the parameter at
/// `position` asks for its capability.
pub open spec fn accepted_at(
    table: Map<TargetKind, CapabilitySet>,
    parameters: Seq<Capability>,
    arguments: Seq<ArgumentType>,
    position: int,
) -> bool {
    spec_satisfies(table, arguments[position].spec_kind(), parameters[position])
}

/// The first position from `from` on at which the argument is not
/// accepted, if there is one.
pub open spec fn mismatch_from(
    table: Map<TargetKind, CapabilitySet>,
    parameters: Seq<Capability>,
    arguments: Seq<ArgumentType>,
    from: int,
) -> Option<int>
    decreases parameters.len() - from,
{
    if from < 0 || from >= parameters.len() {
        None
    } else if !accepted_at(table, parameters, arguments, from) {
        Some(from)
    } else {
        mismatch_from(table, parameters, arguments, from + 1)
    }
}

/// The first position at which the argument is not accepted, if there is
/// one.
pub open spec fn first_mismatch(
    table: Map<TargetKind, CapabilitySet>,
    parameters: Seq<Capability>,
    arguments: Seq<ArgumentType>,
) -> Option<int> {
    mismatch_from(table, parameters, arguments, 0)
}

/// What `mismatch_from` finds is a position that is not accepted and
/// that no unaccepted position precedes; it finds none only where every
/// position is accepted.
pub proof fn lemma_mismatch_from(
    table: Map<TargetKind, CapabilitySet>,
    parameters: Seq<Capability>,
    arguments: Seq<ArgumentType>,
    from: int,
)
    requires
        0 <= from,
    ensures
        match mismatch_from(table, parameters, arguments, from) {
            Some(position) => {
                &&& from <= position < parameters.len()
                &&& !accepted_at(table, parameters, arguments, position)
                &&& forall|i: int| from <= i < position ==> accepted_at(table, parameters, arguments, i)
            },
            None => forall|i: int|
                from <= i < parameters.len() ==> accepted_at(table, parameters, arguments, i),
        },
    decreases parameters.len() - from,
{
    if from < parameters.len() && accepted_at(table, parameters, arguments, from) {
        lemma_mismatch_from(table, parameters, arguments, from + 1);
    }
}

/// One instruction: its name, the capability that each parameter
/// requires, in order, and its body.
pub struct InstructionField<F: InstructionFunction> {
    name: String,
    parameters: Vec<Capability>,
    function: F,
}

impl<F: InstructionFunction> InstructionField<F> {
    /// The name that the instruction is invoked by.
    pub closed spec fn spec_name(&self) -> Seq<char> {
        self.name@
    }

    /// The capability that each parameter requires, in order.
    pub closed spec fn spec_parameters(&self) -> Seq<Capability> {
        self.parameters@
    }

    /// The body of the instruction.
    pub closed spec fn spec_function(&self) -> F {
        self.function
    }

    /// The instruction of this name, these parameters and this body.
    pub fn new(name: &String, parameters: Vec<Capability>, function: F) -> (field: Self)
        ensures
            field.spec_name() == name@,
            field.spec_parameters() == parameters@,
            field.spec_function() == function,
    {
        InstructionField { name: name.clone(), parameters, function }
    }

    /// The name that the instruction is invoked by.
    pub fn name(&self) -> (name: &String)
        ensures
            name@ == self.spec_name(),
    {
        &self.name
    }

    /// Number of arguments that the instruction takes.
    pub fn arity(&self) -> (count: usize)
        ensures
            count == self.spec_parameters().len(),
    {
        self.parameters.len()
    }

    /// What one invocation does. A wrong number of arguments is refused
    /// first. Then the first argument that is not accepted for its
    /// parameter is refused. Neither touches the state. Only then does
    /// the body run, and what it does and returns is the outcome.
    pub open spec fn spec_call(&self, state: SimulatorState, arguments: Seq<ArgumentType>) -> (
        SimulatorState,
        Result<(), EzasmError>,
    ) {
        if arguments.len() != self.spec_parameters().len() {
            (
                state,
                Err(
                    EzasmError::ArityMismatch {
                        expected: self.spec_parameters().len() as usize,
                        actual: arguments.len() as usize,
                    },
                ),
            )
        } else {
            match first_mismatch(state.capabilities, self.spec_parameters(), arguments) {
                Some(position) => (
                    state,
                    Err(
                        EzasmError::CapabilityMismatch {
                            position: position as usize,
                            required: self.spec_parameters()[position],
                            found: arguments[position].spec_kind(),
                        },
                    ),
                ),
                None => self.spec_function().spec_effect(state, arguments),
            }
        }
    }

    /// Invokes the instruction on resolved arguments.
    pub fn call_instruction_function(
        &self,
        simulator: &mut Simulator,
        arguments: &Vec<ArgumentType>,
    ) -> (done: Result<(), EzasmError>)
        requires
            old(simulator).wf(),
        ensures
            final(simulator).wf(),
            final(simulator)@ == self.spec_call(old(simulator)@, arguments@).0,
            done == self.spec_call(old(simulator)@, arguments@).1,
    {
        if arguments.len() != self.parameters.len() {
            return Err(
                EzasmError::ArityMismatch {
                    expected: self.parameters.len(),
                    actual: arguments.len(),
                },
            );
        }
        let mut position: usize = 0;
        while position < arguments.len()
            invariant
                position <= arguments@.len() == self.parameters@.len(),
                *simulator == *old(simulator),
                simulator.wf(),
                first_mismatch(simulator@.capabilities, self.parameters@, arguments@)
                    == mismatch_from(
                    simulator@.capabilities,
                    self.parameters@,
                    arguments@,
                    position as int,
                ),
            decreases arguments@.len() - position,
        {
            let kind = arguments[position].kind();
            let required = self.parameters[position];
            if !simulator.get_capabilities().satisfies(kind, required) {
                return Err(EzasmError::CapabilityMismatch { position, required, found: kind });
            }
            position += 1;
        }
        self.function.execute(simulator, arguments)
    }
}

/// The instructions that a run can invoke, by name. An instruction that
/// is registered under a name already taken shadows the earlier one.
pub struct InstructionRegistry<F: InstructionFunction> {
    fields: NameMap<InstructionField<F>>,
}

impl<F: InstructionFunction> InstructionRegistry<F> {
    /// The instruction that each registered name stands for.
    pub closed spec fn view(&self) -> Map<Seq<char>, InstructionField<F>> {
        self.fields@
    }

    /// No name is registered twice.
    pub closed spec fn wf(&self) -> bool {
        self.fields.wf()
    }

    /// The registry that holds no instruction.
    pub fn new() -> (registry: Self)
        ensures
            registry.wf(),
            registry@ == Map::<Seq<char>, InstructionField<F>>::empty(),
    {
        InstructionRegistry { fields: NameMap::new() }
    }

    /// Registers `field` under its own name.
    pub fn register(&mut self, field: InstructionField<F>)
        requires
            old(self).wf(),
        ensures
            final(self).wf(),
            final(self)@ == old(self)@.insert(field.spec_name(), field),
    {
        let name = field.name().clone();
        self.fields.insert(name, field);
    }

    /// The instruction registered under `name`.
    pub fn get(&self, name: &String) -> (found: Result<&InstructionField<F>, EzasmError>)
        requires
            self.wf(),
        ensures
            found is Ok <==> self@.dom().contains(name@),
            found matches Ok(field) ==> *field == self@[name@],
            found matches Err(error) ==> error == EzasmError::UnknownInstruction(*name),
    {
        match self.fields.get(name) {
            Some(field) => Ok(field),
            None => Err(EzasmError::UnknownInstruction(name.clone())),
        }
    }

    /// What dispatching `name` does: nothing but an error where no such
    /// instruction is registered, else what invoking it does.
    pub open spec fn spec_dispatch(
        &self,
        name: &String,
        state: SimulatorState,
        arguments: Seq<ArgumentType>,
    ) -> (SimulatorState, Result<(), EzasmError>) {
        if self@.dom().contains(name@) {
            self@[name@].spec_call(state, arguments)
        } else {
            (state, Err(EzasmError::UnknownInstruction(*name)))
        }
    }

    /// Looks the instruction up by name and invokes it on resolved
    /// arguments.
    pub fn dispatch(&self, name: &String, arguments: &Vec<ArgumentType>, simulator: &mut Simulator) -> (done:
        Result<(), EzasmError>)
        requires
            self.wf(),
            old(simulator).wf(),
        ensures
            final(simulator).wf(),
            final(simulator)@ == self.spec_dispatch(name, old(simulator)@, arguments@).0,
            done == self.spec_dispatch(name, old(simulator)@, arguments@).1,
    {
        match self.get(name) {
            Ok(field) => field.call_instruction_function(simulator, arguments),
            Err(error) => Err(error),
        }
    }
}

/// An invocation with another number of arguments than the instruction
/// declares fails with the two numbers and leaves the state untouched:
/// no capability is checked and the body does not run.
pub proof fn lemma_arity_mismatch<F: InstructionFunction>(
    field: InstructionField<F>,
    state: SimulatorState,
    arguments: Seq<ArgumentType>,
)
    requires
        arguments.len() != field.spec_parameters().len(),
    ensures
        field.spec_call(state, arguments) == (
            state,
            Err::<(), EzasmError>(
                EzasmError::ArityMismatch {
                    expected: field.spec_parameters().len() as usize,
                    actual: arguments.len() as usize,
                },
            ),
        ),
{
}

/// With the right number of arguments, the first argument that is not
/// accepted for its parameter is reported with its position, the
/// capability required there and the variant found; the state is left
/// untouched and the body does not run.
pub proof fn lemma_capability_mismatch<F: InstructionFunction>(
    field: InstructionField<F>,
    state: SimulatorState,
    arguments: Seq<ArgumentType>,
    position: int,
)
    requires
        arguments.len() == field.spec_parameters().len(),
        0 <= position < arguments.len(),
        !accepted_at(state.capabilities, field.spec_parameters(), arguments, position),
        forall|i: int|
            0 <= i < position ==> accepted_at(state.capabilities, field.spec_parameters(), arguments, i),
    ensures
        field.spec_call(state, arguments) == (
            state,
            Err::<(), EzasmError>(
                EzasmError::CapabilityMismatch {
                    position: position as usize,
                    required: field.spec_parameters()[position],
                    found: arguments[position].spec_kind(),
                },
            ),
        ),
{
    lemma_mismatch_from(state.capabilities, field.spec_parameters(), arguments, 0);
}

/// With the right number of arguments, each accepted for its parameter,
/// the outcome of the invocation is the outcome of the body.
pub proof fn lemma_accepted_call<F: InstructionFunction>(
    field: InstructionField<F>,
    state: SimulatorState,
    arguments: Seq<ArgumentType>,
)
    requires
        arguments.len() == field.spec_parameters().len(),
        forall|i: int|
            0 <= i < arguments.len() ==> accepted_at(
                state.capabilities,
                field.spec_parameters(),
                arguments,
                i,
            ),
    ensures
        field.spec_call(state, arguments) == field.spec_function().spec_effect(state, arguments),
{
    lemma_mismatch_from(state.capabilities, field.spec_parameters(), arguments, 0);
}

/// Under the standard capability relation, a parameter that requires
/// one capability accepts a register, which has both, and rejects a
/// target that has only the other.
pub proof fn lemma_standard_membership(kind: TargetKind, required: Capability)
    ensures
        spec_satisfies(standard_capabilities(), kind, required) <==> (required
            == kind.spec_declared() || kind.spec_declared() == Capability::InputOutput),
{
}

} // verus!
