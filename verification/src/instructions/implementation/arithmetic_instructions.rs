use vstd::prelude::*;
use vstd::string::*;
use crate::error::EzasmError;
use crate::instructions::argument_type::ArgumentType;
use crate::instructions::instruction_field::{InstructionField, InstructionFunction, InstructionRegistry};
use crate::instructions::targets::Capability;
use crate::simulation::simulator::{Simulator, SimulatorState};
use crate::util::raw_data::RawData;

verus! {

/// The bodies of the arithmetic instructions. Each reads its second and
/// third argument and writes the result to its first.
#[derive(Clone, Copy, Debug, PartialEq, Eq, Structural)]
pub enum ArithmeticInstruction {
    Add,
    Sub,
    Mul,
}

impl ArithmeticInstruction {
    /// The integer that the operation gives for two integers.
    pub open spec fn spec_combine(self, left: int, right: int) -> int {
        match self {
            ArithmeticInstruction::Add => left + right,
            ArithmeticInstruction::Sub => left - right,
            ArithmeticInstruction::Mul => left * right,
        }
    }

    fn combine(self, left: i64, right: i64) -> (result: i128)
        ensures
            result == self.spec_combine(left as int, right as int),
    {
        let wide_left: i128 = left as i128;
        let wide_right: i128 = right as i128;
        match self {
            ArithmeticInstruction::Add => wide_left + wide_right,
            ArithmeticInstruction::Sub => wide_left - wide_right,
            ArithmeticInstruction::Mul => {
                assert(-0x8000_0000_0000_0000 * 0x8000_0000_0000_0000 <= wide_left * wide_right
                    <= 0x8000_0000_0000_0000 * 0x8000_0000_0000_0000) by (nonlinear_arith)
                    requires
                        -0x8000_0000_0000_0000 <= wide_left < 0x8000_0000_0000_0000,
                        -0x8000_0000_0000_0000 <= wide_right < 0x8000_0000_0000_0000,
                ;
                wide_left * wide_right
            },
        }
    }
}

impl InstructionFunction for ArithmeticInstruction {
    /// With three arguments: the values of the second and the third are
    /// read, in that order, and the word for the operation's result on
    /// their signed values, wrapped to the active width, is written to
    /// the first. The first failure is what is returned; a failed read
    /// leaves the state as it was.
    open spec fn spec_effect(&self, state: SimulatorState, arguments: Seq<ArgumentType>) -> (
        SimulatorState,
        Result<(), EzasmError>,
    ) {
        if arguments.len() != 3 {
            (state, Err(EzasmError::ArityMismatch { expected: 3, actual: arguments.len() as usize }))
        } else {
            match arguments[1].spec_read(state, 1) {
                Err(error) => (state, Err(error)),
                Ok(left) => match arguments[2].spec_read(state, 2) {
                    Err(error) => (state, Err(error)),
                    Ok(right) => arguments[0].spec_write(
                        state,
                        0,
                        RawData::spec_from_int(
                            self.spec_combine(left.spec_int_value(), right.spec_int_value()),
                            state.word_size,
                        ),
                    ),
                },
            }
        }
    }

    fn execute(&self, simulator: &mut Simulator, arguments: &Vec<ArgumentType>) -> (done: Result<
        (),
        EzasmError,
    >) {
        if arguments.len() != 3 {
            return Err(EzasmError::ArityMismatch { expected: 3, actual: arguments.len() });
        }
        let left = match arguments[1].read(simulator, 1) {
            Ok(data) => data,
            Err(error) => {
                return Err(error);
            },
        };
        let right = match arguments[2].read(simulator, 2) {
            Ok(data) => data,
            Err(error) => {
                return Err(error);
            },
        };
        let result = self.combine(left.int_value(), right.int_value());
        let word = RawData::from_wide(result, simulator.get_word_size());
        arguments[0].write(simulator, 0, word)
    }
}

/// The capabilities that an arithmetic instruction requires of its three
/// arguments: one to read and write, two to read.
pub open spec fn arithmetic_parameters() -> Seq<Capability> {
    seq![Capability::InputOutput, Capability::Input, Capability::Input]
}

fn field(name: &str, function: ArithmeticInstruction) -> (field: InstructionField<
    ArithmeticInstruction,
>)
    ensures
        field.spec_name() == name@,
        field.spec_parameters() == arithmetic_parameters(),
        field.spec_function() == function,
{
    let parameters = vec![Capability::InputOutput, Capability::Input, Capability::Input];
    assert(parameters@ =~= arithmetic_parameters());
    InstructionField::new(&String::from_str(name), parameters, function)
}

/// The instruction `add`.
pub fn add() -> (field: InstructionField<ArithmeticInstruction>)
    ensures
        field.spec_name() == "add"@,
        field.spec_parameters() == arithmetic_parameters(),
        field.spec_function() == ArithmeticInstruction::Add,
{
    field("add", ArithmeticInstruction::Add)
}

/// The instruction `sub`.
pub fn sub() -> (field: InstructionField<ArithmeticInstruction>)
    ensures
        field.spec_name() == "sub"@,
        field.spec_parameters() == arithmetic_parameters(),
        field.spec_function() == ArithmeticInstruction::Sub,
{
    field("sub", ArithmeticInstruction::Sub)
}

/// The instruction `mul`.
pub fn mul() -> (field: InstructionField<ArithmeticInstruction>)
    ensures
        field.spec_name() == "mul"@,
        field.spec_parameters() == arithmetic_parameters(),
        field.spec_function() == ArithmeticInstruction::Mul,
{
    field("mul", ArithmeticInstruction::Mul)
}

/// The registry that holds the arithmetic instructions.
pub fn registry() -> (registry: InstructionRegistry<ArithmeticInstruction>)
    ensures
        registry.wf(),
        registry@.dom() =~= set!["add"@, "sub"@, "mul"@],
        registry@.dom().contains("add"@) && registry@["add"@].spec_function()
            == ArithmeticInstruction::Add,
        registry@.dom().contains("sub"@) && registry@["sub"@].spec_function()
            == ArithmeticInstruction::Sub,
        registry@.dom().contains("mul"@) && registry@["mul"@].spec_function()
            == ArithmeticInstruction::Mul,
        forall|name: Seq<char>| #[trigger]
            registry@.dom().contains(name) ==> registry@[name].spec_parameters()
                == arithmetic_parameters() && registry@[name].spec_name() == name,
{
    let mut registry = InstructionRegistry::new();
    registry.register(self::add());
    registry.register(self::sub());
    registry.register(self::mul());
    proof {
        reveal_strlit("add");
        reveal_strlit("sub");
        reveal_strlit("mul");
        assert("add"@ != "sub"@) by {
            assert("add"@[0] != "sub"@[0]);
        }
        assert("add"@ != "mul"@) by {
            assert("add"@[0] != "mul"@[0]);
        }
        assert("sub"@ != "mul"@) by {
            assert("sub"@[0] != "mul"@[0]);
        }
    }
    registry
}

} // verus!
