use vstd::prelude::*;
use vstd::string::*;
use crate::error::EzasmError;
use crate::instructions::argument_type::{ArgumentType, Operand};
use crate::instructions::instruction_field::{InstructionFunction, InstructionRegistry};
use crate::instructions::targets::input_output_target::InputOutputTarget;
use crate::instructions::targets::input_target::InputTarget;
use crate::instructions::targets::output_target::OutputTarget;
use crate::instructions::targets::{CapabilityRegistry, CapabilitySet, TargetKind};
use crate::parser::lexer::{
    lemma_run_bounds, parse_number, run_length, scan, spec_text_to_number, to_chars, EZNumber, Stop,
};
use crate::parser::line::Line;
use crate::simulation::memory::Memory;
use crate::simulation::registry::Registry;
use crate::util::name_map::NameMap;
use crate::util::raw_data::RawData;
use crate::util::word_size::WordSize;

verus! {

/// Everything that resolving an operand or running an instruction can
/// read or change, as mathematical values.
#[verifier::ext_equal]
pub struct SimulatorState {
    /// The active word-size configuration.
    pub word_size: WordSize,
    /// The word that each register holds.
    pub registers: Map<Seq<char>, RawData>,
    /// The line number of each label.
    pub labels: Map<Seq<char>, i64>,
    /// The bytes of memory, from address zero.
    pub bytes: Seq<u8>,
    /// The first address of memory that has not been handed out.
    pub heap_pointer: int,
    /// The address of each interned string.
    pub strings: Map<Seq<char>, RawData>,
    /// The capabilities that each target variant satisfies.
    pub capabilities: Map<TargetKind, CapabilitySet>,
}

/// Whether a token has the form of an address: an offset, possibly
/// empty, then a register in round brackets, as in `8($SP)`.
pub open spec fn is_address_form(token: Seq<char>) -> bool {
    let open = run_length(token, Stop::Bracket);
    open + 3 <= token.len() && token[open + 1] == '$' && token.last() == ')'
}

/// The operand that a token stands for, by its form alone. A token that
/// begins with `$` names a register. One in double quotes is a string.
/// One of the form of an address is an address, its offset zero where
/// none is written. One that begins with a digit or `-` is an integer
/// literal. Any other is the name of a label. There is no operand where
/// an offset or a literal is not an integer literal.
pub open spec fn spec_classify(token: Seq<char>, word_size: WordSize) -> Option<Operand> {
    if token.len() >= 1 && token[0] == '$' {
        Some(Operand::Register(token.skip(1)))
    } else if token.len() >= 2 && token[0] == '"' && token.last() == '"' {
        Some(Operand::Text(token.subrange(1, token.len() - 1)))
    } else if is_address_form(token) {
        let open = run_length(token, Stop::Bracket);
        let register = token.subrange(open + 2, token.len() - 1);
        if open == 0 {
            Some(Operand::Address { register, offset: 0 })
        } else {
            match spec_text_to_number(token.take(open)) {
                Some(EZNumber::Integer(offset)) => Some(Operand::Address { register, offset }),
                _ => None,
            }
        }
    } else if token.len() >= 1 && ('0' <= token[0] <= '9' || token[0] == '-') {
        match spec_text_to_number(token) {
            Some(EZNumber::Integer(value)) => Some(
                Operand::Immediate(RawData::spec_from_int(value as int, word_size)),
            ),
            _ => None,
        }
    } else {
        Some(Operand::Label(token))
    }
}

/// Whether `targets` are the operands that `tokens` stand for, one for
/// one.
pub open spec fn resolves(tokens: Seq<String>, word_size: WordSize, targets: Seq<ArgumentType>) -> bool {
    &&& targets.len() == tokens.len()
    &&& forall|i: int|
        0 <= i < tokens.len() ==> spec_classify(#[trigger] tokens[i]@, word_size) == Some(
            targets[i]@,
        )
}

/// Whether the token at `position` is the first that stands for no
/// operand.
pub open spec fn first_unresolved(tokens: Seq<String>, word_size: WordSize, position: int) -> bool {
    &&& 0 <= position < tokens.len()
    &&& spec_classify(tokens[position]@, word_size) is None
    &&& forall|i: int| 0 <= i < position ==> spec_classify(#[trigger] tokens[i]@, word_size) is Some
}

/// The state of one run: registers, memory and labels, with the word-size
/// configuration and the capability relation that were fixed when the run
/// began.
pub struct Simulator {
    memory: Memory,
    registers: Registry,
    labels: NameMap<i64>,
    word_size: WordSize,
    capabilities: CapabilityRegistry,
}

impl Simulator {
    /// The memory of the run.
    pub closed spec fn spec_memory(&self) -> Memory {
        self.memory
    }

    /// The register table of the run.
    pub closed spec fn spec_registers(&self) -> Registry {
        self.registers
    }

    /// The label table of the run.
    pub closed spec fn spec_labels(&self) -> NameMap<i64> {
        self.labels
    }

    /// The active word-size configuration.
    pub closed spec fn spec_word_size(&self) -> WordSize {
        self.word_size
    }

    /// The capability relation of the run.
    pub closed spec fn spec_capabilities(&self) -> CapabilityRegistry {
        self.capabilities
    }

    /// The state of the run as mathematical values.
    pub open spec fn view(&self) -> SimulatorState {
        SimulatorState {
            word_size: self.spec_word_size(),
            registers: self.spec_registers()@,
            labels: self.spec_labels()@,
            bytes: self.spec_memory().spec_bytes(),
            heap_pointer: self.spec_memory().spec_heap_pointer(),
            strings: self.spec_memory().spec_strings(),
            capabilities: self.spec_capabilities()@,
        }
    }

    /// Each part is well formed, memory reads words of the active
    /// configuration, and capability membership is closed.
    pub open spec fn wf(&self) -> bool {
        &&& self.spec_word_size().wf()
        &&& self.spec_memory().wf()
        &&& self.spec_memory().spec_word_size() == self.spec_word_size()
        &&& self.spec_registers().wf()
        &&& self.spec_labels().wf()
        &&& self.spec_capabilities().wf()
        &&& self.spec_capabilities().closed()
    }

    /// A simulator under the default configuration: the standard
    /// registers at zero, a zeroed memory of the default size, no labels,
    /// and every target variant registered as it is declared.
    pub fn new() -> (simulator: Simulator)
        ensures
            simulator.wf(),
            simulator.spec_word_size() == WordSize::default_spec(),
            simulator.spec_memory().spec_size() == crate::simulation::memory::DEFAULT_MEMORY_WORDS
                * simulator.spec_word_size().spec_bytes(),
            simulator@.registers == crate::simulation::registry::zeroed(
                crate::simulation::registry::register_names(),
                simulator.spec_word_size(),
            ),
            simulator@.labels == Map::<Seq<char>, i64>::empty(),
            simulator@.heap_pointer == 0,
            simulator@.strings == Map::<Seq<char>, RawData>::empty(),
            forall|i: int| 0 <= i < simulator@.bytes.len() ==> simulator@.bytes[i] == 0,
            simulator@.capabilities == crate::instructions::targets::standard_capabilities(),
    {
        let word_size = WordSize::default();
        Simulator {
            memory: Memory::new(),
            registers: Registry::new(&word_size),
            labels: NameMap::new(),
            word_size,
            capabilities: CapabilityRegistry::standard(),
        }
    }

    /// A simulator like that of `new`, with words of the given width and
    /// a memory of `memory_words` words. There is none if the addresses
    /// of such a memory would not fit a word.
    pub fn new_sized(word_size: &WordSize, memory_words: usize) -> (made: Option<Simulator>)
        ensures
            made is Some <==> 2 * (memory_words * word_size.spec_bytes()) < word_size.modulus()
                && memory_words * word_size.spec_bytes() <= usize::MAX,
            made matches Some(simulator) ==> {
                &&& simulator.wf()
                &&& simulator.spec_word_size() == *word_size
                &&& simulator@.bytes.len() == memory_words * word_size.spec_bytes()
                &&& simulator@.registers == crate::simulation::registry::zeroed(
                    crate::simulation::registry::register_names(),
                    *word_size,
                )
                &&& simulator@.labels == Map::<Seq<char>, i64>::empty()
                &&& simulator@.heap_pointer == 0
                &&& simulator@.strings == Map::<Seq<char>, RawData>::empty()
                &&& forall|i: int| 0 <= i < simulator@.bytes.len() ==> simulator@.bytes[i] == 0
                &&& simulator@.capabilities
                    == crate::instructions::targets::standard_capabilities()
            },
    {
        proof {
            use_type_invariant(word_size);
        }
        match Memory::new_sized(word_size, memory_words) {
            Some(memory) => Some(
                Simulator {
                    memory,
                    registers: Registry::new(word_size),
                    labels: NameMap::new(),
                    word_size: *word_size,
                    capabilities: CapabilityRegistry::standard(),
                },
            ),
            None => None,
        }
    }

    /// The line number that `name` was defined at.
    pub fn get_label_line_number(&self, name: &String) -> (found: Result<i64, EzasmError>)
        requires
            self.wf(),
        ensures
            found == if self@.labels.dom().contains(name@) {
                Ok::<i64, EzasmError>(self@.labels[name@])
            } else {
                Err::<i64, EzasmError>(EzasmError::UnknownLabel(*name))
            },
    {
        match self.labels.get(name) {
            Some(line) => Ok(*line),
            None => Err(EzasmError::UnknownLabel(name.clone())),
        }
    }

    /// Defines `name` as the label of `line`. A name defined before now
    /// stands for the new line.
    pub fn add_label(&mut self, name: &String, line: i64)
        requires
            old(self).wf(),
        ensures
            final(self).wf(),
            final(self)@ == (SimulatorState {
                labels: old(self)@.labels.insert(name@, line),
                ..old(self)@
            }),
    {
        self.labels.insert(name.clone(), line);
    }

    /// The active word-size configuration.
    pub fn get_word_size(&self) -> (word_size: &WordSize)
        ensures
            *word_size == self.spec_word_size(),
    {
        &self.word_size
    }

    /// The memory of the run, to read.
    pub fn get_memory(&self) -> (memory: &Memory)
        ensures
            *memory == self.spec_memory(),
    {
        &self.memory
    }

    /// The register table of the run, to read.
    pub fn get_registers(&self) -> (registers: &Registry)
        ensures
            *registers == self.spec_registers(),
    {
        &self.registers
    }

    /// The capability relation of the run.
    pub fn get_capabilities(&self) -> (capabilities: &CapabilityRegistry)
        ensures
            *capabilities == self.spec_capabilities(),
    {
        &self.capabilities
    }

    /// Mutable access to memory. What the caller leaves there is the
    /// simulator's memory from then on; nothing else changes.
    pub fn get_memory_mut(&mut self) -> (memory: &mut Memory)
        ensures
            *memory == old(self).spec_memory(),
            final(self).spec_memory() == *final(memory),
            final(self).spec_registers() == old(self).spec_registers(),
            final(self).spec_labels() == old(self).spec_labels(),
            final(self).spec_word_size() == old(self).spec_word_size(),
            final(self).spec_capabilities() == old(self).spec_capabilities(),
    {
        &mut self.memory
    }

    /// Mutable access to the registers. What the caller leaves there is
    /// the simulator's register table from then on; nothing else changes.
    pub fn get_registers_mut(&mut self) -> (registers: &mut Registry)
        ensures
            *registers == old(self).spec_registers(),
            final(self).spec_registers() == *final(registers),
            final(self).spec_memory() == old(self).spec_memory(),
            final(self).spec_labels() == old(self).spec_labels(),
            final(self).spec_word_size() == old(self).spec_word_size(),
            final(self).spec_capabilities() == old(self).spec_capabilities(),
    {
        &mut self.registers
    }

    /// The target that an operand token stands for. The token's form
    /// alone decides; nothing is looked up and nothing changes.
    pub fn get_target(&self, token: &String) -> (found: Result<ArgumentType, EzasmError>)
        ensures
            match spec_classify(token@, self.spec_word_size()) {
                Some(operand) => found matches Ok(target) && target@ == operand,
                None => found == Err::<ArgumentType, EzasmError>(
                    EzasmError::NumericParseError(*token),
                ),
            },
    {
        let text = token.as_str();
        let symbols = to_chars(text);
        let length = symbols.len();
        if length >= 1 && symbols[0] == '$' {
            let name = text.substring_char(1, length).to_owned();
            assert(name@ =~= token@.skip(1));
            return Ok(ArgumentType::InputOutput(InputOutputTarget::new_register(&name)));
        }
        if length >= 2 && symbols[0] == '"' && symbols[length - 1] == '"' {
            let content = text.substring_char(1, length - 1).to_owned();
            return Ok(ArgumentType::Input(InputTarget::new_string(&content)));
        }
        let open = scan(&symbols, 0, length, Stop::Bracket);
        assert(symbols@.subrange(0, length as int) =~= token@);
        if length >= 3 && open <= length - 3 && symbols[open + 1] == '$' && symbols[length - 1]
            == ')' {
            let register = text.substring_char(open + 2, length - 1).to_owned();
            let offset: i64 = if open == 0 {
                0
            } else {
                let prefix = to_chars(text.substring_char(0, open));
                assert(prefix@ =~= token@.take(open as int));
                match parse_number(&prefix) {
                    Some(EZNumber::Integer(value)) => value,
                    _ => {
                        return Err(EzasmError::NumericParseError(token.clone()));
                    },
                }
            };
            return Ok(ArgumentType::Output(OutputTarget::new_address(&register, offset)));
        }
        if length >= 1 && ((symbols[0] >= '0' && symbols[0] <= '9') || symbols[0] == '-') {
            return match parse_number(&symbols) {
                Some(EZNumber::Integer(value)) => Ok(
                    ArgumentType::Input(
                        InputTarget::new_immediate(RawData::from_int(value, &self.word_size)),
                    ),
                ),
                _ => Err(EzasmError::NumericParseError(token.clone())),
            };
        }
        Ok(ArgumentType::Input(InputTarget::new_label_reference(token)))
    }

    /// The targets that operand tokens stand for, in order. The first
    /// token that stands for none decides the error.
    pub fn resolve_targets(&self, tokens: &Vec<String>) -> (found: Result<
        Vec<ArgumentType>,
        EzasmError,
    >)
        ensures
            match found {
                Ok(targets) => resolves(tokens@, self.spec_word_size(), targets@),
                Err(error) => exists|position: int|
                    first_unresolved(tokens@, self.spec_word_size(), position) && error
                        == EzasmError::NumericParseError(#[trigger] tokens@[position]),
            },
    {
        let mut targets: Vec<ArgumentType> = Vec::new();
        let mut index: usize = 0;
        while index < tokens.len()
            invariant
                index <= tokens@.len(),
                targets@.len() == index,
                forall|i: int|
                    0 <= i < index ==> spec_classify(#[trigger] tokens@[i]@, self.spec_word_size())
                        == Some(targets@[i]@),
            decreases tokens@.len() - index,
        {
            match self.get_target(&tokens[index]) {
                Ok(target) => {
                    targets.push(target);
                },
                Err(error) => {
                    assert(first_unresolved(tokens@, self.spec_word_size(), index as int));
                    return Err(error);
                },
            }
            index += 1;
        }
        Ok(targets)
    }

    /// Runs one line. The definition of a label records the line's
    /// number under the label's name. An instruction has every operand
    /// token resolved to a target first; if one stands for no operand,
    /// that is the error and nothing else happens. Otherwise the
    /// instruction is looked up by its mnemonic and invoked on the
    /// targets, and what that does and returns is the outcome.
    pub fn run_line<F: InstructionFunction>(
        &mut self,
        instructions: &InstructionRegistry<F>,
        line: &Line,
        line_number: i64,
    ) -> (done: Result<(), EzasmError>)
        requires
            old(self).wf(),
            instructions.wf(),
        ensures
            final(self).wf(),
            match line {
                Line::Label(name) => done == Ok::<(), EzasmError>(()) && final(self)@ == (
                SimulatorState { labels: old(self)@.labels.insert(name@, line_number), ..old(self)@ }),
                Line::Instruction(mnemonic, tokens) => {
                    ||| exists|position: int|
                        first_unresolved(tokens@, old(self).spec_word_size(), position) && done
                            == Err::<(), EzasmError>(
                            EzasmError::NumericParseError(#[trigger] tokens@[position]),
                        ) && final(self)@ == old(self)@
                    ||| exists|targets: Seq<ArgumentType>| #[trigger]
                        resolves(tokens@, old(self).spec_word_size(), targets) && final(self)@
                            == instructions.spec_dispatch(mnemonic, old(self)@, targets).0 && done
                            == instructions.spec_dispatch(mnemonic, old(self)@, targets).1
                },
            },
    {
        match line {
            Line::Label(name) => {
                self.add_label(name, line_number);
                Ok(())
            },
            Line::Instruction(mnemonic, tokens) => {
                let targets = match self.resolve_targets(tokens) {
                    Ok(targets) => targets,
                    Err(error) => {
                        return Err(error);
                    },
                };
                let done = instructions.dispatch(mnemonic, &targets, self);
                assert(resolves(tokens@, old(self).spec_word_size(), targets@));
                done
            },
        }
    }
}

} // verus!
