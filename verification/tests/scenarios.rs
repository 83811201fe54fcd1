use ezasm::instructions::argument_type::ArgumentType;
use ezasm::instructions::implementation::arithmetic_instructions;
use ezasm::instructions::targets::{Capability, CapabilityRegistry};
use ezasm::parser::lexer::{text_to_number, tokenize_line, EZNumber};
use ezasm::parser::line::Line;
use ezasm::simulation::memory::Memory;
use ezasm::simulation::registry;
use ezasm::simulation::registry::Registry;
use ezasm::simulation::simulator::Simulator;
use ezasm::util::raw_data::RawData;
use ezasm::util::word_size::WordSize;

#[test]
fn test_tokenize_line() {
    assert_eq!(
        format!(
            "{:?}",
            tokenize_line(&String::from("add $t0 1 2 # this - is = a # comment"))
        ),
        "[\"add\", \"$t0\", \"1\", \"2\"]"
    );
}

#[test]
fn test_text_to_number() {
    assert_eq!(
        match text_to_number(String::from("0x0010.8000")).unwrap() {
            EZNumber::Integer(_) => f64::INFINITY,
            EZNumber::Float(x) => {
                let magnitude = x.whole as f64 + x.numerator as f64 / x.denominator as f64;
                if x.negative {
                    -magnitude
                } else {
                    magnitude
                }
            }
        },
        16.5
    );
}

#[test]
fn test_memory() {
    let mut memory: Memory = Memory::new();
    let data = RawData::from_int(100, &WordSize::default());
    memory.write(memory.current_heap_pointer(), &data).unwrap();
    assert_eq!(
        memory
            .read(memory.current_heap_pointer())
            .unwrap()
            .int_value(),
        100
    );
}

#[test]
fn test_registry() {
    let word_size = WordSize::default();
    let mut registry: Registry = Registry::new(&word_size);
    registry
        .get_register_mut(&String::from(registry::T0))
        .unwrap()
        .set_data(RawData::from_int(255, &word_size));
    assert_eq!(
        registry
            .get_register(&String::from(registry::T0))
            .unwrap()
            .get_data()
            .int_value(),
        255
    );
}

#[test]
fn test_subclasses() {
    let capabilities = CapabilityRegistry::standard();
    let input_subclasses = capabilities.subclasses(Capability::Input);
    let input_output_subclasses = capabilities.subclasses(Capability::InputOutput);
    let input_output_kind = input_output_subclasses.get(0).unwrap();
    assert!(input_subclasses.contains(input_output_kind));
}

#[test]
fn test_instruction_field_macro() {
    let mut simulator: Simulator = Simulator::new();

    let line: Line = Line::new(
        &String::from("add"),
        ["$T0".to_string(), "100".to_string(), "21".to_string()].to_vec(),
    )
    .unwrap();
    let args = match line {
        Line::Instruction(_, args) => args,
        _ => Vec::new(),
    };

    let targets: Vec<ArgumentType> = args
        .iter()
        .map(|k| simulator.get_target(k).unwrap())
        .collect();

    match arithmetic_instructions::add().call_instruction_function(&mut simulator, &targets) {
        Ok(_) => {
            assert_eq!(
                simulator
                    .get_registers()
                    .get_register(&registry::T0.to_string())
                    .unwrap()
                    .get_data()
                    .int_value(),
                121
            );
        }
        Err(e) => {
            panic!("{:?}", e);
        }
    }
}
