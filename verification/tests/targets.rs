use ezasm::error::EzasmError;
use ezasm::instructions::argument_type::ArgumentType;
use ezasm::instructions::targets::input_output_target::InputOutputTarget;
use ezasm::instructions::targets::input_target::{Input, InputTarget};
use ezasm::instructions::targets::output_target::{Output, OutputTarget};
use ezasm::instructions::targets::{Capability, Target, TargetKind};
use ezasm::simulation::simulator::Simulator;
use ezasm::util::raw_data::RawData;
use ezasm::util::word_size::WordSize;

fn word(value: i64) -> RawData {
    RawData::from_int(value, &WordSize::default())
}

fn name(text: &str) -> String {
    String::from(text)
}

#[test]
fn immediate_gives_its_own_value() {
    let simulator = Simulator::new();
    for value in [0i64, 1, -1, 2147483647, -2147483648] {
        let target = InputTarget::new_immediate(word(value));
        assert_eq!(target.get(&simulator), Ok(word(value)));
    }
    let narrow = RawData::from_int(-5, &WordSize::new(1).unwrap());
    assert_eq!(InputTarget::new_immediate(narrow).get(&simulator), Ok(narrow));
}

#[test]
fn constructors_build_the_variant_named() {
    assert_eq!(
        InputTarget::new_immediate(word(3)),
        InputTarget::ImmediateInput(word(3))
    );
    assert_eq!(
        InputTarget::new_label_reference(&name("loop")),
        InputTarget::LabelReferenceInput(name("loop"))
    );
    assert_eq!(
        InputTarget::new_string(&name("text")),
        InputTarget::StringInput(name("text"))
    );
    assert_eq!(
        InputOutputTarget::new_register(&name("T0")),
        InputOutputTarget::RegisterInputOutput(name("T0"))
    );
    assert_eq!(
        OutputTarget::new_address(&name("SP"), -8),
        OutputTarget::AddressOutput { register: name("SP"), offset: -8 }
    );
}

#[test]
fn label_reference_gives_the_line_number() {
    let mut simulator = Simulator::new();
    simulator.add_label(&name("loop"), 42);
    simulator.add_label(&name("end"), 0);
    let target = InputTarget::new_label_reference(&name("loop"));
    assert_eq!(target.get(&simulator).unwrap().int_value(), 42);
    assert_eq!(target.get(&simulator), Ok(word(42)));
    let end = InputTarget::new_label_reference(&name("end"));
    assert_eq!(end.get(&simulator).unwrap().int_value(), 0);
}

#[test]
fn label_line_beyond_the_width_wraps() {
    let mut simulator = Simulator::new();
    simulator.add_label(&name("far"), 0x8000_0000);
    let target = InputTarget::new_label_reference(&name("far"));
    assert_eq!(target.get(&simulator).unwrap().int_value(), -2147483648);
}

#[test]
fn unknown_label_is_reported_by_name() {
    let simulator = Simulator::new();
    let target = InputTarget::new_label_reference(&name("nowhere"));
    assert_eq!(
        target.get(&simulator),
        Err(EzasmError::UnknownLabel(name("nowhere")))
    );
    assert_eq!(
        simulator.get_label_line_number(&name("nowhere")),
        Err(EzasmError::UnknownLabel(name("nowhere")))
    );
}

#[test]
fn string_reference_gives_the_interned_address() {
    let mut simulator = Simulator::new();
    let first = simulator
        .get_memory_mut()
        .intern_string(&name("first"))
        .unwrap();
    let second = simulator
        .get_memory_mut()
        .intern_string(&name("second"))
        .unwrap();
    let target = InputTarget::new_string(&name("first"));
    assert_eq!(target.get(&simulator), Ok(first));
    assert_eq!(target.get(&simulator), Ok(first));
    let again = InputTarget::new_string(&name("first"));
    assert_eq!(again.get(&simulator), Ok(first));
    let other = InputTarget::new_string(&name("second"));
    assert_eq!(other.get(&simulator), Ok(second));
    assert_ne!(target.get(&simulator), other.get(&simulator));
}

#[test]
fn string_reference_to_text_not_interned_is_unknown() {
    let simulator = Simulator::new();
    let target = InputTarget::new_string(&name("missing"));
    assert_eq!(
        target.get(&simulator),
        Err(EzasmError::UnknownString(name("missing")))
    );
    assert_eq!(simulator.get_memory().current_heap_pointer(), 0);
}

#[test]
fn register_target_reads_what_it_wrote() {
    let mut simulator = Simulator::new();
    let target = InputOutputTarget::new_register(&name("S3"));
    assert_eq!(target.get(&simulator), Ok(word(0)));
    assert_eq!(target.set(&mut simulator, word(-77)), Ok(()));
    assert_eq!(target.get(&simulator), Ok(word(-77)));
    let other = InputOutputTarget::new_register(&name("S4"));
    assert_eq!(other.get(&simulator), Ok(word(0)));
}

#[test]
fn register_target_for_unknown_name_fails_both_ways() {
    let mut simulator = Simulator::new();
    let target = InputOutputTarget::new_register(&name("Q1"));
    assert_eq!(
        target.get(&simulator),
        Err(EzasmError::UnknownRegister(name("Q1")))
    );
    assert_eq!(
        target.set(&mut simulator, word(1)),
        Err(EzasmError::UnknownRegister(name("Q1")))
    );
}

#[test]
fn address_target_writes_at_register_plus_offset() {
    let mut simulator = Simulator::new();
    InputOutputTarget::new_register(&name("SP"))
        .set(&mut simulator, word(100))
        .unwrap();
    let target = OutputTarget::new_address(&name("SP"), 8);
    assert_eq!(target.set(&mut simulator, word(1234)), Ok(()));
    assert_eq!(simulator.get_memory().read(108).unwrap().int_value(), 1234);
    let below = OutputTarget::new_address(&name("SP"), -100);
    assert_eq!(below.set(&mut simulator, word(-9)), Ok(()));
    assert_eq!(simulator.get_memory().read(0).unwrap().int_value(), -9);
    assert_eq!(simulator.get_memory().read(108).unwrap().int_value(), 1234);
}

#[test]
fn address_target_outside_memory_is_out_of_range() {
    let mut simulator = Simulator::new();
    let size = simulator.get_memory().size() as i64;
    let negative = OutputTarget::new_address(&name("SP"), -1);
    assert_eq!(
        negative.set(&mut simulator, word(1)),
        Err(EzasmError::OutOfRange(-1))
    );
    let end = OutputTarget::new_address(&name("SP"), size - 3);
    assert_eq!(
        end.set(&mut simulator, word(1)),
        Err(EzasmError::OutOfRange(size - 3))
    );
    let last = OutputTarget::new_address(&name("SP"), size - 4);
    assert_eq!(last.set(&mut simulator, word(1)), Ok(()));
    let unknown = OutputTarget::new_address(&name("XX"), 0);
    assert_eq!(
        unknown.set(&mut simulator, word(1)),
        Err(EzasmError::UnknownRegister(name("XX")))
    );
}

#[test]
fn address_that_overflows_is_clamped_and_out_of_range() {
    let wide = WordSize::new(8).unwrap();
    let mut simulator = Simulator::new_sized(&wide, 16).unwrap();
    InputOutputTarget::new_register(&name("SP"))
        .set(&mut simulator, RawData::from_int(i64::MAX, &wide))
        .unwrap();
    let over = OutputTarget::new_address(&name("SP"), i64::MAX);
    assert_eq!(
        over.set(&mut simulator, RawData::from_int(1, &wide)),
        Err(EzasmError::OutOfRange(i64::MAX))
    );
    InputOutputTarget::new_register(&name("SP"))
        .set(&mut simulator, RawData::from_int(i64::MIN, &wide))
        .unwrap();
    let under = OutputTarget::new_address(&name("SP"), -1);
    assert_eq!(
        under.set(&mut simulator, RawData::from_int(1, &wide)),
        Err(EzasmError::OutOfRange(i64::MIN))
    );
}

#[test]
fn every_target_reports_its_kind() {
    assert_eq!(InputTarget::new_immediate(word(1)).kind(), TargetKind::Immediate);
    assert_eq!(
        InputTarget::new_label_reference(&name("a")).kind(),
        TargetKind::LabelReference
    );
    assert_eq!(InputTarget::new_string(&name("a")).kind(), TargetKind::StringReference);
    assert_eq!(InputOutputTarget::new_register(&name("a")).kind(), TargetKind::Register);
    assert_eq!(OutputTarget::new_address(&name("a"), 0).kind(), TargetKind::Address);
    assert_eq!(
        ArgumentType::Input(InputTarget::new_immediate(word(1))).kind(),
        TargetKind::Immediate
    );
    assert_eq!(
        ArgumentType::InputOutput(InputOutputTarget::new_register(&name("a"))).kind(),
        TargetKind::Register
    );
    assert_eq!(
        ArgumentType::Output(OutputTarget::new_address(&name("a"), 0)).kind(),
        TargetKind::Address
    );
}

#[test]
fn clones_are_equal_to_what_they_copy() {
    let targets = [
        ArgumentType::Input(InputTarget::new_immediate(word(5))),
        ArgumentType::Input(InputTarget::new_label_reference(&name("loop"))),
        ArgumentType::Input(InputTarget::new_string(&name("text"))),
        ArgumentType::InputOutput(InputOutputTarget::new_register(&name("T0"))),
        ArgumentType::Output(OutputTarget::new_address(&name("SP"), 4)),
    ];
    for target in targets.iter() {
        assert_eq!(&target.clone(), target);
    }
    assert_eq!(
        InputTarget::new_string(&name("x")).clone(),
        InputTarget::StringInput(name("x"))
    );
}

#[test]
fn argument_reads_only_what_can_produce_a_value() {
    let mut simulator = Simulator::new();
    let register = ArgumentType::InputOutput(InputOutputTarget::new_register(&name("T0")));
    let immediate = ArgumentType::Input(InputTarget::new_immediate(word(9)));
    let address = ArgumentType::Output(OutputTarget::new_address(&name("SP"), 0));
    assert_eq!(immediate.read(&simulator, 1), Ok(word(9)));
    assert_eq!(register.read(&simulator, 1), Ok(word(0)));
    assert_eq!(
        address.read(&simulator, 2),
        Err(EzasmError::CapabilityMismatch {
            position: 2,
            required: Capability::Input,
            found: TargetKind::Address
        })
    );
    assert_eq!(register.write(&mut simulator, 0, word(4)), Ok(()));
    assert_eq!(register.read(&simulator, 0), Ok(word(4)));
    assert_eq!(address.write(&mut simulator, 0, word(6)), Ok(()));
    assert_eq!(simulator.get_memory().read(0).unwrap().int_value(), 6);
    assert_eq!(
        immediate.write(&mut simulator, 3, word(4)),
        Err(EzasmError::CapabilityMismatch {
            position: 3,
            required: Capability::Output,
            found: TargetKind::Immediate
        })
    );
}
