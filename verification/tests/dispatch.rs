use ezasm::error::EzasmError;
use ezasm::instructions::argument_type::ArgumentType;
use ezasm::instructions::implementation::arithmetic_instructions;
use ezasm::instructions::implementation::arithmetic_instructions::ArithmeticInstruction;
use ezasm::instructions::instruction_field::{
    InstructionField, InstructionFunction, InstructionRegistry,
};
use ezasm::instructions::targets::input_output_target::InputOutputTarget;
use ezasm::instructions::targets::input_target::InputTarget;
use ezasm::instructions::targets::output_target::OutputTarget;
use ezasm::instructions::targets::{Capability, TargetKind};
use ezasm::simulation::simulator::Simulator;
use ezasm::util::raw_data::RawData;
use ezasm::util::word_size::WordSize;

fn word(value: i64) -> RawData {
    RawData::from_int(value, &WordSize::default())
}

fn name(text: &str) -> String {
    String::from(text)
}

fn register(text: &str) -> ArgumentType {
    ArgumentType::InputOutput(InputOutputTarget::new_register(&name(text)))
}

fn immediate(value: i64) -> ArgumentType {
    ArgumentType::Input(InputTarget::new_immediate(word(value)))
}

fn address(text: &str, offset: i64) -> ArgumentType {
    ArgumentType::Output(OutputTarget::new_address(&name(text), offset))
}

fn value_of(simulator: &Simulator, text: &str) -> i64 {
    simulator
        .get_registers()
        .get_register(&name(text))
        .unwrap()
        .get_data()
        .int_value()
}

#[test]
fn add_writes_the_sum() {
    let mut simulator = Simulator::new();
    let arguments = vec![register("T0"), immediate(100), immediate(21)];
    assert_eq!(
        arithmetic_instructions::add().call_instruction_function(&mut simulator, &arguments),
        Ok(())
    );
    assert_eq!(value_of(&simulator, "T0"), 121);
}

#[test]
fn sub_and_mul_write_difference_and_product() {
    let mut simulator = Simulator::new();
    let arguments = vec![register("T1"), immediate(100), immediate(21)];
    arithmetic_instructions::sub()
        .call_instruction_function(&mut simulator, &arguments)
        .unwrap();
    assert_eq!(value_of(&simulator, "T1"), 79);
    let arguments = vec![register("T2"), register("T1"), immediate(-3)];
    arithmetic_instructions::mul()
        .call_instruction_function(&mut simulator, &arguments)
        .unwrap();
    assert_eq!(value_of(&simulator, "T2"), -237);
}

#[test]
fn results_wrap_to_the_word_width() {
    let mut simulator = Simulator::new();
    let arguments = vec![register("T0"), immediate(2147483647), immediate(1)];
    arithmetic_instructions::add()
        .call_instruction_function(&mut simulator, &arguments)
        .unwrap();
    assert_eq!(value_of(&simulator, "T0"), -2147483648);
    let arguments = vec![register("T1"), immediate(-2147483648), immediate(1)];
    arithmetic_instructions::sub()
        .call_instruction_function(&mut simulator, &arguments)
        .unwrap();
    assert_eq!(value_of(&simulator, "T1"), 2147483647);
    let arguments = vec![register("T2"), immediate(65536), immediate(65537)];
    arithmetic_instructions::mul()
        .call_instruction_function(&mut simulator, &arguments)
        .unwrap();
    assert_eq!(value_of(&simulator, "T2"), 65536);
}

#[test]
fn results_of_eight_byte_words_wrap_too() {
    let wide = WordSize::new(8).unwrap();
    let mut simulator = Simulator::new_sized(&wide, 8).unwrap();
    let most = ArgumentType::Input(InputTarget::new_immediate(RawData::from_int(i64::MAX, &wide)));
    let least = ArgumentType::Input(InputTarget::new_immediate(RawData::from_int(i64::MIN, &wide)));
    arithmetic_instructions::add()
        .call_instruction_function(&mut simulator, &vec![register("T0"), most.clone(), most.clone()])
        .unwrap();
    assert_eq!(value_of(&simulator, "T0"), -2);
    arithmetic_instructions::mul()
        .call_instruction_function(&mut simulator, &vec![register("T1"), least.clone(), least])
        .unwrap();
    assert_eq!(value_of(&simulator, "T1"), 0);
    arithmetic_instructions::mul()
        .call_instruction_function(&mut simulator, &vec![register("T2"), most.clone(), most])
        .unwrap();
    assert_eq!(value_of(&simulator, "T2"), 1);
}

#[test]
fn wrong_argument_count_is_an_arity_mismatch() {
    let mut simulator = Simulator::new();
    let add = arithmetic_instructions::add();
    assert_eq!(add.arity(), 3);
    let two = vec![register("T0"), immediate(1)];
    assert_eq!(
        add.call_instruction_function(&mut simulator, &two),
        Err(EzasmError::ArityMismatch { expected: 3, actual: 2 })
    );
    let four = vec![register("T0"), immediate(1), immediate(2), immediate(3)];
    assert_eq!(
        add.call_instruction_function(&mut simulator, &four),
        Err(EzasmError::ArityMismatch { expected: 3, actual: 4 })
    );
    assert_eq!(
        add.call_instruction_function(&mut simulator, &Vec::new()),
        Err(EzasmError::ArityMismatch { expected: 3, actual: 0 })
    );
    assert_eq!(value_of(&simulator, "T0"), 0);
}

#[test]
fn arity_is_checked_before_capabilities() {
    let mut simulator = Simulator::new();
    let arguments = vec![immediate(1), address("SP", 0)];
    assert_eq!(
        arithmetic_instructions::add().call_instruction_function(&mut simulator, &arguments),
        Err(EzasmError::ArityMismatch { expected: 3, actual: 2 })
    );
}

#[test]
fn argument_without_the_capability_is_a_mismatch_at_its_position() {
    let mut simulator = Simulator::new();
    let add = arithmetic_instructions::add();
    assert_eq!(
        add.call_instruction_function(
            &mut simulator,
            &vec![immediate(5), immediate(1), immediate(2)]
        ),
        Err(EzasmError::CapabilityMismatch {
            position: 0,
            required: Capability::InputOutput,
            found: TargetKind::Immediate
        })
    );
    assert_eq!(
        add.call_instruction_function(
            &mut simulator,
            &vec![register("T0"), address("SP", 0), immediate(2)]
        ),
        Err(EzasmError::CapabilityMismatch {
            position: 1,
            required: Capability::Input,
            found: TargetKind::Address
        })
    );
    assert_eq!(
        add.call_instruction_function(
            &mut simulator,
            &vec![register("T0"), immediate(7), address("SP", 0)]
        ),
        Err(EzasmError::CapabilityMismatch {
            position: 2,
            required: Capability::Input,
            found: TargetKind::Address
        })
    );
    assert_eq!(
        add.call_instruction_function(
            &mut simulator,
            &vec![address("SP", 0), immediate(7), immediate(8)]
        ),
        Err(EzasmError::CapabilityMismatch {
            position: 0,
            required: Capability::InputOutput,
            found: TargetKind::Address
        })
    );
    assert_eq!(value_of(&simulator, "T0"), 0);
    assert_eq!(simulator.get_memory().read(0).unwrap().int_value(), 0);
}

#[test]
fn first_mismatch_is_the_one_reported() {
    let mut simulator = Simulator::new();
    let arguments = vec![immediate(5), address("SP", 0), address("SP", 4)];
    assert_eq!(
        arithmetic_instructions::add().call_instruction_function(&mut simulator, &arguments),
        Err(EzasmError::CapabilityMismatch {
            position: 0,
            required: Capability::InputOutput,
            found: TargetKind::Immediate
        })
    );
}

#[test]
fn register_is_accepted_where_input_is_required() {
    let mut simulator = Simulator::new();
    simulator
        .get_registers_mut()
        .set_register(&name("S0"), word(40))
        .unwrap();
    simulator
        .get_registers_mut()
        .set_register(&name("S1"), word(2))
        .unwrap();
    let arguments = vec![register("S2"), register("S0"), register("S1")];
    arithmetic_instructions::add()
        .call_instruction_function(&mut simulator, &arguments)
        .unwrap();
    assert_eq!(value_of(&simulator, "S2"), 42);
}

#[test]
fn parameter_that_requires_output_accepts_register_and_address() {
    let mut simulator = Simulator::new();
    let store = InstructionField::new(
        &name("store"),
        vec![Capability::Output, Capability::Input, Capability::Input],
        ArithmeticInstruction::Add,
    );
    store
        .call_instruction_function(
            &mut simulator,
            &vec![address("SP", 16), immediate(3), immediate(4)],
        )
        .unwrap();
    assert_eq!(simulator.get_memory().read(16).unwrap().int_value(), 7);
    store
        .call_instruction_function(
            &mut simulator,
            &vec![register("T5"), immediate(3), immediate(5)],
        )
        .unwrap();
    assert_eq!(value_of(&simulator, "T5"), 8);
    assert_eq!(
        store.call_instruction_function(
            &mut simulator,
            &vec![immediate(1), immediate(3), immediate(5)]
        ),
        Err(EzasmError::CapabilityMismatch {
            position: 0,
            required: Capability::Output,
            found: TargetKind::Immediate
        })
    );
}

#[test]
fn error_of_the_body_is_passed_on() {
    let mut simulator = Simulator::new();
    let add = arithmetic_instructions::add();
    let label = ArgumentType::Input(InputTarget::new_label_reference(&name("nowhere")));
    assert_eq!(
        add.call_instruction_function(&mut simulator, &vec![register("T0"), label, immediate(1)]),
        Err(EzasmError::UnknownLabel(name("nowhere")))
    );
    let text = ArgumentType::Input(InputTarget::new_string(&name("nothing")));
    assert_eq!(
        add.call_instruction_function(&mut simulator, &vec![register("T0"), immediate(1), text]),
        Err(EzasmError::UnknownString(name("nothing")))
    );
    assert_eq!(
        add.call_instruction_function(
            &mut simulator,
            &vec![register("T0"), register("Q9"), immediate(1)]
        ),
        Err(EzasmError::UnknownRegister(name("Q9")))
    );
    assert_eq!(
        add.call_instruction_function(
            &mut simulator,
            &vec![register("Q8"), immediate(2), immediate(1)]
        ),
        Err(EzasmError::UnknownRegister(name("Q8")))
    );
    assert_eq!(value_of(&simulator, "T0"), 0);
}

#[test]
fn body_checks_its_own_argument_count() {
    let mut simulator = Simulator::new();
    assert_eq!(
        ArithmeticInstruction::Add.execute(&mut simulator, &vec![register("T0")]),
        Err(EzasmError::ArityMismatch { expected: 3, actual: 1 })
    );
    let odd = InstructionField::new(
        &name("odd"),
        vec![Capability::InputOutput],
        ArithmeticInstruction::Mul,
    );
    assert_eq!(
        odd.call_instruction_function(&mut simulator, &vec![register("T0")]),
        Err(EzasmError::ArityMismatch { expected: 3, actual: 1 })
    );
}

#[test]
fn body_reports_an_operand_it_cannot_read() {
    let mut simulator = Simulator::new();
    assert_eq!(
        ArithmeticInstruction::Sub.execute(
            &mut simulator,
            &vec![register("T0"), address("SP", 0), immediate(1)]
        ),
        Err(EzasmError::CapabilityMismatch {
            position: 1,
            required: Capability::Input,
            found: TargetKind::Address
        })
    );
    assert_eq!(
        ArithmeticInstruction::Sub.execute(
            &mut simulator,
            &vec![immediate(0), immediate(2), immediate(1)]
        ),
        Err(EzasmError::CapabilityMismatch {
            position: 0,
            required: Capability::Output,
            found: TargetKind::Immediate
        })
    );
}

#[test]
fn dispatch_finds_the_instruction_by_name() {
    let mut simulator = Simulator::new();
    let registry = arithmetic_instructions::registry();
    let arguments = vec![register("T0"), immediate(6), immediate(7)];
    registry
        .dispatch(&name("mul"), &arguments, &mut simulator)
        .unwrap();
    assert_eq!(value_of(&simulator, "T0"), 42);
    registry
        .dispatch(&name("sub"), &arguments, &mut simulator)
        .unwrap();
    assert_eq!(value_of(&simulator, "T0"), -1);
    registry
        .dispatch(&name("add"), &arguments, &mut simulator)
        .unwrap();
    assert_eq!(value_of(&simulator, "T0"), 13);
    assert_eq!(registry.get(&name("add")).unwrap().name(), "add");
    assert_eq!(registry.get(&name("add")).unwrap().arity(), 3);
}

#[test]
fn dispatch_of_unregistered_name_is_unknown_instruction() {
    let mut simulator = Simulator::new();
    let registry = arithmetic_instructions::registry();
    let arguments = vec![register("T0"), immediate(6), immediate(7)];
    assert_eq!(
        registry.dispatch(&name("div"), &arguments, &mut simulator),
        Err(EzasmError::UnknownInstruction(name("div")))
    );
    assert_eq!(
        registry.dispatch(&name("ADD"), &arguments, &mut simulator),
        Err(EzasmError::UnknownInstruction(name("ADD")))
    );
    assert_eq!(
        registry.get(&name("")).err(),
        Some(EzasmError::UnknownInstruction(name("")))
    );
    let empty: InstructionRegistry<ArithmeticInstruction> = InstructionRegistry::new();
    assert_eq!(
        empty.dispatch(&name("add"), &arguments, &mut simulator),
        Err(EzasmError::UnknownInstruction(name("add")))
    );
    assert_eq!(value_of(&simulator, "T0"), 0);
}

#[test]
fn later_registration_shadows_the_earlier() {
    let mut simulator = Simulator::new();
    let mut registry = arithmetic_instructions::registry();
    registry.register(InstructionField::new(
        &name("add"),
        vec![Capability::InputOutput, Capability::Input, Capability::Input],
        ArithmeticInstruction::Sub,
    ));
    let arguments = vec![register("T0"), immediate(10), immediate(4)];
    registry
        .dispatch(&name("add"), &arguments, &mut simulator)
        .unwrap();
    assert_eq!(value_of(&simulator, "T0"), 6);
    registry
        .dispatch(&name("mul"), &arguments, &mut simulator)
        .unwrap();
    assert_eq!(value_of(&simulator, "T0"), 40);
}

#[test]
fn failed_write_leaves_reads_done_and_state_unchanged() {
    let mut simulator = Simulator::new();
    let size = simulator.get_memory().size() as i64;
    let store = InstructionField::new(
        &name("store"),
        vec![Capability::Output, Capability::Input, Capability::Input],
        ArithmeticInstruction::Add,
    );
    assert_eq!(
        store.call_instruction_function(
            &mut simulator,
            &vec![address("SP", size), immediate(3), immediate(4)]
        ),
        Err(EzasmError::OutOfRange(size))
    );
    assert_eq!(simulator.get_memory().read(size - 4).unwrap().int_value(), 0);
}
