use ezasm::instructions::targets::{
    Capability, CapabilityRegistry, CapabilitySet, TargetKind, KIND_COUNT,
};

const CAPABILITIES: [Capability; 3] = [
    Capability::Input,
    Capability::Output,
    Capability::InputOutput,
];

#[test]
fn kinds_are_laid_out_by_index() {
    let all = TargetKind::all();
    assert_eq!(all.len(), KIND_COUNT);
    for (index, kind) in all.iter().enumerate() {
        assert_eq!(kind.index(), index);
    }
    assert_eq!(TargetKind::Register.index(), 3);
}

#[test]
fn declared_capability_of_each_kind() {
    assert_eq!(TargetKind::Immediate.declared(), Capability::Input);
    assert_eq!(TargetKind::LabelReference.declared(), Capability::Input);
    assert_eq!(TargetKind::StringReference.declared(), Capability::Input);
    assert_eq!(TargetKind::Register.declared(), Capability::InputOutput);
    assert_eq!(TargetKind::Address.declared(), Capability::Output);
}

#[test]
fn capability_set_holds_the_parts_of_the_combined() {
    let both = CapabilitySet::of(Capability::InputOutput);
    assert!(both.has(Capability::Input));
    assert!(both.has(Capability::Output));
    assert!(both.has(Capability::InputOutput));
    let input = CapabilitySet::of(Capability::Input);
    assert!(input.has(Capability::Input));
    assert!(!input.has(Capability::Output));
    assert!(!input.has(Capability::InputOutput));
    let output = CapabilitySet::of(Capability::Output);
    assert!(!output.has(Capability::Input));
    assert!(output.has(Capability::Output));
    assert!(!output.has(Capability::InputOutput));
}

#[test]
fn empty_relation_accepts_nothing() {
    let registry = CapabilityRegistry::new();
    for kind in TargetKind::all() {
        for required in CAPABILITIES {
            assert!(!registry.satisfies(kind, required));
        }
    }
    assert!(registry.subclasses(Capability::Input).is_empty());
}

#[test]
fn standard_relation_follows_the_declarations() {
    let registry = CapabilityRegistry::standard();
    for kind in TargetKind::all() {
        for required in CAPABILITIES {
            let expected =
                required == kind.declared() || kind.declared() == Capability::InputOutput;
            assert_eq!(registry.satisfies(kind, required), expected);
        }
    }
}

#[test]
fn combined_variant_is_accepted_for_either_part() {
    let registry = CapabilityRegistry::standard();
    assert!(registry.satisfies(TargetKind::Register, Capability::Input));
    assert!(registry.satisfies(TargetKind::Register, Capability::Output));
    assert!(registry.satisfies(TargetKind::Register, Capability::InputOutput));
}

#[test]
fn single_capability_variant_is_rejected_for_the_other() {
    let registry = CapabilityRegistry::standard();
    assert!(!registry.satisfies(TargetKind::Immediate, Capability::Output));
    assert!(!registry.satisfies(TargetKind::Immediate, Capability::InputOutput));
    assert!(!registry.satisfies(TargetKind::Address, Capability::Input));
    assert!(!registry.satisfies(TargetKind::Address, Capability::InputOutput));
}

#[test]
fn subclasses_lists_each_accepted_kind_once() {
    let registry = CapabilityRegistry::standard();
    assert_eq!(
        registry.subclasses(Capability::Input),
        vec![
            TargetKind::Immediate,
            TargetKind::LabelReference,
            TargetKind::StringReference,
            TargetKind::Register
        ]
    );
    assert_eq!(
        registry.subclasses(Capability::Output),
        vec![TargetKind::Register, TargetKind::Address]
    );
    assert_eq!(
        registry.subclasses(Capability::InputOutput),
        vec![TargetKind::Register]
    );
}

#[test]
fn registering_a_kind_lists_it_and_no_other() {
    let mut registry = CapabilityRegistry::new();
    registry.register(TargetKind::Address, Capability::Output);
    assert!(registry.satisfies(TargetKind::Address, Capability::Output));
    assert!(!registry.satisfies(TargetKind::Address, Capability::Input));
    assert!(!registry.satisfies(TargetKind::Register, Capability::Output));
    registry.register(TargetKind::Address, Capability::InputOutput);
    assert!(registry.satisfies(TargetKind::Address, Capability::Input));
    assert!(registry.satisfies(TargetKind::Address, Capability::InputOutput));
    registry.register(TargetKind::Address, Capability::Input);
    assert!(registry.satisfies(TargetKind::Address, Capability::Input));
    assert!(!registry.satisfies(TargetKind::Address, Capability::Output));
}
