use vstd::prelude::*;

pub mod input_output_target;
pub mod input_target;
pub mod output_target;

verus! {

/// What an operand can do: produce a value, accept one, or both.
#[derive(Clone, Copy, Debug, PartialEq, Eq, Structural)]
pub enum Capability {
    Input,
    Output,
    InputOutput,
}

/// The identity of a target variant. What a target can do is decided by
/// this tag alone, never by the data that the target carries.
#[derive(Clone, Copy, Debug, PartialEq, Eq, Structural)]
pub enum TargetKind {
    Immediate,
    LabelReference,
    StringReference,
    Register,
    Address,
}

/// Number of target variants.
pub const KIND_COUNT: usize = 5;

impl TargetKind {
    /// The place of the variant in any table that is laid out by variant.
    pub open spec fn spec_index(self) -> int {
        match self {
            TargetKind::Immediate => 0,
            TargetKind::LabelReference => 1,
            TargetKind::StringReference => 2,
            TargetKind::Register => 3,
            TargetKind::Address => 4,
        }
    }

    /// The place of the variant in any table that is laid out by variant.
    pub fn index(self) -> (index: usize)
        ensures
            index == self.spec_index(),
            index < KIND_COUNT,
    {
        match self {
            TargetKind::Immediate => 0,
            TargetKind::LabelReference => 1,
            TargetKind::StringReference => 2,
            TargetKind::Register => 3,
            TargetKind::Address => 4,
        }
    }

    /// The capability that the variant is declared with.
    pub open spec fn spec_declared(self) -> Capability {
        match self {
            TargetKind::Immediate => Capability::Input,
            TargetKind::LabelReference => Capability::Input,
            TargetKind::StringReference => Capability::Input,
            TargetKind::Register => Capability::InputOutput,
            TargetKind::Address => Capability::Output,
        }
    }

    /// The capability that the variant is declared with.
    pub fn declared(self) -> (capability: Capability)
        ensures
            capability == self.spec_declared(),
    {
        match self {
            TargetKind::Immediate => Capability::Input,
            TargetKind::LabelReference => Capability::Input,
            TargetKind::StringReference => Capability::Input,
            TargetKind::Register => Capability::InputOutput,
            TargetKind::Address => Capability::Output,
        }
    }

    /// Every variant, in the order of `index`.
    pub fn all() -> (kinds: Vec<TargetKind>)
        ensures
            kinds@.len() == KIND_COUNT,
            forall|kind: TargetKind| #[trigger] kinds@[kind.spec_index()] == kind,
            forall|i: int| 0 <= i < KIND_COUNT ==> (#[trigger] kinds@[i]).spec_index() == i,
    {
        vec![
            TargetKind::Immediate,
            TargetKind::LabelReference,
            TargetKind::StringReference,
            TargetKind::Register,
            TargetKind::Address,
        ]
    }
}

/// Anything that stands for one operand of an instruction. Its variant
/// identity is all that the capability check reads.
pub trait Target {
    spec fn spec_kind(&self) -> TargetKind;

    fn kind(&self) -> (kind: TargetKind)
        ensures
            kind == self.spec_kind(),
    ;
}

/// The capabilities that one variant satisfies.
#[derive(Clone, Copy, Debug, PartialEq, Eq, Structural)]
pub struct CapabilitySet {
    pub input: bool,
    pub output: bool,
    pub input_output: bool,
}

impl CapabilitySet {
    /// Whether the set holds `capability`.
    pub open spec fn spec_has(self, capability: Capability) -> bool {
        match capability {
            Capability::Input => self.input,
            Capability::Output => self.output,
            Capability::InputOutput => self.input_output,
        }
    }

    /// A set that holds the combined capability holds both of its parts.
    pub open spec fn closed(self) -> bool {
        self.input_output ==> self.input && self.output
    }

    /// The set for a variant declared with `declared`: the capability
    /// itself and, for the combined one, each of its parts.
    pub open spec fn spec_of(declared: Capability) -> CapabilitySet {
        match declared {
            Capability::Input => CapabilitySet { input: true, output: false, input_output: false },
            Capability::Output => CapabilitySet { input: false, output: true, input_output: false },
            Capability::InputOutput => CapabilitySet {
                input: true,
                output: true,
                input_output: true,
            },
        }
    }

    /// The set for a variant declared with `declared`.
    pub fn of(declared: Capability) -> (set: CapabilitySet)
        ensures
            set == Self::spec_of(declared),
            set.closed(),
    {
        match declared {
            Capability::Input => CapabilitySet { input: true, output: false, input_output: false },
            Capability::Output => CapabilitySet { input: false, output: true, input_output: false },
            Capability::InputOutput => CapabilitySet {
                input: true,
                output: true,
                input_output: true,
            },
        }
    }

    /// Whether the set holds `capability`.
    pub fn has(&self, capability: Capability) -> (held: bool)
        ensures
            held == self.spec_has(capability),
    {
        match capability {
            Capability::Input => self.input,
            Capability::Output => self.output,
            Capability::InputOutput => self.input_output,
        }
    }
}

/// Whether `table` lists `kind` as satisfying `required`.
pub open spec fn spec_satisfies(
    table: Map<TargetKind, CapabilitySet>,
    kind: TargetKind,
    required: Capability,
) -> bool {
    table.dom().contains(kind) && table[kind].spec_has(required)
}

/// The table that `CapabilityRegistry::standard` builds: every variant
/// with the set of its declared capability.
pub open spec fn standard_capabilities() -> Map<TargetKind, CapabilitySet> {
    Map::new(|kind: TargetKind| true, |kind: TargetKind| CapabilitySet::spec_of(kind.spec_declared()))
}

/// The relation between target variants and capabilities that dispatch
/// consults. A variant is in it only once it has been registered.
pub struct CapabilityRegistry {
    slots: Vec<Option<CapabilitySet>>,
}

impl CapabilityRegistry {
    /// The set of each registered variant.
    pub closed spec fn view(&self) -> Map<TargetKind, CapabilitySet> {
        Map::new(
            |kind: TargetKind| self.slots@[kind.spec_index()] is Some,
            |kind: TargetKind| self.slots@[kind.spec_index()]->0,
        )
    }

    /// One slot for each variant.
    pub closed spec fn wf(&self) -> bool {
        self.slots@.len() == KIND_COUNT
    }

    /// Membership is closed: whatever is listed under the combined
    /// capability is listed under each of its parts.
    pub open spec fn closed(&self) -> bool {
        forall|kind: TargetKind| #[trigger] self@.dom().contains(kind) ==> self@[kind].closed()
    }

    /// The relation in which nothing is registered.
    pub fn new() -> (registry: CapabilityRegistry)
        ensures
            registry.wf(),
            registry.closed(),
            registry@ == Map::<TargetKind, CapabilitySet>::empty(),
    {
        let registry = CapabilityRegistry { slots: vec![None, None, None, None, None] };
        assert(registry@ =~= Map::<TargetKind, CapabilitySet>::empty());
        registry
    }

    /// Registers `kind` as declared with `declared`. A variant that is
    /// registered again is listed as the last registration says.
    pub fn register(&mut self, kind: TargetKind, declared: Capability)
        requires
            old(self).wf(),
        ensures
            final(self).wf(),
            final(self)@ == old(self)@.insert(kind, CapabilitySet::spec_of(declared)),
            old(self).closed() ==> final(self).closed(),
    {
        let ghost before = self@;
        let set = CapabilitySet::of(declared);
        self.slots.set(kind.index(), Some(set));
        assert(self@ =~= before.insert(kind, set));
    }

    /// The relation with every variant registered as it is declared.
    pub fn standard() -> (registry: CapabilityRegistry)
        ensures
            registry.wf(),
            registry.closed(),
            registry@ == standard_capabilities(),
    {
        let mut registry = CapabilityRegistry::new();
        registry.register(TargetKind::Immediate, TargetKind::Immediate.declared());
        registry.register(TargetKind::LabelReference, TargetKind::LabelReference.declared());
        registry.register(TargetKind::StringReference, TargetKind::StringReference.declared());
        registry.register(TargetKind::Register, TargetKind::Register.declared());
        registry.register(TargetKind::Address, TargetKind::Address.declared());
        assert(registry@ =~= standard_capabilities());
        registry
    }

    /// Whether a target of variant `kind` may stand where `required` is
    /// asked for.
    pub fn satisfies(&self, kind: TargetKind, required: Capability) -> (accepted: bool)
        requires
            self.wf(),
        ensures
            accepted == spec_satisfies(self@, kind, required),
    {
        match &self.slots[kind.index()] {
            Some(set) => set.has(required),
            None => false,
        }
    }

    /// The variants that may stand where `required` is asked for, each
    /// once, in the order of their places.
    pub fn subclasses(&self, required: Capability) -> (kinds: Vec<TargetKind>)
        requires
            self.wf(),
        ensures
            kinds@.no_duplicates(),
            forall|i: int, j: int|
                0 <= i < j < kinds@.len() ==> kinds@[i].spec_index() < kinds@[j].spec_index(),
            forall|kind: TargetKind|
                kinds@.contains(kind) <==> spec_satisfies(self@, kind, required),
    {
        let all = TargetKind::all();
        let mut kinds: Vec<TargetKind> = Vec::new();
        let mut index: usize = 0;
        while index < all.len()
            invariant
                self.wf(),
                index <= all@.len() == KIND_COUNT,
                forall|kind: TargetKind| #[trigger] all@[kind.spec_index()] == kind,
                forall|i: int| 0 <= i < KIND_COUNT ==> (#[trigger] all@[i]).spec_index() == i,
                kinds@.no_duplicates(),
                forall|i: int, j: int|
                    0 <= i < j < kinds@.len() ==> kinds@[i].spec_index() < kinds@[j].spec_index(),
                forall|kind: TargetKind|
                    kinds@.contains(kind) <==> kind.spec_index() < index && spec_satisfies(
                        self@,
                        kind,
                        required,
                    ),
            decreases all@.len() - index,
        {
            let kind = all[index];
            assert(kind.spec_index() == index);
            if self.satisfies(kind, required) {
                let ghost before = kinds@;
                kinds.push(kind);
                proof {
                    assert(kinds@[before.len() as int] == kind);
                    assert forall|i: int, j: int| 0 <= i < j < kinds@.len() implies kinds@[i]
                        != kinds@[j] && kinds@[i].spec_index() < kinds@[j].spec_index() by {
                        assert(before.contains(before[i]));
                    }
                    assert forall|other: TargetKind|
                        kinds@.contains(other) <==> other.spec_index() < index + 1 && spec_satisfies(
                            self@,
                            other,
                            required,
                        ) by {
                        assert(all@[other.spec_index()] == other);
                        if kinds@.contains(other) {
                            let i = choose|i: int| 0 <= i < kinds@.len() && kinds@[i] == other;
                            if i < before.len() {
                                assert(before[i] == other);
                            }
                        }
                        if before.contains(other) {
                            let i = choose|i: int| 0 <= i < before.len() && before[i] == other;
                            assert(kinds@[i] == other);
                        }
                    }
                }
            } else {
                assert forall|other: TargetKind|
                    kinds@.contains(other) <==> other.spec_index() < index + 1 && spec_satisfies(
                        self@,
                        other,
                        required,
                    ) by {
                    assert(all@[other.spec_index()] == other);
                }
            }
            index += 1;
        }
        kinds
    }
}

/// A variant listed under the combined capability is accepted wherever
/// only one of the two is required.
pub proof fn lemma_combined_is_accepted(registry: CapabilityRegistry, kind: TargetKind)
    requires
        registry.closed(),
        spec_satisfies(registry@, kind, Capability::InputOutput),
    ensures
        spec_satisfies(registry@, kind, Capability::Input),
        spec_satisfies(registry@, kind, Capability::Output),
{
}

/// After a variant is registered, it is accepted for a capability exactly
/// when that is the one it was declared with or a part of it: a variant
/// declared with one capability alone is rejected for the other and for
/// the combined one.
pub proof fn lemma_registered(
    table: Map<TargetKind, CapabilitySet>,
    kind: TargetKind,
    declared: Capability,
    required: Capability,
)
    ensures
        spec_satisfies(table.insert(kind, CapabilitySet::spec_of(declared)), kind, required) <==> (
        required == declared || declared == Capability::InputOutput),
{
}

} // verus!
