use vstd::prelude::*;
use vstd::string::*;
use crate::error::EzasmError;
use crate::util::name_map::NameMap;
use crate::util::raw_data::RawData;
use crate::util::word_size::WordSize;

verus! {

// The names of the standard registers.
pub const ZERO: &'static str = "ZERO";
pub const PC: &'static str = "PC";
pub const SP: &'static str = "SP";
pub const RA: &'static str = "RA";
pub const A0: &'static str = "A0";
pub const A1: &'static str = "A1";
pub const A2: &'static str = "A2";
pub const R0: &'static str = "R0";
pub const R1: &'static str = "R1";
pub const R2: &'static str = "R2";
pub const S0: &'static str = "S0";
pub const S1: &'static str = "S1";
pub const S2: &'static str = "S2";
pub const S3: &'static str = "S3";
pub const S4: &'static str = "S4";
pub const S5: &'static str = "S5";
pub const S6: &'static str = "S6";
pub const S7: &'static str = "S7";
pub const S8: &'static str = "S8";
pub const S9: &'static str = "S9";
pub const T0: &'static str = "T0";
pub const T1: &'static str = "T1";
pub const T2: &'static str = "T2";
pub const T3: &'static str = "T3";
pub const T4: &'static str = "T4";
pub const T5: &'static str = "T5";
pub const T6: &'static str = "T6";
pub const T7: &'static str = "T7";
pub const T8: &'static str = "T8";
pub const T9: &'static str = "T9";
pub const LO: &'static str = "LO";
pub const HI: &'static str = "HI";

/// The names of the registers that every register table starts with.
pub open spec fn register_names() -> Seq<Seq<char>> {
    seq![
        ZERO@, PC@, SP@, RA@, A0@, A1@, A2@, R0@, R1@, R2@, S0@, S1@, S2@, S3@, S4@, S5@, S6@,
        S7@, S8@, S9@, T0@, T1@, T2@, T3@, T4@, T5@, T6@, T7@, T8@, T9@, LO@, HI@,
    ]
}

/// The table in which each of `names` holds the zero word.
pub open spec fn zeroed(names: Seq<Seq<char>>, word_size: WordSize) -> Map<Seq<char>, RawData> {
    Map::new(|name: Seq<char>| names.contains(name), |name: Seq<char>| RawData::spec_from_int(0, word_size))
}

/// One register: a place that holds a word.
#[derive(Clone, Copy, Debug, PartialEq, Eq, Structural)]
pub struct Register {
    data: RawData,
}

impl Register {
    /// The word that the register holds.
    pub closed spec fn spec_data(self) -> RawData {
        self.data
    }

    /// A register that holds the zero word of the given configuration.
    pub fn new(word_size: &WordSize) -> (register: Register)
        ensures
            register.spec_data() == RawData::spec_from_int(0, *word_size),
    {
        Register { data: RawData::from_int(0, word_size) }
    }

    /// The word that the register holds.
    pub fn get_data(&self) -> (data: &RawData)
        ensures
            *data == self.spec_data(),
    {
        &self.data
    }

    /// Stores `data` in the register.
    pub fn set_data(&mut self, data: RawData)
        ensures
            final(self).spec_data() == data,
    {
        self.data = data;
    }
}

/// The register table: from each register's name to the word it holds.
pub struct Registry {
    registers: NameMap<Register>,
}

impl Registry {
    /// No register is listed twice.
    pub closed spec fn wf(&self) -> bool {
        self.registers.wf()
    }

    /// The word that each register holds, by the register's name.
    pub closed spec fn view(&self) -> Map<Seq<char>, RawData> {
        Map::new(
            |name: Seq<char>| self.registers@.dom().contains(name),
            |name: Seq<char>| self.registers@[name].spec_data(),
        )
    }

    fn names() -> (names: Vec<&'static str>)
        ensures
            names@.len() == register_names().len(),
            forall|i: int| 0 <= i < names@.len() ==> (#[trigger] names@[i])@ == register_names()[i],
    {
        vec![
            ZERO, PC, SP, RA, A0, A1, A2, R0, R1, R2, S0, S1, S2, S3, S4, S5, S6, S7, S8, S9, T0,
            T1, T2, T3, T4, T5, T6, T7, T8, T9, LO, HI,
        ]
    }

    /// The table of the standard registers, each holding zero.
    pub fn new(word_size: &WordSize) -> (registry: Registry)
        ensures
            registry.wf(),
            registry@ == zeroed(register_names(), *word_size),
    {
        let names = Self::names();
        let mut registers: NameMap<Register> = NameMap::new();
        let mut index: usize = 0;
        while index < names.len()
            invariant
                index <= names@.len(),
                names@.len() == register_names().len(),
                forall|i: int| 0 <= i < names@.len() ==> (#[trigger] names@[i])@ == register_names()[i],
                registers.wf(),
                forall|name: Seq<char>|
                    registers@.dom().contains(name) <==> register_names().take(index as int).contains(
                        name,
                    ),
                forall|name: Seq<char>|
                    registers@.dom().contains(name) ==> (#[trigger] registers@[name]).spec_data()
                        == RawData::spec_from_int(0, *word_size),
            decreases names@.len() - index,
        {
            let ghost before = registers@;
            let ghost name = names@[index as int]@;
            registers.insert(String::from_str(names[index]), Register::new(word_size));
            proof {
                let shorter = register_names().take(index as int);
                let longer = register_names().take(index as int + 1);
                assert(longer =~= shorter.push(name));
                assert forall|k: Seq<char>| registers@.dom().contains(k) <==> longer.contains(
                    k,
                ) by {
                    if longer.contains(k) {
                        let j = choose|j: int| 0 <= j < longer.len() && longer[j] == k;
                        if j < index {
                            assert(shorter[j] == k);
                        }
                    }
                    if shorter.contains(k) {
                        let j = choose|j: int| 0 <= j < shorter.len() && shorter[j] == k;
                        assert(longer[j] == k);
                    }
                    assert(longer[index as int] == name);
                }
            }
            index += 1;
        }
        let registry = Registry { registers };
        proof {
            assert(register_names().take(index as int) =~= register_names());
            assert(registry@ =~= zeroed(register_names(), *word_size));
        }
        registry
    }

    /// Whether a register of this name exists.
    pub fn is_register(&self, name: &String) -> (known: bool)
        requires
            self.wf(),
        ensures
            known == self@.dom().contains(name@),
    {
        self.registers.contains(name)
    }

    /// The register of this name.
    pub fn get_register(&self, name: &String) -> (found: Result<&Register, EzasmError>)
        requires
            self.wf(),
        ensures
            found is Ok <==> self@.dom().contains(name@),
            found matches Ok(register) ==> register.spec_data() == self@[name@],
            found matches Err(error) ==> error == EzasmError::UnknownRegister(*name),
    {
        match self.registers.get(name) {
            Some(register) => Ok(register),
            None => Err(EzasmError::UnknownRegister(name.clone())),
        }
    }

    /// Mutable access to the register of this name. The word that the
    /// caller leaves in it is what the table then holds under the name;
    /// no other register changes.
    pub fn get_register_mut(&mut self, name: &String) -> (found: Result<&mut Register, EzasmError>)
        requires
            old(self).wf(),
        ensures
            final(self).wf(),
            found is Ok <==> old(self)@.dom().contains(name@),
            found matches Ok(register) ==> register.spec_data() == old(self)@[name@],
            found matches Ok(register) ==> final(self)@ =~= old(self)@.insert(
                name@,
                final(register).spec_data(),
            ),
            found matches Err(error) ==> error == EzasmError::UnknownRegister(*name) && final(self)@
                =~= old(self)@,
    {
        match self.registers.get_mut(name) {
            Some(register) => Ok(register),
            None => Err(EzasmError::UnknownRegister(name.clone())),
        }
    }

    /// Stores `data` in the register of this name.
    pub fn set_register(&mut self, name: &String, data: RawData) -> (done: Result<(), EzasmError>)
        requires
            old(self).wf(),
        ensures
            final(self).wf(),
            done == if old(self)@.dom().contains(name@) {
                Ok::<(), EzasmError>(())
            } else {
                Err::<(), EzasmError>(EzasmError::UnknownRegister(*name))
            },
            final(self)@ == if old(self)@.dom().contains(name@) {
                old(self)@.insert(name@, data)
            } else {
                old(self)@
            },
    {
        if self.registers.contains(name) {
            let ghost before = self@;
            self.registers.insert(name.clone(), Register { data });
            assert(self@ =~= before.insert(name@, data));
            Ok(())
        } else {
            Err(EzasmError::UnknownRegister(name.clone()))
        }
    }
}

} // verus!
