use vstd::prelude::*;
use vstd::string::*;
use crate::error::EzasmError;
use crate::util::name_map::NameMap;
use crate::util::raw_data::{
    lemma_from_int, lemma_from_int_round_trip, lemma_word_extensional, RawData,
};
use crate::util::word_size::{modulus_of, WordSize, DEFAULT_WORD_BYTES};

verus! {

/// Number of words in a memory of the default size.
pub const DEFAULT_MEMORY_WORDS: usize = 0x4000;

/// The bytes that store `bits` in `count` places, lowest byte first.
pub open spec fn encode(bits: int, count: nat) -> Seq<u8>
    decreases count,
{
    if count == 0 {
        Seq::empty()
    } else {
        seq![(bits % 256) as u8] + encode(bits / 256, (count - 1) as nat)
    }
}

/// The unsigned integer that `bytes` store, lowest byte first.
pub open spec fn decode(bytes: Seq<u8>) -> int
    decreases bytes.len(),
{
    if bytes.len() == 0 {
        0
    } else {
        bytes[0] as int + 256 * decode(bytes.drop_first())
    }
}

/// `bytes` with the places from `at` on overwritten by `patch`.
pub open spec fn splice(bytes: Seq<u8>, at: int, patch: Seq<u8>) -> Seq<u8> {
    bytes.subrange(0, at) + patch + bytes.subrange(at + patch.len(), bytes.len() as int)
}

/// Number of values that `count` bytes can tell apart.
pub open spec fn radix(count: int) -> int {
    if count <= 0 {
        1
    } else {
        modulus_of(count)
    }
}

/// Decoding undoes encoding for every value that the places can hold.
pub proof fn lemma_decode_encode(bits: int, count: nat)
    requires
        count <= 8,
        0 <= bits < radix(count as int),
    ensures
        encode(bits, count).len() == count,
        decode(encode(bits, count)) == bits,
    decreases count,
{
    if count > 0 {
        let rest = encode(bits / 256, (count - 1) as nat);
        lemma_decode_encode(bits / 256, (count - 1) as nat);
        assert(encode(bits, count).drop_first() =~= rest);
    }
}

/// The length of what `encode` gives.
pub proof fn lemma_encode_len(bits: int, count: nat)
    ensures
        encode(bits, count).len() == count,
    decreases count,
{
    if count > 0 {
        lemma_encode_len(bits / 256, (count - 1) as nat);
    }
}

/// A patch is what stands at its place afterwards.
pub proof fn lemma_splice_same(bytes: Seq<u8>, at: int, patch: Seq<u8>)
    requires
        0 <= at,
        at + patch.len() <= bytes.len(),
    ensures
        splice(bytes, at, patch).len() == bytes.len(),
        splice(bytes, at, patch).subrange(at, at + patch.len()) == patch,
{
    assert(splice(bytes, at, patch).subrange(at, at + patch.len()) =~= patch);
}

/// A patch leaves every stretch that it does not touch as it was.
pub proof fn lemma_splice_other(bytes: Seq<u8>, at: int, patch: Seq<u8>, from: int, to: int)
    requires
        0 <= at,
        at + patch.len() <= bytes.len(),
        0 <= from <= to <= bytes.len(),
        to <= at || at + patch.len() <= from,
    ensures
        splice(bytes, at, patch).subrange(from, to) == bytes.subrange(from, to),
{
    assert(splice(bytes, at, patch).subrange(from, to) =~= bytes.subrange(from, to));
}

/// The byte store of the simulator: a fixed extent of bytes, an allocation
/// pointer that only ever advances, and the table of interned strings.
pub struct Memory {
    word_size: WordSize,
    bytes: Vec<u8>,
    heap_pointer: usize,
    strings: NameMap<RawData>,
}

impl Memory {
    /// The configuration under which addresses and stored words are read.
    pub closed spec fn spec_word_size(&self) -> WordSize {
        self.word_size
    }

    /// The contents, byte by byte, from address zero.
    pub closed spec fn spec_bytes(&self) -> Seq<u8> {
        self.bytes@
    }

    /// The first address that has not been handed out.
    pub closed spec fn spec_heap_pointer(&self) -> int {
        self.heap_pointer as int
    }

    /// The interned strings, each with the word that holds its address.
    pub closed spec fn spec_strings(&self) -> Map<Seq<char>, RawData> {
        self.strings@
    }

    /// Number of bytes in the store.
    pub open spec fn spec_size(&self) -> int {
        self.spec_bytes().len() as int
    }

    /// Whether `count` bytes from `address` on lie within the store.
    pub open spec fn spec_in_range(&self, address: int, count: int) -> bool {
        0 <= address && address + count <= self.spec_size()
    }

    /// The word that a read at `address` gives.
    pub open spec fn spec_read(&self, address: int) -> RawData {
        RawData::spec_from_int(
            decode(self.spec_bytes().subrange(address, address + self.spec_word_size().spec_bytes())),
            self.spec_word_size(),
        )
    }

    /// Whether the characters of `text` stand in the store from `address`
    /// on, one word each, followed by a zero word.
    pub open spec fn spec_holds_text(&self, address: int, text: Seq<char>) -> bool {
        let step = self.spec_word_size().spec_bytes();
        &&& forall|i: int|
            0 <= i < text.len() ==> #[trigger] self.spec_read(address + i * step)
                == RawData::spec_from_int(text[i] as int, self.spec_word_size())
        &&& self.spec_read(address + text.len() * step) == RawData::spec_from_int(
            0,
            self.spec_word_size(),
        )
    }

    /// Every address of the store fits a word, the allocation pointer lies
    /// within the store, and the interned strings have addresses below it,
    /// no two the same.
    pub closed spec fn wf(&self) -> bool {
        &&& self.word_size.wf()
        &&& 2 * self.bytes@.len() < self.word_size.modulus()
        &&& self.heap_pointer <= self.bytes@.len()
        &&& self.strings.wf()
        &&& forall|text: Seq<char>| #[trigger]
            self.strings@.dom().contains(text) ==> {
                &&& self.strings@[text].spec_word_size() == self.word_size
                &&& self.strings@[text].wf()
                &&& 0 <= self.strings@[text].spec_int_value() < self.heap_pointer
            }
        &&& forall|a: Seq<char>, b: Seq<char>|
            self.strings@.dom().contains(a) && self.strings@.dom().contains(b) && a != b
                ==> self.strings@[a] != self.strings@[b]
    }

    /// A store of `words` words of the given width, all zero, with nothing
    /// allocated. There is none if its addresses would not fit a word.
    pub fn new_sized(word_size: &WordSize, words: usize) -> (made: Option<Memory>)
        ensures
            made is Some <==> 2 * (words * word_size.spec_bytes()) < word_size.modulus() && words
                * word_size.spec_bytes() <= usize::MAX,
            made matches Some(memory) ==> {
                &&& memory.wf()
                &&& memory.spec_word_size() == *word_size
                &&& memory.spec_size() == words * word_size.spec_bytes()
                &&& memory.spec_heap_pointer() == 0
                &&& memory.spec_strings() == Map::<Seq<char>, RawData>::empty()
                &&& forall|i: int| 0 <= i < memory.spec_size() ==> memory.spec_bytes()[i] == 0
            },
    {
        let step = word_size.bytes();
        match words.checked_mul(step) {
            Some(size) => {
                if 2 * (size as u128) < word_size.modulus_value() {
                    let bytes: Vec<u8> = vec![0u8; size];
                    Some(
                        Memory {
                            word_size: *word_size,
                            bytes,
                            heap_pointer: 0,
                            strings: NameMap::new(),
                        },
                    )
                } else {
                    None
                }
            },
            None => None,
        }
    }

    /// A store of the default size under the default configuration.
    pub fn new() -> (memory: Memory)
        ensures
            memory.wf(),
            memory.spec_word_size() == WordSize::default_spec(),
            memory.spec_size() == DEFAULT_MEMORY_WORDS * memory.spec_word_size().spec_bytes(),
            memory.spec_heap_pointer() == 0,
            memory.spec_strings() == Map::<Seq<char>, RawData>::empty(),
            forall|i: int| 0 <= i < memory.spec_size() ==> memory.spec_bytes()[i] == 0,
    {
        let word_size = WordSize::default();
        let bytes: Vec<u8> = vec![0u8; DEFAULT_MEMORY_WORDS * DEFAULT_WORD_BYTES];
        Memory { word_size, bytes, heap_pointer: 0, strings: NameMap::new() }
    }

    /// The configuration under which addresses and stored words are read.
    pub fn word_size(&self) -> (word_size: WordSize)
        ensures
            word_size == self.spec_word_size(),
    {
        self.word_size
    }

    /// Number of bytes in the store.
    pub fn size(&self) -> (size: usize)
        ensures
            size == self.spec_size(),
    {
        self.bytes.len()
    }

    /// The first address that has not been handed out.
    pub fn current_heap_pointer(&self) -> (address: i64)
        requires
            self.wf(),
        ensures
            address == self.spec_heap_pointer(),
            0 <= address <= self.spec_size(),
    {
        self.heap_pointer as i64
    }

    fn load(&self, start: usize, count: usize) -> (value: u64)
        requires
            count <= 8,
            start + count <= self.bytes@.len(),
        ensures
            value == decode(self.bytes@.subrange(start as int, start + count)),
    {
        let size: usize = self.bytes.len();
        let mut value: u128 = 0;
        let mut taken: usize = 0;
        while taken < count
            invariant
                size == self.bytes@.len(),
                taken <= count <= 8,
                start + count <= self.bytes@.len(),
                value == decode(self.bytes@.subrange(start + count - taken, start + count)),
                0 <= value < radix(taken as int),
            decreases count - taken,
        {
            let place: usize = start + count - taken - 1;
            proof {
                let longer = self.bytes@.subrange(place as int, start + count);
                let shorter = self.bytes@.subrange(place + 1, start + count);
                assert(longer.drop_first() =~= shorter);
            }
            value = value * 256 + self.bytes[place] as u128;
            taken += 1;
        }
        value as u64
    }

    fn store(&mut self, start: usize, count: usize, bits: u64)
        requires
            count <= 8,
            start + count <= old(self).bytes@.len(),
        ensures
            final(self).bytes@ == splice(old(self).bytes@, start as int, encode(bits as int, count as nat)),
            final(self).bytes@.len() == old(self).bytes@.len(),
            final(self).word_size == old(self).word_size,
            final(self).heap_pointer == old(self).heap_pointer,
            final(self).strings == old(self).strings,
    {
        let size: usize = self.bytes.len();
        let mut rest: u64 = bits;
        let mut done: usize = 0;
        proof {
            lemma_encode_len(bits as int, count as nat);
        }
        while done < count
            invariant
                size == self.bytes@.len(),
                done <= count <= 8,
                start + count <= self.bytes@.len(),
                self.bytes@.len() == old(self).bytes@.len(),
                self.word_size == old(self).word_size,
                self.heap_pointer == old(self).heap_pointer,
                self.strings == old(self).strings,
                forall|i: int|
                    0 <= i < start || start + done <= i < self.bytes@.len() ==> self.bytes@[i] == old(
                        self,
                    ).bytes@[i],
                self.bytes@.subrange(start as int, start + done) + encode(
                    rest as int,
                    (count - done) as nat,
                ) == encode(bits as int, count as nat),
            decreases count - done,
        {
            let ghost before = self.bytes@;
            self.bytes.set(start + done, (rest % 256) as u8);
            proof {
                let tail = encode(rest as int / 256, (count - done - 1) as nat);
                assert(encode(rest as int, (count - done) as nat) == seq![(rest % 256) as u8] + tail);
                assert(self.bytes@.subrange(start as int, start + done + 1) =~= before.subrange(
                    start as int,
                    start + done,
                ).push((rest % 256) as u8));
                assert(self.bytes@.subrange(start as int, start + done + 1) + tail
                    =~= before.subrange(start as int, start + done) + encode(
                    rest as int,
                    (count - done) as nat,
                ));
            }
            rest = rest / 256;
            done += 1;
        }
        proof {
            let patch = encode(bits as int, count as nat);
            assert(self.bytes@.subrange(start as int, start + count) =~= patch);
            assert(self.bytes@ =~= splice(old(self).bytes@, start as int, patch));
        }
    }

    /// The address of an interned string. Looking one up changes nothing,
    /// so a string that was never interned is not found.
    pub fn get_string_immediate_address(&self, content: &String) -> (found: Result<
        &RawData,
        EzasmError,
    >)
        requires
            self.wf(),
        ensures
            found is Ok <==> self.spec_strings().dom().contains(content@),
            found matches Ok(address) ==> *address == self.spec_strings()[content@],
            found matches Err(error) ==> error == EzasmError::UnknownString(*content),
    {
        match self.strings.get(content) {
            Some(address) => Ok(address),
            None => Err(EzasmError::UnknownString(content.clone())),
        }
    }

    /// Number of bytes that the interned copy of `text` takes: one word
    /// for each character and one for the zero that ends it.
    pub open spec fn spec_text_extent(&self, text: Seq<char>) -> int {
        (text.len() + 1) * self.spec_word_size().spec_bytes()
    }

    /// Interns `content` and gives its address. A string interned before
    /// keeps its address and the store stays as it is. A new string is
    /// copied to the allocation pointer, which advances past the copy. If
    /// the store has no room for the copy, nothing changes.
    pub fn intern_string(&mut self, content: &String) -> (found: Result<RawData, EzasmError>)
        requires
            old(self).wf(),
        ensures
            final(self).wf(),
            final(self).spec_word_size() == old(self).spec_word_size(),
            final(self).spec_size() == old(self).spec_size(),
            old(self).spec_strings().dom().contains(content@) ==> {
                &&& found == Ok::<RawData, EzasmError>(old(self).spec_strings()[content@])
                &&& *final(self) == *old(self)
            },
            !old(self).spec_strings().dom().contains(content@) && old(self).spec_heap_pointer()
                + old(self).spec_text_extent(content@) > old(self).spec_size() ==> {
                &&& found == Err::<RawData, EzasmError>(EzasmError::UnknownString(*content))
                &&& *final(self) == *old(self)
            },
            !old(self).spec_strings().dom().contains(content@) && old(self).spec_heap_pointer()
                + old(self).spec_text_extent(content@) <= old(self).spec_size() ==> {
                let address = RawData::spec_from_int(
                    old(self).spec_heap_pointer(),
                    old(self).spec_word_size(),
                );
                &&& found == Ok::<RawData, EzasmError>(address)
                &&& address.spec_int_value() == old(self).spec_heap_pointer()
                &&& final(self).spec_strings() == old(self).spec_strings().insert(content@, address)
                &&& final(self).spec_heap_pointer() == old(self).spec_heap_pointer() + old(
                    self,
                ).spec_text_extent(content@)
                &&& final(self).spec_holds_text(old(self).spec_heap_pointer(), content@)
                &&& forall|i: int|
                    0 <= i < old(self).spec_heap_pointer() || final(self).spec_heap_pointer() <= i
                        < old(self).spec_size() ==> final(self).spec_bytes()[i] == old(
                        self,
                    ).spec_bytes()[i]
            },
    {
        match self.strings.get(content) {
            Some(address) => {
                return Ok(*address);
            },
            None => {},
        }
        let step: usize = self.word_size.bytes();
        let length: usize = content.as_str().unicode_len();
        let start: usize = self.heap_pointer;
        let size: usize = self.bytes.len();
        proof {
            assert((length + 1) * step >= length + 1) by (nonlinear_arith)
                requires
                    step >= 1,
                    length >= 0,
            ;
        }
        let needed: usize = match length.checked_add(1) {
            Some(words) => match words.checked_mul(step) {
                Some(needed) => needed,
                None => {
                    return Err(EzasmError::UnknownString(content.clone()));
                },
            },
            None => {
                return Err(EzasmError::UnknownString(content.clone()));
            },
        };
        if needed > size - start {
            return Err(EzasmError::UnknownString(content.clone()));
        }
        let modulus: u128 = self.word_size.modulus_value();
        let mut index: usize = 0;
        let mut cursor: usize = start;
        while index < length
            invariant
                index <= length == content@.len(),
                step == self.word_size.spec_bytes(),
                1 <= step <= 8,
                needed == (length + 1) * step,
                start + needed <= size == self.bytes@.len(),
                cursor == start + index * step,
                modulus == self.word_size.modulus(),
                self.word_size == old(self).word_size,
                self.heap_pointer == old(self).heap_pointer,
                self.strings == old(self).strings,
                self.bytes@.len() == old(self).bytes@.len(),
                forall|i: int|
                    0 <= i < start || cursor <= i < size ==> self.bytes@[i] == old(self).bytes@[i],
                forall|k: int|
                    0 <= k < index ==> #[trigger] self.spec_read(start + k * step)
                        == RawData::spec_from_int(content@[k] as int, self.word_size),
            decreases length - index,
        {
            let symbol: char = content.as_str().get_char(index);
            let bits: u64 = ((symbol as u32) as u128 % modulus) as u64;
            let ghost earlier = *self;
            let ghost before = self.bytes@;
            let ghost patch = encode(bits as int, step as nat);
            proof {
                assert((index + 1) * step == index * step + step) by (nonlinear_arith);
                assert((index + 1) * step <= length * step) by (nonlinear_arith)
                    requires
                        index + 1 <= length,
                        step >= 0,
                ;
                assert((length + 1) * step == length * step + step) by (nonlinear_arith);
                lemma_encode_len(bits as int, step as nat);
            }
            self.store(cursor, step, bits);
            proof {
                lemma_splice_same(before, cursor as int, patch);
                lemma_decode_encode(bits as int, step as nat);
                lemma_from_int(symbol as int, self.word_size);
                lemma_from_int(bits as int, self.word_size);
                lemma_word_extensional(
                    RawData::spec_from_int(bits as int, self.word_size),
                    RawData::spec_from_int(symbol as int, self.word_size),
                );
                assert(self.spec_read(start + index * step) == RawData::spec_from_int(
                    content@[index as int] as int,
                    self.word_size,
                ));
                assert forall|k: int| 0 <= k < index implies #[trigger] self.spec_read(
                    start + k * step,
                ) == RawData::spec_from_int(content@[k] as int, self.word_size) by {
                    assert((k + 1) * step <= index * step) by (nonlinear_arith)
                        requires
                            k + 1 <= index,
                            step >= 0,
                    ;
                    assert((k + 1) * step == k * step + step) by (nonlinear_arith);
                    assert(k * step >= 0) by (nonlinear_arith)
                        requires
                            k >= 0,
                            step >= 0,
                    ;
                    lemma_splice_other(
                        before,
                        cursor as int,
                        patch,
                        start + k * step,
                        start + k * step + step,
                    );
                    assert(earlier.spec_read(start + k * step) == RawData::spec_from_int(
                        content@[k] as int,
                        self.word_size,
                    ));
                }
            }
            index += 1;
            cursor += step;
        }
        let ghost earlier = *self;
        let ghost before = self.bytes@;
        let ghost patch = encode(0, step as nat);
        proof {
            assert((length + 1) * step == length * step + step) by (nonlinear_arith);
            lemma_encode_len(0, step as nat);
        }
        self.store(cursor, step, 0);
        let address = RawData::from_int(start as i64, &self.word_size);
        proof {
            lemma_splice_same(before, cursor as int, patch);
            lemma_decode_encode(0, step as nat);
            assert forall|k: int| 0 <= k < length implies #[trigger] self.spec_read(start + k * step)
                == RawData::spec_from_int(content@[k] as int, self.word_size) by {
                assert((k + 1) * step <= length * step) by (nonlinear_arith)
                    requires
                        k + 1 <= length,
                        step >= 0,
                ;
                assert((k + 1) * step == k * step + step) by (nonlinear_arith);
                assert(k * step >= 0) by (nonlinear_arith)
                    requires
                        k >= 0,
                        step >= 0,
                ;
                lemma_splice_other(
                    before,
                    cursor as int,
                    patch,
                    start + k * step,
                    start + k * step + step,
                );
                assert(earlier.spec_read(start + k * step) == RawData::spec_from_int(
                    content@[k] as int,
                    self.word_size,
                ));
            }
            lemma_from_int_round_trip(start as int, self.word_size);
            lemma_from_int(start as int, self.word_size);
        }
        let ghost written = *self;
        self.heap_pointer = start + needed;
        self.strings.insert(content.clone(), address);
        proof {
            assert(self.spec_text_extent(content@) == needed);
            assert(self.spec_read(start + length * step) == written.spec_read(start + length * step));
            assert forall|k: int| 0 <= k < length implies #[trigger] self.spec_read(start + k * step)
                == RawData::spec_from_int(content@[k] as int, self.word_size) by {
                assert(written.spec_read(start + k * step) == RawData::spec_from_int(
                    content@[k] as int,
                    self.word_size,
                ));
            }
            assert(self.spec_holds_text(start as int, content@));
            assert forall|i: int| 0 <= i < start || start + needed <= i < size implies self.bytes@[i]
                == old(self).bytes@[i] by {
                assert(self.bytes@[i] == before[i]);
            }
            assert(needed >= 1) by (nonlinear_arith)
                requires
                    needed == (length + 1) * step,
                    step >= 1,
                    length >= 0,
            ;
            assert forall|a: Seq<char>, b: Seq<char>|
                self.strings@.dom().contains(a) && self.strings@.dom().contains(b) && a
                    != b implies self.strings@[a] != self.strings@[b] by {
                if a != content@ {
                    assert(old(self).strings@.dom().contains(a));
                }
                if b != content@ {
                    assert(old(self).strings@.dom().contains(b));
                }
            }
        }
        Ok(address)
    }

    /// Reads the word at `address`.
    pub fn read(&self, address: i64) -> (found: Result<RawData, EzasmError>)
        requires
            self.wf(),
        ensures
            match found {
                Ok(data) => self.spec_in_range(address as int, self.spec_word_size().spec_bytes())
                    && data == self.spec_read(address as int),
                Err(error) => !self.spec_in_range(address as int, self.spec_word_size().spec_bytes())
                    && error == EzasmError::OutOfRange(address),
            },
    {
        let count = self.word_size.bytes();
        if address < 0 || address as u128 + count as u128 > self.bytes.len() as u128 {
            return Err(EzasmError::OutOfRange(address));
        }
        let value = self.load(address as usize, count);
        Ok(RawData::from_unsigned(value, &self.word_size))
    }

    /// Writes `data` at `address`, in as many bytes as the word's own
    /// width has. Nothing else in the store changes.
    pub fn write(&mut self, address: i64, data: &RawData) -> (done: Result<(), EzasmError>)
        requires
            old(self).wf(),
        ensures
            final(self).wf(),
            final(self).spec_word_size() == old(self).spec_word_size(),
            final(self).spec_heap_pointer() == old(self).spec_heap_pointer(),
            final(self).spec_strings() == old(self).spec_strings(),
            done == if old(self).spec_in_range(address as int, data.spec_word_size().spec_bytes()) {
                Ok::<(), EzasmError>(())
            } else {
                Err::<(), EzasmError>(EzasmError::OutOfRange(address))
            },
            final(self).spec_bytes() == if old(self).spec_in_range(
                address as int,
                data.spec_word_size().spec_bytes(),
            ) {
                splice(
                    old(self).spec_bytes(),
                    address as int,
                    encode(data.spec_bits(), data.spec_word_size().spec_bytes() as nat),
                )
            } else {
                old(self).spec_bytes()
            },
    {
        proof {
            use_type_invariant(data);
        }
        let count = data.word_size().bytes();
        if address < 0 || address as u128 + count as u128 > self.bytes.len() as u128 {
            return Err(EzasmError::OutOfRange(address));
        }
        self.store(address as usize, count, data.bits());
        Ok(())
    }
}

} // verus!

verus! {

/// A word written to the store is the word read back from the same
/// address, provided it was made under the store's own configuration.
pub proof fn lemma_read_after_write(before: Memory, after: Memory, address: int, data: RawData)
    requires
        data.wf(),
        data.spec_word_size() == after.spec_word_size(),
        before.spec_in_range(address, data.spec_word_size().spec_bytes()),
        after.spec_bytes() == splice(
            before.spec_bytes(),
            address,
            encode(data.spec_bits(), data.spec_word_size().spec_bytes() as nat),
        ),
    ensures
        after.spec_read(address) == data,
{
    let count = data.spec_word_size().spec_bytes() as nat;
    let patch = encode(data.spec_bits(), count);
    lemma_decode_encode(data.spec_bits(), count);
    lemma_splice_same(before.spec_bytes(), address, patch);
    lemma_from_int(data.spec_bits(), data.spec_word_size());
    lemma_word_extensional(RawData::spec_from_int(data.spec_bits(), data.spec_word_size()), data);
}

/// A write leaves the word at every address that it does not overlap.
pub proof fn lemma_write_elsewhere(
    before: Memory,
    after: Memory,
    address: int,
    data: RawData,
    other: int,
)
    requires
        before.spec_word_size().wf(),
        data.spec_word_size().wf(),
        after.spec_word_size() == before.spec_word_size(),
        before.spec_in_range(address, data.spec_word_size().spec_bytes()),
        before.spec_in_range(other, before.spec_word_size().spec_bytes()),
        other + before.spec_word_size().spec_bytes() <= address || address
            + data.spec_word_size().spec_bytes() <= other,
        after.spec_bytes() == splice(
            before.spec_bytes(),
            address,
            encode(data.spec_bits(), data.spec_word_size().spec_bytes() as nat),
        ),
    ensures
        after.spec_read(other) == before.spec_read(other),
{
    let count = data.spec_word_size().spec_bytes() as nat;
    let patch = encode(data.spec_bits(), count);
    lemma_encode_len(data.spec_bits(), count);
    lemma_splice_other(
        before.spec_bytes(),
        address,
        patch,
        other,
        other + before.spec_word_size().spec_bytes(),
    );
}

/// Two different interned strings never share an address, and every
/// interned address lies below the allocation pointer.
pub proof fn lemma_interned_addresses(memory: Memory, first: Seq<char>, second: Seq<char>)
    requires
        memory.wf(),
        memory.spec_strings().dom().contains(first),
        memory.spec_strings().dom().contains(second),
    ensures
        first != second ==> memory.spec_strings()[first] != memory.spec_strings()[second],
        0 <= memory.spec_strings()[first].spec_int_value() < memory.spec_heap_pointer(),
        memory.spec_strings()[first].spec_word_size() == memory.spec_word_size(),
{
}

/// What well-formedness says of the store's extent.
pub proof fn lemma_memory_extent(memory: Memory)
    requires
        memory.wf(),
    ensures
        memory.spec_word_size().wf(),
        0 <= memory.spec_heap_pointer() <= memory.spec_size(),
        2 * memory.spec_size() < memory.spec_word_size().modulus(),
{
}

} // verus!
