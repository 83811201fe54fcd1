use vstd::prelude::*;
use vstd::arithmetic::power2::{lemma2_to64, lemma2_to64_rest, pow2};

verus! {

/// Width of a machine word, in bytes. Only widths from one to eight bytes
/// exist, so every word fits a native 64-bit integer.
#[derive(Clone, Copy, Debug, PartialEq, Eq, Structural)]
pub struct WordSize {
    bytes: u8,
}

/// Number of bytes in a word of the default configuration.
pub const DEFAULT_WORD_BYTES: usize = 4;

/// Largest width, in bytes, that a configuration may have.
pub const MAX_WORD_BYTES: usize = 8;

/// Two to the power `8 * bytes`, for the widths that exist.
pub open spec fn modulus_of(bytes: int) -> int {
    if bytes == 1 {
        0x100
    } else if bytes == 2 {
        0x1_0000
    } else if bytes == 3 {
        0x100_0000
    } else if bytes == 4 {
        0x1_0000_0000
    } else if bytes == 5 {
        0x100_0000_0000
    } else if bytes == 6 {
        0x1_0000_0000_0000
    } else if bytes == 7 {
        0x100_0000_0000_0000
    } else {
        0x1_0000_0000_0000_0000
    }
}

impl WordSize {
    /// Number of bytes in a word, as a mathematical integer.
    pub closed spec fn spec_bytes(self) -> int {
        self.bytes as int
    }

    /// Every value of the type describes a width that exists.
    #[verifier::type_invariant]
    pub open spec fn wf(self) -> bool {
        1 <= self.spec_bytes() <= 8
    }

    /// Number of distinct values of a word: two to the power of its bit width.
    pub open spec fn modulus(self) -> int {
        modulus_of(self.spec_bytes())
    }

    /// Builds a configuration, or rejects a width that no word can have.
    pub fn new(bytes: usize) -> (r: Option<WordSize>)
        ensures
            r is Some <==> 1 <= bytes <= MAX_WORD_BYTES,
            r matches Some(w) ==> w.wf() && w.spec_bytes() == bytes,
    {
        if 1 <= bytes && bytes <= MAX_WORD_BYTES {
            Some(WordSize { bytes: bytes as u8 })
        } else {
            None
        }
    }

    /// Number of bytes in a word.
    pub fn bytes(&self) -> (n: usize)
        ensures
            n == self.spec_bytes(),
            1 <= n <= MAX_WORD_BYTES,
    {
        proof {
            use_type_invariant(self);
        }
        self.bytes as usize
    }

    /// Number of bits in a word.
    pub fn bits(&self) -> (n: usize)
        ensures
            n == 8 * self.spec_bytes(),
    {
        proof {
            use_type_invariant(self);
        }
        8 * (self.bytes as usize)
    }

    /// The modulus as a machine integer.
    pub fn modulus_value(&self) -> (m: u128)
        ensures
            m == self.modulus(),
            self.wf(),
    {
        proof {
            use_type_invariant(self);
        }
        let mut m: u128 = 1;
        let mut i: u8 = 0;
        while i < self.bytes
            invariant
                i <= self.bytes <= 8,
                i == 0 ==> m == 1,
                i > 0 ==> m == modulus_of(i as int),
            decreases self.bytes - i,
        {
            m = m * 256;
            i = i + 1;
        }
        m
    }
}

impl WordSize {
    /// The default configuration as a value of specifications.
    pub closed spec fn default_spec() -> WordSize {
        WordSize { bytes: 4 }
    }

    /// The default configuration is a width that exists.
    pub proof fn lemma_default()
        ensures
            Self::default_spec().wf(),
            Self::default_spec().spec_bytes() == DEFAULT_WORD_BYTES,
            Self::default_spec().modulus() == 0x1_0000_0000,
    {
    }
}

impl Default for WordSize {
    /// The default configuration: words of `DEFAULT_WORD_BYTES` bytes.
    fn default() -> (r: WordSize)
        ensures
            r == WordSize::default_spec(),
            r.wf(),
            r.spec_bytes() == DEFAULT_WORD_BYTES,
    {
        WordSize { bytes: 4 }
    }
}

/// The modulus of a width is two to the power of its number of bits.
pub proof fn lemma_modulus_is_power_of_two(word_size: WordSize)
    requires
        word_size.wf(),
    ensures
        word_size.modulus() == pow2((8 * word_size.spec_bytes()) as nat),
{
    lemma2_to64();
    lemma2_to64_rest();
}

} // verus!
