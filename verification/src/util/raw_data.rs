use vstd::prelude::*;
use vstd::arithmetic::div_mod::{lemma_fundamental_div_mod, lemma_mod_multiples_vanish};
use crate::util::word_size::WordSize;

verus! {

/// A fixed-width binary word together with the configuration it was made
/// under. The bits are kept as the unsigned residue below the modulus.
#[derive(Clone, Copy, Debug, PartialEq, Eq, Structural)]
pub struct RawData {
    bits: u64,
    word_size: WordSize,
}

/// The unsigned residue of `value` in a word of the given configuration.
pub open spec fn wrap(value: int, word_size: WordSize) -> int {
    value % word_size.modulus()
}

/// The signed reading of an unsigned residue: the upper half of the range
/// stands for the negative numbers.
pub open spec fn sign_extend(bits: int, word_size: WordSize) -> int {
    if 2 * bits >= word_size.modulus() {
        bits - word_size.modulus()
    } else {
        bits
    }
}

/// Whether `value` is one of the signed integers that a word can hold.
pub open spec fn fits(value: int, word_size: WordSize) -> bool {
    -word_size.modulus() <= 2 * value < word_size.modulus()
}

impl RawData {
    /// The unsigned residue that the word stores.
    pub closed spec fn spec_bits(self) -> int {
        self.bits as int
    }

    /// The configuration that the word was made under.
    pub closed spec fn spec_word_size(self) -> WordSize {
        self.word_size
    }

    /// The stored residue lies below the modulus of the word's own width.
    #[verifier::type_invariant]
    pub open spec fn wf(self) -> bool {
        &&& self.spec_word_size().wf()
        &&& 0 <= self.spec_bits() < self.spec_word_size().modulus()
    }

    /// The signed integer that the word stands for.
    pub open spec fn spec_int_value(self) -> int {
        sign_extend(self.spec_bits(), self.spec_word_size())
    }

    /// The word that holds `value`, wrapped, under the given configuration.
    pub closed spec fn spec_from_int(value: int, word_size: WordSize) -> RawData {
        RawData { bits: wrap(value, word_size) as u64, word_size }
    }

    /// Builds the word for `value`. A value outside the range of the width
    /// is wrapped modulo two to the power of the bit width, never rejected.
    pub fn from_int(value: i64, word_size: &WordSize) -> (r: RawData)
        ensures
            r == Self::spec_from_int(value as int, *word_size),
            r.wf(),
            r.spec_word_size() == *word_size,
            r.spec_bits() == wrap(value as int, *word_size),
    {
        Self::from_wide(value as i128, word_size)
    }

    /// Builds the word for an integer of double width, wrapped like any
    /// other. The sum, difference or product of two word values fits such
    /// an integer.
    pub fn from_wide(value: i128, word_size: &WordSize) -> (r: RawData)
        ensures
            r == Self::spec_from_int(value as int, *word_size),
            r.wf(),
            r.spec_word_size() == *word_size,
            r.spec_bits() == wrap(value as int, *word_size),
    {
        let m: u128 = word_size.modulus_value();
        let bits: u128 = if value >= 0 {
            (value as u128) % m
        } else if value == i128::MIN {
            proof {
                let half: int = 0x8000_0000_0000_0000_0000_0000_0000_0000int;
                let q: int = half / (m as int);
                assert((m as int) * q == half);
                assert(value as int == (-q) * m + 0) by (nonlinear_arith)
                    requires
                        value == -half,
                        (m as int) * q == half,
                ;
                lemma_mod_multiples_vanish(-q, 0, m as int);
            }
            0
        } else {
            let size: u128 = (-value) as u128;
            let rest: u128 = size % m;
            proof {
                let q = (size / m) as int;
                assert(size == q * m + rest) by {
                    lemma_fundamental_div_mod(size as int, m as int);
                    assert((m as int) * q == q * (m as int)) by (nonlinear_arith);
                }
                if rest == 0 {
                    assert(value as int == (-q) * m + 0) by (nonlinear_arith)
                        requires
                            value == -size,
                            size == q * m + rest,
                            rest == 0,
                    ;
                    lemma_mod_multiples_vanish(-q, 0, m as int);
                } else {
                    assert(value as int == (-q - 1) * m + (m - rest)) by (nonlinear_arith)
                        requires
                            value == -size,
                            size == q * m + rest,
                    ;
                    lemma_mod_multiples_vanish(-q - 1, m - rest, m as int);
                }
            }
            if rest == 0 {
                0
            } else {
                m - rest
            }
        };
        RawData { bits: bits as u64, word_size: *word_size }
    }

    /// Builds the word whose bits are `bits`, wrapped to the width.
    pub fn from_unsigned(bits: u64, word_size: &WordSize) -> (r: RawData)
        ensures
            r == Self::spec_from_int(bits as int, *word_size),
            r.wf(),
            r.spec_word_size() == *word_size,
            r.spec_bits() == wrap(bits as int, *word_size),
    {
        let m: u128 = word_size.modulus_value();
        let wrapped: u128 = (bits as u128) % m;
        RawData { bits: wrapped as u64, word_size: *word_size }
    }

    /// The signed integer that the word stands for: the stored bits,
    /// sign-extended from the word's width.
    pub fn int_value(&self) -> (v: i64)
        ensures
            v == self.spec_int_value(),
            self.wf(),
    {
        proof {
            use_type_invariant(self);
        }
        let m: i128 = self.word_size.modulus_value() as i128;
        let bits: i128 = self.bits as i128;
        if 2 * bits >= m {
            (bits - m) as i64
        } else {
            bits as i64
        }
    }

    /// The configuration that the word was made under.
    pub fn word_size(&self) -> (w: WordSize)
        ensures
            w == self.spec_word_size(),
    {
        self.word_size
    }

    /// The stored bits as an unsigned integer.
    pub fn bits(&self) -> (b: u64)
        ensures
            b == self.spec_bits(),
    {
        self.bits
    }
}

/// What the word made from an integer holds: the residue of the integer,
/// under the configuration given.
pub proof fn lemma_from_int(value: int, word_size: WordSize)
    requires
        word_size.wf(),
    ensures
        RawData::spec_from_int(value, word_size).wf(),
        RawData::spec_from_int(value, word_size).spec_word_size() == word_size,
        RawData::spec_from_int(value, word_size).spec_bits() == wrap(value, word_size),
{
}

/// A word is determined by its configuration and its residue.
pub proof fn lemma_word_extensional(a: RawData, b: RawData)
    requires
        a.spec_word_size() == b.spec_word_size(),
        a.spec_bits() == b.spec_bits(),
    ensures
        a == b,
{
}

/// Reading back the integer of a word made from `value` gives `value`
/// whenever `value` is within the signed range of the width.
pub proof fn lemma_from_int_round_trip(value: int, word_size: WordSize)
    requires
        word_size.wf(),
        fits(value, word_size),
    ensures
        RawData::spec_from_int(value, word_size).spec_int_value() == value,
{
    let m = word_size.modulus();
    if value < 0 {
        lemma_mod_multiples_vanish(1, value, m);
        assert((value + m) % m == value + m);
    } else {
        assert(value % m == value);
    }
}

/// Making a word again from the integer of a well-formed word gives the
/// same word.
pub proof fn lemma_int_value_round_trip(word: RawData)
    requires
        word.wf(),
    ensures
        RawData::spec_from_int(word.spec_int_value(), word.spec_word_size()) == word,
        fits(word.spec_int_value(), word.spec_word_size()),
{
    let m = word.spec_word_size().modulus();
    let b = word.spec_bits();
    if 2 * b >= m {
        lemma_mod_multiples_vanish(-1, b, m);
    }
    assert(b % m == b);
}

/// Wrapping depends only on the residue: two integers that differ by a
/// multiple of the modulus give the same word.
pub proof fn lemma_from_int_congruent(a: int, b: int, k: int, word_size: WordSize)
    requires
        word_size.wf(),
        a == b + k * word_size.modulus(),
    ensures
        RawData::spec_from_int(a, word_size) == RawData::spec_from_int(b, word_size),
{
    lemma_mod_multiples_vanish(k, b, word_size.modulus());
    assert(word_size.modulus() * k == k * word_size.modulus()) by (nonlinear_arith);
}

} // verus!
