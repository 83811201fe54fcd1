use vstd::prelude::*;
use vstd::string::*;
use crate::error::EzasmError;

verus! {

/// The characters at which a scan of a line or of a token stops.
#[derive(Clone, Copy, Debug, PartialEq, Eq, Structural)]
pub enum Stop {
    /// `#`, which begins a comment.
    Comment,
    /// A blank, a tab, a line end, a comma or a semicolon.
    Separator,
    /// `.`, which parts the whole digits of a number from the rest.
    Point,
    /// `(`, which parts an offset from the register it is added to.
    Bracket,
}

impl Stop {
    /// Whether a scan of this kind stops at `symbol`.
    pub open spec fn spec_hits(self, symbol: char) -> bool {
        match self {
            Stop::Comment => symbol == '#',
            Stop::Separator => symbol == ' ' || symbol == '\t' || symbol == '\n' || symbol == '\r'
                || symbol == ',' || symbol == ';',
            Stop::Point => symbol == '.',
            Stop::Bracket => symbol == '(',
        }
    }

    /// Whether a scan of this kind stops at `symbol`.
    pub fn hits(self, symbol: char) -> (hit: bool)
        ensures
            hit == self.spec_hits(symbol),
    {
        match self {
            Stop::Comment => symbol == '#',
            Stop::Separator => symbol == ' ' || symbol == '\t' || symbol == '\n' || symbol == '\r'
                || symbol == ',' || symbol == ';',
            Stop::Point => symbol == '.',
            Stop::Bracket => symbol == '(',
        }
    }
}

/// Number of characters at the start of `text` before the first one that
/// `stop` hits; the length of `text` where it hits none.
pub open spec fn run_length(text: Seq<char>, stop: Stop) -> int
    decreases text.len(),
{
    if text.len() == 0 || stop.spec_hits(text[0]) {
        0
    } else {
        1 + run_length(text.drop_first(), stop)
    }
}

/// A run ends at the first character that the stop hits, or at the end.
pub proof fn lemma_run_length(text: Seq<char>, stop: Stop, length: int)
    requires
        0 <= length <= text.len(),
        forall|i: int| 0 <= i < length ==> !stop.spec_hits(text[i]),
        length == text.len() || stop.spec_hits(text[length]),
    ensures
        run_length(text, stop) == length,
    decreases text.len(),
{
    if length > 0 {
        let rest = text.drop_first();
        assert forall|i: int| 0 <= i < length - 1 implies !stop.spec_hits(rest[i]) by {
            assert(rest[i] == text[i + 1]);
        }
        lemma_run_length(rest, stop, length - 1);
    }
}

/// A run lies within the text and holds no character that the stop hits.
pub proof fn lemma_run_bounds(text: Seq<char>, stop: Stop)
    ensures
        0 <= run_length(text, stop) <= text.len(),
        forall|i: int| 0 <= i < run_length(text, stop) ==> !stop.spec_hits(text[i]),
        run_length(text, stop) < text.len() ==> stop.spec_hits(text[run_length(text, stop)]),
    decreases text.len(),
{
    if text.len() > 0 && !stop.spec_hits(text[0]) {
        let rest = text.drop_first();
        lemma_run_bounds(rest, stop);
        assert forall|i: int| 0 <= i < run_length(text, stop) implies !stop.spec_hits(text[i]) by {
            if i > 0 {
                assert(rest[i - 1] == text[i]);
            }
        }
    }
}

/// The words of `text`: its longest stretches free of separators, in
/// order.
pub open spec fn split_words(text: Seq<char>) -> Seq<Seq<char>>
    decreases text.len(),
{
    if text.len() == 0 {
        Seq::empty()
    } else if Stop::Separator.spec_hits(text[0]) {
        split_words(text.drop_first())
    } else {
        let length = run_length(text, Stop::Separator);
        if 0 < length <= text.len() {
            seq![text.take(length)] + split_words(text.skip(length))
        } else {
            Seq::empty()
        }
    }
}

/// The tokens of a line: the words of what stands before the first `#`.
pub open spec fn spec_tokenize_line(line: Seq<char>) -> Seq<Seq<char>> {
    split_words(line.take(run_length(line, Stop::Comment)))
}

/// The characters of each string of a sequence.
pub open spec fn views(strings: Seq<String>) -> Seq<Seq<char>> {
    Seq::new(strings.len(), |i: int| strings[i]@)
}

/// The characters of a string, one by one.
pub fn to_chars(text: &str) -> (symbols: Vec<char>)
    ensures
        symbols@ == text@,
{
    let length = text.unicode_len();
    let mut symbols: Vec<char> = Vec::new();
    let mut index: usize = 0;
    while index < length
        invariant
            index <= length == text@.len(),
            symbols@ == text@.take(index as int),
        decreases length - index,
    {
        symbols.push(text.get_char(index));
        assert(text@.take(index + 1) =~= text@.take(index as int).push(text@[index as int]));
        index += 1;
    }
    assert(text@.take(length as int) =~= text@);
    symbols
}

/// Scans `symbols` from `from` up to `limit` for the first character that
/// `stop` hits.
pub fn scan(symbols: &Vec<char>, from: usize, limit: usize, stop: Stop) -> (end: usize)
    requires
        from <= limit <= symbols@.len(),
    ensures
        from <= end <= limit,
        end - from == run_length(symbols@.subrange(from as int, limit as int), stop),
{
    let mut end: usize = from;
    while end < limit && !stop.hits(symbols[end])
        invariant
            from <= end <= limit <= symbols@.len(),
            forall|i: int| from <= i < end ==> !stop.spec_hits(symbols@[i]),
        decreases limit - end,
    {
        end += 1;
    }
    proof {
        lemma_run_length(symbols@.subrange(from as int, limit as int), stop, end - from);
    }
    end
}

/// Splits a line into its tokens. Whatever follows the first `#` is a
/// comment and gives none.
pub fn tokenize_line(line: &String) -> (tokens: Vec<String>)
    ensures
        views(tokens@) == spec_tokenize_line(line@),
{
    let text = line.as_str();
    let symbols = to_chars(text);
    let limit = scan(&symbols, 0, symbols.len(), Stop::Comment);
    let ghost code = line@.take(limit as int);
    assert(symbols@.subrange(0, symbols@.len() as int) =~= line@);
    let mut tokens: Vec<String> = Vec::new();
    let mut index: usize = 0;
    assert(code.skip(0) =~= code);
    while index < limit
        invariant
            index <= limit <= symbols@.len(),
            symbols@ == line@,
            text@ == line@,
            code == line@.take(limit as int),
            views(tokens@) + split_words(code.skip(index as int)) == split_words(code),
        decreases limit - index,
    {
        let ghost rest = code.skip(index as int);
        if Stop::Separator.hits(symbols[index]) {
            assert(rest.drop_first() =~= code.skip(index + 1));
            index += 1;
        } else {
            let end = scan(&symbols, index, limit, Stop::Separator);
            let token = text.substring_char(index, end).to_owned();
            let ghost before = tokens@;
            proof {
                assert(symbols@.subrange(index as int, limit as int) =~= rest);
                lemma_run_bounds(rest, Stop::Separator);
                lemma_run_bounds(rest.drop_first(), Stop::Separator);
                assert(rest[0] == symbols@[index as int]);
                assert(run_length(rest, Stop::Separator) == end - index);
                assert(end > index);
                assert(rest.take(end - index) =~= token@);
                assert(rest.skip(end - index) =~= code.skip(end as int));
                assert(split_words(rest) == seq![token@] + split_words(code.skip(end as int)));
            }
            tokens.push(token);
            proof {
                assert(views(tokens@) =~= views(before) + seq![token@]);
                assert(views(tokens@) + split_words(code.skip(end as int)) =~= views(before) + (
                seq![token@] + split_words(code.skip(end as int))));
            }
            index = end;
        }
    }
    assert(code.skip(limit as int) =~= Seq::<char>::empty());
    assert(views(tokens@) + Seq::<Seq<char>>::empty() =~= views(tokens@));
    tokens
}

/// A number with a fractional part, kept exactly: the sign, the whole
/// part, and the fraction as numerator over denominator. The denominator
/// is the base of the literal to the power of the number of its
/// fractional digits.
#[derive(Clone, Copy, Debug, PartialEq, Eq, Structural)]
pub struct Fraction {
    pub negative: bool,
    pub whole: u64,
    pub numerator: u64,
    pub denominator: u64,
}

/// What a numeric literal stands for.
#[derive(Clone, Copy, Debug, PartialEq, Eq, Structural)]
pub enum EZNumber {
    /// A literal without a point.
    Integer(i64),
    /// A literal with a point.
    Float(Fraction),
}

/// The value of a character as a digit; sixteen for one that is no digit
/// in any base up to sixteen.
pub open spec fn digit_value(symbol: char) -> int {
    if '0' <= symbol <= '9' {
        symbol as int - '0' as int
    } else if 'a' <= symbol <= 'f' {
        symbol as int - 'a' as int + 10
    } else if 'A' <= symbol <= 'F' {
        symbol as int - 'A' as int + 10
    } else {
        16
    }
}

/// Whether every character of `text` is a digit of `base`.
pub open spec fn all_digits(text: Seq<char>, base: int) -> bool {
    forall|i: int| 0 <= i < text.len() ==> digit_value(#[trigger] text[i]) < base
}

/// The number that the digits of `text` write in `base`.
pub open spec fn digits_value(text: Seq<char>, base: int) -> int
    decreases text.len(),
{
    if text.len() == 0 {
        0
    } else {
        digits_value(text.drop_last(), base) * base + digit_value(text.last())
    }
}

/// `base` to the power of `exponent`.
pub open spec fn power(base: int, exponent: nat) -> int
    decreases exponent,
{
    if exponent == 0 {
        1
    } else {
        base * power(base, (exponent - 1) as nat)
    }
}

/// The base that the start of a literal announces: sixteen after `0x`,
/// two after `0b`, else ten.
pub open spec fn spec_base(body: Seq<char>) -> int {
    if body.len() >= 2 && body[0] == '0' && (body[1] == 'x' || body[1] == 'X') {
        16
    } else if body.len() >= 2 && body[0] == '0' && (body[1] == 'b' || body[1] == 'B') {
        2
    } else {
        10
    }
}

/// What a literal stands for, if it is one: an optional `-`, an optional
/// `0x` or `0b`, digits of the base, and optionally a point and more
/// digits. A literal without a point must fit a signed 64-bit integer.
/// Of one with a point, the whole part, the numerator and the
/// denominator must each fit an unsigned 64-bit integer.
pub open spec fn spec_text_to_number(text: Seq<char>) -> Option<EZNumber> {
    let negative = text.len() > 0 && text[0] == '-';
    let body = if negative {
        text.skip(1)
    } else {
        text
    };
    let base = spec_base(body);
    let digits = if base == 10 {
        body
    } else {
        body.skip(2)
    };
    let point = run_length(digits, Stop::Point);
    let whole = digits.take(point);
    if whole.len() == 0 || !all_digits(whole, base) || digits_value(whole, base) > u64::MAX {
        None
    } else if point == digits.len() {
        let magnitude = digits_value(whole, base);
        let value = if negative {
            -magnitude
        } else {
            magnitude
        };
        if i64::MIN <= value <= i64::MAX {
            Some(EZNumber::Integer(value as i64))
        } else {
            None
        }
    } else {
        let part = digits.skip(point + 1);
        if part.len() == 0 || !all_digits(part, base) || digits_value(part, base) > u64::MAX
            || power(base, part.len()) > u64::MAX {
            None
        } else {
            Some(
                EZNumber::Float(
                    Fraction {
                        negative,
                        whole: digits_value(whole, base) as u64,
                        numerator: digits_value(part, base) as u64,
                        denominator: power(base, part.len()) as u64,
                    },
                ),
            )
        }
    }
}

/// The digits of a longer text write no smaller a number than those of
/// any of its beginnings.
pub proof fn lemma_digits_monotone(text: Seq<char>, base: int, length: int)
    requires
        base >= 1,
        0 <= length <= text.len(),
    ensures
        0 <= digits_value(text.take(length), base) <= digits_value(text, base),
    decreases text.len(),
{
    if length == text.len() {
        assert(text.take(length) =~= text);
        if text.len() > 0 {
            lemma_digits_monotone(text.drop_last(), base, length - 1);
            assert(text.drop_last().take(length - 1) =~= text.drop_last());
            assert(digits_value(text.drop_last(), base) * base >= 0) by (nonlinear_arith)
                requires
                    digits_value(text.drop_last(), base) >= 0,
                    base >= 1,
            ;
        }
    } else {
        let shorter = text.drop_last();
        lemma_digits_monotone(shorter, base, length);
        assert(shorter.take(length) =~= text.take(length));
        assert(digits_value(shorter, base) * base >= digits_value(shorter, base))
            by (nonlinear_arith)
            requires
                digits_value(shorter, base) >= 0,
                base >= 1,
        ;
    }
}

/// A power of a base of at least one is no smaller than any lower power.
pub proof fn lemma_power_monotone(base: int, lower: nat, upper: nat)
    requires
        base >= 1,
        lower <= upper,
    ensures
        1 <= power(base, lower) <= power(base, upper),
    decreases upper,
{
    if upper == 0 {
    } else if lower == upper {
        lemma_power_monotone(base, (lower - 1) as nat, (upper - 1) as nat);
        assert(base * power(base, (upper - 1) as nat) >= 1) by (nonlinear_arith)
            requires
                base >= 1,
                power(base, (upper - 1) as nat) >= 1,
        ;
    } else {
        lemma_power_monotone(base, lower, (upper - 1) as nat);
        assert(base * power(base, (upper - 1) as nat) >= power(base, (upper - 1) as nat))
            by (nonlinear_arith)
            requires
                base >= 1,
                power(base, (upper - 1) as nat) >= 1,
        ;
    }
}

/// The value of a character as a digit.
pub fn digit_of(symbol: char) -> (value: u32)
    ensures
        value == digit_value(symbol),
        value <= 16,
{
    if symbol >= '0' && symbol <= '9' {
        (symbol as u32) - ('0' as u32)
    } else if symbol >= 'a' && symbol <= 'f' {
        (symbol as u32) - ('a' as u32) + 10
    } else if symbol >= 'A' && symbol <= 'F' {
        (symbol as u32) - ('A' as u32) + 10
    } else {
        16
    }
}

/// The number that the characters from `from` up to `to` write in
/// `base`, where all of them are digits of it and the number fits.
pub fn parse_digits(symbols: &Vec<char>, from: usize, to: usize, base: u32) -> (value: Option<u64>)
    requires
        from <= to <= symbols@.len(),
        2 <= base <= 16,
    ensures
        value is Some <==> all_digits(symbols@.subrange(from as int, to as int), base as int)
            && digits_value(symbols@.subrange(from as int, to as int), base as int) <= u64::MAX,
        value matches Some(number) ==> number == digits_value(
            symbols@.subrange(from as int, to as int),
            base as int,
        ),
{
    let ghost text = symbols@.subrange(from as int, to as int);
    let mut number: u64 = 0;
    let mut index: usize = from;
    assert(text.take(0) =~= Seq::<char>::empty());
    while index < to
        invariant
            from <= index <= to <= symbols@.len(),
            2 <= base <= 16,
            text == symbols@.subrange(from as int, to as int),
            all_digits(text.take(index - from), base as int),
            number == digits_value(text.take(index - from), base as int),
        decreases to - index,
    {
        let digit = digit_of(symbols[index]);
        let ghost longer = text.take(index - from + 1);
        proof {
            assert(text[index - from] == symbols@[index as int]);
            assert(longer.drop_last() =~= text.take(index - from));
            assert(longer.last() == text[index - from]);
        }
        if digit >= base {
            return None;
        }
        assert(number as int * base as int <= 0xffff_ffff_ffff_ffff * 16) by (nonlinear_arith)
            requires
                0 <= number as int <= 0xffff_ffff_ffff_ffff,
                0 <= base as int <= 16,
        ;
        let next: u128 = number as u128 * base as u128 + digit as u128;
        if next > u64::MAX as u128 {
            proof {
                if all_digits(text, base as int) {
                    lemma_digits_monotone(text, base as int, index - from + 1);
                }
            }
            return None;
        }
        proof {
            assert forall|i: int| 0 <= i < longer.len() implies digit_value(#[trigger] longer[i])
                < base by {
                if i < index - from {
                    assert(text.take(index - from)[i] == longer[i]);
                }
            }
        }
        number = next as u64;
        index += 1;
    }
    assert(text.take(to - from) =~= text);
    Some(number)
}

/// `base` to the power of `exponent`, where that fits.
pub fn power_of(base: u32, exponent: usize) -> (value: Option<u64>)
    requires
        2 <= base <= 16,
    ensures
        value is Some <==> power(base as int, exponent as nat) <= u64::MAX,
        value matches Some(number) ==> number == power(base as int, exponent as nat),
{
    let mut number: u64 = 1;
    let mut done: usize = 0;
    while done < exponent
        invariant
            done <= exponent,
            2 <= base <= 16,
            number == power(base as int, done as nat),
        decreases exponent - done,
    {
        assert(number as int * base as int <= 0xffff_ffff_ffff_ffff * 16) by (nonlinear_arith)
            requires
                0 <= number as int <= 0xffff_ffff_ffff_ffff,
                0 <= base as int <= 16,
        ;
        let next: u128 = number as u128 * base as u128;
        assert(next == power(base as int, (done + 1) as nat)) by {
            assert(number as int * base as int == base as int * number as int)
                by (nonlinear_arith);
        }
        if next > u64::MAX as u128 {
            proof {
                lemma_power_monotone(base as int, (done + 1) as nat, exponent as nat);
            }
            return None;
        }
        number = next as u64;
        done += 1;
    }
    Some(number)
}

/// What the characters stand for as a numeric literal, if they are one.
pub fn parse_number(symbols: &Vec<char>) -> (number: Option<EZNumber>)
    ensures
        number == spec_text_to_number(symbols@),
{
    let length = symbols.len();
    let negative = length > 0 && symbols[0] == '-';
    let after_sign: usize = if negative {
        1
    } else {
        0
    };
    let ghost body = if negative {
        symbols@.skip(1)
    } else {
        symbols@
    };
    let mut base: u32 = 10;
    let mut start: usize = after_sign;
    if length - after_sign >= 2 && symbols[after_sign] == '0' {
        let mark = symbols[after_sign + 1];
        if mark == 'x' || mark == 'X' {
            base = 16;
            start = after_sign + 2;
        } else if mark == 'b' || mark == 'B' {
            base = 2;
            start = after_sign + 2;
        }
    }
    let ghost digits = if base == 10 {
        body
    } else {
        body.skip(2)
    };
    proof {
        assert(body =~= symbols@.skip(after_sign as int));
        if body.len() >= 2 {
            assert(body[0] == symbols@[after_sign as int]);
            assert(body[1] == symbols@[after_sign + 1]);
        }
        assert(base == spec_base(body));
        assert(digits =~= symbols@.subrange(start as int, length as int));
    }
    let point = scan(symbols, start, length, Stop::Point);
    let ghost whole = digits.take(point - start);
    proof {
        assert(whole =~= symbols@.subrange(start as int, point as int));
    }
    if point == start {
        return None;
    }
    let magnitude: u64 = match parse_digits(symbols, start, point, base) {
        Some(value) => value,
        None => {
            return None;
        },
    };
    if point == length {
        if negative {
            if magnitude <= 0x8000_0000_0000_0000 {
                Some(EZNumber::Integer((-(magnitude as i128)) as i64))
            } else {
                None
            }
        } else {
            if magnitude <= 0x7fff_ffff_ffff_ffff {
                Some(EZNumber::Integer(magnitude as i64))
            } else {
                None
            }
        }
    } else {
        let ghost part = digits.skip(point - start + 1);
        proof {
            assert(part =~= symbols@.subrange(point + 1, length as int));
        }
        if point + 1 == length {
            return None;
        }
        let numerator: u64 = match parse_digits(symbols, point + 1, length, base) {
            Some(value) => value,
            None => {
                return None;
            },
        };
        let denominator: u64 = match power_of(base, length - (point + 1)) {
            Some(value) => value,
            None => {
                return None;
            },
        };
        Some(EZNumber::Float(Fraction { negative, whole: magnitude, numerator, denominator }))
    }
}

/// Reads a numeric literal.
pub fn text_to_number(text: String) -> (number: Result<EZNumber, EzasmError>)
    ensures
        number == match spec_text_to_number(text@) {
            Some(value) => Ok::<EZNumber, EzasmError>(value),
            None => Err::<EZNumber, EzasmError>(EzasmError::NumericParseError(text)),
        },
{
    let symbols = to_chars(text.as_str());
    match parse_number(&symbols) {
        Some(value) => Ok(value),
        None => Err(EzasmError::NumericParseError(text)),
    }
}

} // verus!
