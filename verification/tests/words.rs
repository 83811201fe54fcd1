use ezasm::util::raw_data::RawData;
use ezasm::util::word_size::{WordSize, DEFAULT_WORD_BYTES, MAX_WORD_BYTES};

fn width(bytes: usize) -> WordSize {
    WordSize::new(bytes).unwrap()
}

#[test]
fn word_size_rejects_widths_that_do_not_exist() {
    assert!(WordSize::new(0).is_none());
    assert!(WordSize::new(9).is_none());
    assert!(WordSize::new(usize::MAX).is_none());
    for bytes in 1..=MAX_WORD_BYTES {
        let made = WordSize::new(bytes).unwrap();
        assert_eq!(made.bytes(), bytes);
        assert_eq!(made.bits(), 8 * bytes);
    }
}

#[test]
fn word_size_default_is_four_bytes() {
    assert_eq!(WordSize::default().bytes(), DEFAULT_WORD_BYTES);
    assert_eq!(WordSize::default(), width(4));
    assert_eq!(WordSize::default().modulus_value(), 0x1_0000_0000);
}

#[test]
fn word_size_modulus_of_each_width() {
    assert_eq!(width(1).modulus_value(), 0x100);
    assert_eq!(width(2).modulus_value(), 0x1_0000);
    assert_eq!(width(3).modulus_value(), 0x100_0000);
    assert_eq!(width(5).modulus_value(), 0x100_0000_0000);
    assert_eq!(width(6).modulus_value(), 0x1_0000_0000_0000);
    assert_eq!(width(7).modulus_value(), 0x100_0000_0000_0000);
    assert_eq!(width(8).modulus_value(), 0x1_0000_0000_0000_0000);
}

#[test]
fn from_int_keeps_values_in_range() {
    let w = width(4);
    assert_eq!(RawData::from_int(0, &w).int_value(), 0);
    assert_eq!(RawData::from_int(100, &w).int_value(), 100);
    assert_eq!(RawData::from_int(-100, &w).int_value(), -100);
    assert_eq!(RawData::from_int(2147483647, &w).int_value(), 2147483647);
    assert_eq!(RawData::from_int(-2147483648, &w).int_value(), -2147483648);
}

#[test]
fn from_int_wraps_modulo_the_width() {
    let w = width(4);
    assert_eq!(RawData::from_int(0x1_0000_0005, &w).int_value(), 5);
    assert_eq!(RawData::from_int(0x8000_0000, &w).int_value(), -2147483648);
    assert_eq!(RawData::from_int(0xffff_ffff, &w).int_value(), -1);
    assert_eq!(RawData::from_int(-0x1_0000_0001, &w).int_value(), -1);
    assert_eq!(RawData::from_int(i64::MIN, &w).int_value(), 0);
    assert_eq!(RawData::from_int(i64::MAX, &w).int_value(), -1);
}

#[test]
fn from_int_stores_the_unsigned_residue() {
    let w = width(4);
    assert_eq!(RawData::from_int(-1, &w).bits(), 0xffff_ffff);
    assert_eq!(RawData::from_int(-2, &width(1)).bits(), 0xfe);
    assert_eq!(RawData::from_int(-1, &width(8)).bits(), u64::MAX);
    assert_eq!(RawData::from_int(258, &width(1)).bits(), 2);
}

#[test]
fn one_byte_words_wrap_like_a_byte() {
    let w = width(1);
    assert_eq!(RawData::from_int(200, &w).int_value(), -56);
    assert_eq!(RawData::from_int(127, &w).int_value(), 127);
    assert_eq!(RawData::from_int(128, &w).int_value(), -128);
    assert_eq!(RawData::from_int(-129, &w).int_value(), 127);
}

#[test]
fn eight_byte_words_hold_every_native_integer() {
    let w = width(8);
    assert_eq!(RawData::from_int(i64::MIN, &w).int_value(), i64::MIN);
    assert_eq!(RawData::from_int(i64::MAX, &w).int_value(), i64::MAX);
    assert_eq!(RawData::from_int(-1, &w).int_value(), -1);
}

#[test]
fn from_unsigned_wraps_too() {
    assert_eq!(RawData::from_unsigned(0x1ff, &width(1)).bits(), 0xff);
    assert_eq!(RawData::from_unsigned(0x1ff, &width(1)).int_value(), -1);
    assert_eq!(RawData::from_unsigned(u64::MAX, &width(8)).int_value(), -1);
    assert_eq!(RawData::from_unsigned(7, &width(4)), RawData::from_int(7, &width(4)));
}

#[test]
fn from_wide_wraps_sums_and_products() {
    let w = width(4);
    assert_eq!(RawData::from_wide(i64::MAX as i128 + 1, &width(8)).int_value(), i64::MIN);
    assert_eq!(RawData::from_wide(-(1i128 << 64), &w).int_value(), 0);
    assert_eq!(RawData::from_wide(-(1i128 << 64) - 3, &w).int_value(), -3);
    assert_eq!(RawData::from_wide((1i128 << 100) + 9, &w).int_value(), 9);
    assert_eq!(RawData::from_wide(-7, &w), RawData::from_int(-7, &w));
}

#[test]
fn words_are_equal_by_value_and_width() {
    let a = RawData::from_int(5, &width(4));
    let b = RawData::from_int(5, &width(4));
    let c = RawData::from_int(5, &width(2));
    assert_eq!(a, b);
    assert_ne!(a, c);
    let copy = a.clone();
    assert_eq!(copy, a);
    assert_eq!(a.word_size(), width(4));
    assert_eq!(c.word_size().bytes(), 2);
}

#[test]
fn from_int_of_int_value_is_the_same_word() {
    for bytes in 1..=8usize {
        let w = width(bytes);
        for value in [0i64, 1, -1, 127, -128, 255, 65535, -65536, i64::MAX, i64::MIN] {
            let word = RawData::from_int(value, &w);
            assert_eq!(RawData::from_int(word.int_value(), &w), word);
        }
    }
}
