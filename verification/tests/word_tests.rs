use mini_evm::word::Word;

const MAX: Word = Word { limbs: [u64::MAX, u64::MAX, u64::MAX, u64::MAX] };

#[test]
fn a_word_from_a_u64_has_it_in_the_lowest_limb() {
    assert_eq!(Word::from_u64(0), Word { limbs: [0, 0, 0, 0] });
    assert_eq!(Word::from_u64(42), Word { limbs: [42, 0, 0, 0] });
    assert_eq!(Word::from_u64(u64::MAX), Word { limbs: [u64::MAX, 0, 0, 0] });
}

#[test]
fn addition_carries_between_limbs() {
    let a = Word { limbs: [u64::MAX, 0, 0, 0] };
    assert_eq!(a.wrapping_add(Word::from_u64(1)), Word { limbs: [0, 1, 0, 0] });
    assert_eq!(Word::from_u64(1).wrapping_add(Word::from_u64(2)), Word::from_u64(3));
}

#[test]
fn addition_wraps_at_two_to_the_256() {
    assert_eq!(MAX.wrapping_add(Word::from_u64(1)), Word::from_u64(0));
    assert_eq!(MAX.wrapping_add(MAX), Word { limbs: [u64::MAX - 1, u64::MAX, u64::MAX, u64::MAX] });
}

#[test]
fn multiplication_carries_between_limbs() {
    let a = Word { limbs: [1 << 63, 0, 0, 0] };
    assert_eq!(a.wrapping_mul(Word::from_u64(2)), Word { limbs: [0, 1, 0, 0] });
    assert_eq!(Word::from_u64(6).wrapping_mul(Word::from_u64(7)), Word::from_u64(42));
}

#[test]
fn multiplication_wraps_at_two_to_the_256() {
    let top = Word { limbs: [0, 0, 0, 1 << 63] };
    assert_eq!(top.wrapping_mul(Word::from_u64(2)), Word::from_u64(0));
    assert_eq!(MAX.wrapping_mul(MAX), Word::from_u64(1));
    assert_eq!(MAX.wrapping_mul(Word::from_u64(2)), Word { limbs: [u64::MAX - 1, u64::MAX, u64::MAX, u64::MAX] });
}

#[test]
fn bytes_are_read_most_significant_first() {
    assert_eq!(Word::from_big_endian(&[]), Word::from_u64(0));
    assert_eq!(Word::from_big_endian(&[0x2a]), Word::from_u64(0x2a));
    assert_eq!(Word::from_big_endian(&[0x12, 0x34]), Word::from_u64(0x1234));
    let mut bytes = [0u8; 32];
    bytes[0] = 0x80;
    bytes[31] = 0x01;
    assert_eq!(Word::from_big_endian(&bytes), Word { limbs: [1, 0, 0, 1 << 63] });
    let nine = [1u8, 2, 3, 4, 5, 6, 7, 8, 9];
    assert_eq!(Word::from_big_endian(&nine), Word { limbs: [0x0203040506070809, 1, 0, 0] });
}

#[test]
fn bytes_are_written_most_significant_first() {
    let mut expected = [0u8; 32];
    expected[31] = 3;
    assert_eq!(Word::from_u64(3).to_big_endian(), expected);
    let w = Word { limbs: [0x0807060504030201, 0, 0, 0xa1a2a3a4a5a6a7a8] };
    let bytes = w.to_big_endian();
    assert_eq!(&bytes[0..8], &[0xa1, 0xa2, 0xa3, 0xa4, 0xa5, 0xa6, 0xa7, 0xa8]);
    assert_eq!(&bytes[8..24], &[0u8; 16]);
    assert_eq!(&bytes[24..32], &[0x08, 0x07, 0x06, 0x05, 0x04, 0x03, 0x02, 0x01]);
    assert_eq!(MAX.to_big_endian(), [0xffu8; 32]);
}

#[test]
fn writing_and_reading_bytes_gives_the_word_back() {
    let w = Word { limbs: [0x1122334455667788, 0x99aabbccddeeff00, 7, 0xdeadbeef] };
    assert_eq!(Word::from_big_endian(&w.to_big_endian()), w);
}

#[test]
fn the_low_byte_is_the_least_significant() {
    assert_eq!(Word::from_u64(0x1234).low_byte(), 0x34);
    assert_eq!(Word { limbs: [0xff00, 0xab, 0xcd, 0xef] }.low_byte(), 0);
    assert_eq!(MAX.low_byte(), 0xff);
}

#[test]
fn a_word_is_a_usize_only_where_it_fits() {
    assert_eq!(Word::from_u64(0).to_usize(), Some(0));
    assert_eq!(Word::from_u64(31).to_usize(), Some(31));
    assert_eq!(Word { limbs: [usize::MAX as u64, 0, 0, 0] }.to_usize(), Some(usize::MAX));
    assert_eq!(Word { limbs: [0, 1, 0, 0] }.to_usize(), None);
    assert_eq!(Word { limbs: [5, 0, 1, 0] }.to_usize(), None);
    assert_eq!(Word { limbs: [5, 0, 0, 1] }.to_usize(), None);
    assert_eq!(MAX.to_usize(), None);
}

#[test]
fn hexadecimal_digits_have_no_leading_zeros() {
    assert_eq!(Word::from_u64(0).to_hex(), "0");
    assert_eq!(Word::from_u64(0x2a).to_hex(), "2a");
    assert_eq!(Word::from_u64(0xABCDEF).to_hex(), "abcdef");
    assert_eq!(Word { limbs: [0, 1, 0, 0] }.to_hex(), "10000000000000000");
    assert_eq!(MAX.to_hex(), "f".repeat(64));
}
