use mini_evm::evm::memory::Memory;
use mini_evm::word::Word;

#[test]
fn a_new_memory_is_empty() {
    assert_eq!(Memory::new().len(), 0);
}

#[test]
fn resize_grows_with_zeros() {
    let mut mem = Memory::new();
    mem.resize(5);
    assert_eq!(mem.len(), 5);
    for addr in 0..5 {
        assert_eq!(mem.get_byte(addr), 0);
    }
}

#[test]
fn resize_keeps_what_was_written() {
    let mut mem = Memory::new();
    mem.resize(2);
    mem.set_byte(0, 0xaa);
    mem.set_byte(1, 0xbb);
    mem.resize(4);
    assert_eq!(mem.len(), 4);
    assert_eq!(mem.get_byte(0), 0xaa);
    assert_eq!(mem.get_byte(1), 0xbb);
    assert_eq!(mem.get_byte(2), 0);
    assert_eq!(mem.get_byte(3), 0);
}

#[test]
fn resize_never_shrinks() {
    let mut mem = Memory::new();
    mem.resize(64);
    mem.set_byte(63, 7);
    mem.resize(10);
    assert_eq!(mem.len(), 64);
    assert_eq!(mem.get_byte(63), 7);
    mem.resize(64);
    assert_eq!(mem.len(), 64);
    mem.resize(0);
    assert_eq!(mem.len(), 64);
}

#[test]
fn set_byte_touches_one_byte() {
    let mut mem = Memory::new();
    mem.resize(3);
    mem.set_byte(1, 0xff);
    assert_eq!(mem.get_byte(0), 0);
    assert_eq!(mem.get_byte(1), 0xff);
    assert_eq!(mem.get_byte(2), 0);
    assert_eq!(mem.len(), 3);
}

#[test]
fn set_word_writes_32_bytes_big_endian() {
    let mut mem = Memory::new();
    mem.resize(40);
    mem.set_byte(3, 0x11);
    mem.set_byte(36, 0x22);
    mem.set_word(4, Word::from_u64(0x0102));
    assert_eq!(mem.len(), 40);
    assert_eq!(mem.get_byte(3), 0x11);
    for addr in 4..34 {
        assert_eq!(mem.get_byte(addr), 0);
    }
    assert_eq!(mem.get_byte(34), 0x01);
    assert_eq!(mem.get_byte(35), 0x02);
    assert_eq!(mem.get_byte(36), 0x22);
}

#[test]
fn get_word_reads_32_bytes_big_endian() {
    let mut mem = Memory::new();
    mem.resize(33);
    mem.set_byte(0, 0x80);
    mem.set_byte(31, 0x01);
    mem.set_byte(32, 0x05);
    assert_eq!(mem.get_word(0), Word { limbs: [1, 0, 0, 1 << 63] });
    assert_eq!(mem.get_word(1), Word { limbs: [0x0105, 0, 0, 0] });
}

#[test]
fn a_stored_word_is_read_back() {
    let w = Word { limbs: [0x1122334455667788, 0x99aabbccddeeff00, 7, 0xdeadbeef] };
    let mut mem = Memory::new();
    mem.resize(100);
    mem.set_word(17, w);
    assert_eq!(mem.get_word(17), w);
    assert_eq!(mem.get_byte(16), 0);
    assert_eq!(mem.get_byte(49), 0);
}
