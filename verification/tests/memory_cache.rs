//! Tests of the flat memory, its derived byte and half-word access, and
//! the direct-mapped write-through cache.

use riscvisualizer::cache::{Cache, MISS_LATENCY};
use riscvisualizer::memory::{Memory, MemoryError, MemoryInterface};
use riscvisualizer::types::{Byte, HalfWord, Word};

#[test]
fn new_memory_is_zero_filled() {
    let mut mem = Memory::new(4);
    for i in 0..4u32 {
        let access = mem.read_word(Word(i * 4)).unwrap();
        assert_eq!(access.0, Word(0));
        assert_eq!(access.1, 0);
    }
}

#[test]
fn word_access_is_bounds_checked() {
    let mut mem = Memory::new(4);
    assert!(mem.is_address_accessible(Word(0)));
    assert!(mem.is_address_accessible(Word(15)));
    assert!(!mem.is_address_accessible(Word(16)));
    assert_eq!(mem.read_word(Word(16)).unwrap_err(), MemoryError::InvalidAddress);
    assert_eq!(mem.write_word(Word(16), Word(1)).unwrap_err(), MemoryError::InvalidAddress);
    assert_eq!(mem.read_byte(Word(16)).unwrap_err(), MemoryError::InvalidAddress);
    assert_eq!(mem.write_byte(Word(16), Byte(1)).unwrap_err(), MemoryError::InvalidAddress);
    assert_eq!(mem.read_halfword(Word(16)).unwrap_err(), MemoryError::InvalidAddress);
    assert_eq!(mem.write_halfword(Word(16), HalfWord(1)).unwrap_err(), MemoryError::InvalidAddress);
}

#[test]
fn write_word_returns_overwritten_value() {
    let mut mem = Memory::new(4);
    let before = mem.write_word(Word(8), Word(0x1122_3344)).unwrap();
    assert_eq!(before.0, Word(0));
    let again = mem.write_word(Word(8), Word(7)).unwrap();
    assert_eq!(again.0, Word(0x1122_3344));
    assert_eq!(mem.read_word(Word(8)).unwrap().0, Word(7));
}

#[test]
fn byte_write_then_read_round_trips() {
    let mut mem = Memory::new(2);
    mem.write_word(Word(0), Word(0x1122_3344)).unwrap();
    let before = mem.write_byte(Word(1), Byte(0xAB)).unwrap();
    assert_eq!(before.0, Byte(0x33));
    assert_eq!(mem.read_byte(Word(1)).unwrap().0, Byte(0xAB));
    // the other bytes of the word are untouched
    assert_eq!(mem.read_byte(Word(0)).unwrap().0, Byte(0x44));
    assert_eq!(mem.read_byte(Word(2)).unwrap().0, Byte(0x22));
    assert_eq!(mem.read_byte(Word(3)).unwrap().0, Byte(0x11));
    assert_eq!(mem.read_word(Word(0)).unwrap().0, Word(0x1122_AB44));
}

#[test]
fn byte_write_at_offset_one_of_zero_word() {
    let mut mem = Memory::new(1);
    mem.write_byte(Word(1), Byte(0xAB)).unwrap();
    assert_eq!(mem.read_word(Word(0)).unwrap().0, Word(0x0000_AB00));
    assert_eq!(mem.read_byte(Word(0)).unwrap().0, Byte(0));
    assert_eq!(mem.read_byte(Word(2)).unwrap().0, Byte(0));
    assert_eq!(mem.read_byte(Word(3)).unwrap().0, Byte(0));
}

#[test]
fn halfword_write_then_read_round_trips() {
    let mut mem = Memory::new(1);
    mem.write_word(Word(0), Word(0x1122_3344)).unwrap();
    let before = mem.write_halfword(Word(2), HalfWord(0xBEEF)).unwrap();
    assert_eq!(before.0, HalfWord(0x1122));
    assert_eq!(mem.read_halfword(Word(2)).unwrap().0, HalfWord(0xBEEF));
    // the low half is untouched
    assert_eq!(mem.read_halfword(Word(0)).unwrap().0, HalfWord(0x3344));
    assert_eq!(mem.read_word(Word(0)).unwrap().0, Word(0xBEEF_3344));
}

#[test]
fn halfword_access_faults_on_odd_address() {
    let mut mem = Memory::new(2);
    assert_eq!(mem.read_halfword(Word(1)).unwrap_err(), MemoryError::AlignmentFault);
    assert_eq!(mem.read_halfword(Word(3)).unwrap_err(), MemoryError::AlignmentFault);
    assert_eq!(mem.write_halfword(Word(1), HalfWord(1)).unwrap_err(), MemoryError::AlignmentFault);
    // an address both out of range and odd reports the range error first
    assert_eq!(mem.read_halfword(Word(9)).unwrap_err(), MemoryError::InvalidAddress);
}

#[test]
fn sub_word_access_reports_zero_latency_at_memory_level() {
    let mut mem = Memory::new(1);
    assert_eq!(mem.read_byte(Word(0)).unwrap().1, 0);
    assert_eq!(mem.write_byte(Word(0), Byte(1)).unwrap().1, 0);
    assert_eq!(mem.read_halfword(Word(0)).unwrap().1, 0);
    assert_eq!(mem.write_halfword(Word(0), HalfWord(1)).unwrap().1, 0);
}

#[test]
fn cache_miss_then_hit_latency() {
    let mut mem = Memory::new(32);
    mem.write_word(Word(20), Word(77)).unwrap();
    let mut cache = Cache::new(4, 4);
    let first = cache.read_word(&mem, Word(20)).unwrap();
    assert_eq!(first.0, Word(77));
    assert_eq!(first.1, MISS_LATENCY);
    let second = cache.read_word(&mem, Word(20)).unwrap();
    assert_eq!(second.0, Word(77));
    assert_eq!(second.1, 0);
    // a neighbouring word of the same block is already resident
    let neighbour = cache.read_word(&mem, Word(16)).unwrap();
    assert_eq!(neighbour.0, Word(0));
    assert_eq!(neighbour.1, 0);
}

#[test]
fn cache_write_through_updates_memory_and_resident_block() {
    let mut mem = Memory::new(32);
    mem.write_word(Word(20), Word(77)).unwrap();
    let mut cache = Cache::new(4, 4);
    cache.read_word(&mem, Word(20)).unwrap();
    let overwritten = cache.write_word(&mut mem, Word(20), Word(99)).unwrap();
    assert_eq!(overwritten.0, Word(77));
    assert_eq!(overwritten.1, 0);
    // memory saw the write immediately, and the cached copy agrees
    assert_eq!(mem.read_word(Word(20)).unwrap().0, Word(99));
    let hit = cache.read_word(&mem, Word(20)).unwrap();
    assert_eq!(hit.0, Word(99));
    assert_eq!(hit.1, 0);
}

#[test]
fn cache_evicts_on_set_conflict() {
    // blocks 0 and 16 both map to set 0 of a four-set cache
    let mut mem = Memory::new(80);
    let mut cache = Cache::new(4, 4);
    assert_eq!(cache.read_word(&mem, Word(0)).unwrap().1, MISS_LATENCY);
    assert_eq!(cache.read_word(&mem, Word(0)).unwrap().1, 0);
    assert_eq!(cache.read_word(&mem, Word(64 * 4)).unwrap().1, MISS_LATENCY);
    // the conflicting block evicted the first one
    assert_eq!(cache.read_word(&mem, Word(0)).unwrap().1, MISS_LATENCY);
}

#[test]
fn cache_does_not_install_partial_blocks() {
    // words 4 and 5 belong to a block that runs past the end of memory
    let mut mem = Memory::new(6);
    mem.write_word(Word(16), Word(5)).unwrap();
    let mut cache = Cache::new(4, 4);
    let first = cache.read_word(&mem, Word(16)).unwrap();
    assert_eq!(first.0, Word(5));
    assert_eq!(first.1, MISS_LATENCY);
    // still a miss: the partial block was served but not installed
    let second = cache.read_word(&mem, Word(16)).unwrap();
    assert_eq!(second.0, Word(5));
    assert_eq!(second.1, MISS_LATENCY);
}

#[test]
fn cache_write_miss_does_not_allocate() {
    let mut mem = Memory::new(32);
    let mut cache = Cache::new(4, 4);
    // a write to a non-resident word goes to memory only
    cache.write_word(&mut mem, Word(20), Word(55)).unwrap();
    assert_eq!(mem.read_word(Word(20)).unwrap().0, Word(55));
    // the following read still misses
    let read = cache.read_word(&mem, Word(20)).unwrap();
    assert_eq!(read.0, Word(55));
    assert_eq!(read.1, MISS_LATENCY);
}

#[test]
fn cache_rejects_out_of_range_addresses() {
    let mem = Memory::new(4);
    let mut cache = Cache::new(4, 4);
    assert_eq!(cache.read_word(&mem, Word(16)).unwrap_err(), MemoryError::InvalidAddress);
    let mut mem = mem;
    assert_eq!(
        cache.write_word(&mut mem, Word(16), Word(1)).unwrap_err(),
        MemoryError::InvalidAddress
    );
}
