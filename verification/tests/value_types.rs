//! Tests of the fixed-width value types, their conversions, and the
//! register name table.

use riscvisualizer::isa::{Register, Zero, T0};
use riscvisualizer::memory::MemoryAccess;
use riscvisualizer::types::{Byte, HalfWord, IsaType, SignedByte, SignedHalfWord, SignedWord, Word};

#[test]
fn word_wrapping_add_wraps() {
    assert_eq!(Word(0xFFFF_FFFF).wrapping_add(Word(1)), Word(0));
    assert_eq!(Word(5).wrapping_add(Word(3)), Word(8));
}

#[test]
fn word_wrapping_sub_wraps() {
    assert_eq!(Word(0).wrapping_sub(Word(1)), Word(0xFFFF_FFFF));
    assert_eq!(Word(8).wrapping_sub(Word(3)), Word(5));
}

#[test]
fn signed_word_wrapping_ops_wrap() {
    assert_eq!(SignedWord(i32::MAX).wrapping_add(SignedWord(1)), SignedWord(i32::MIN));
    assert_eq!(SignedWord(i32::MIN).wrapping_sub(SignedWord(1)), SignedWord(i32::MAX));
}

#[test]
fn halfword_and_byte_wrapping_ops_wrap() {
    assert_eq!(HalfWord(0xFFFF).wrapping_add(HalfWord(1)), HalfWord(0));
    assert_eq!(Byte(0xFF).wrapping_add(Byte(1)), Byte(0));
    assert_eq!(SignedHalfWord(i16::MAX).wrapping_add(SignedHalfWord(1)), SignedHalfWord(i16::MIN));
    assert_eq!(SignedByte(i8::MIN).wrapping_sub(SignedByte(1)), SignedByte(i8::MAX));
}

#[test]
fn as_signed_reinterprets_bits() {
    assert_eq!(Word(0xFFFF_FFFF).as_signed(), SignedWord(-1));
    assert_eq!(Word(5).as_signed(), SignedWord(5));
    assert_eq!(HalfWord(0x8000).as_signed(), SignedHalfWord(-32768));
    assert_eq!(Byte(0xFF).as_signed(), SignedByte(-1));
    assert_eq!(Byte(0x7F).as_signed(), SignedByte(127));
}

#[test]
fn as_signed_word_extends_by_signedness() {
    // unsigned sources zero-extend
    assert_eq!(Byte(0xFF).as_signed_word(), SignedWord(255));
    assert_eq!(HalfWord(0xFFFF).as_signed_word(), SignedWord(65535));
    // signed sources sign-extend
    assert_eq!(SignedByte(-1).as_signed_word(), SignedWord(-1));
    assert_eq!(SignedHalfWord(-2).as_signed_word(), SignedWord(-2));
    // a full word reinterprets
    assert_eq!(Word(0xFFFF_FFFF).as_signed_word(), SignedWord(-1));
}

#[test]
fn narrowing_truncates_low_bits() {
    assert_eq!(Word(0x1234_5678).as_halfword(), HalfWord(0x5678));
    assert_eq!(Word(0x1234_5678).as_byte(), Byte(0x78));
    assert_eq!(SignedWord(-1).as_word(), Word(0xFFFF_FFFF));
    assert_eq!(SignedWord(-1).as_byte(), Byte(0xFF));
    assert_eq!(SignedByte(-1).as_word(), Word(0xFFFF_FFFF));
    assert_eq!(SignedHalfWord(-1).as_halfword(), HalfWord(0xFFFF));
}

#[test]
fn as_bytes_is_little_endian() {
    let bytes = Word(0x1234_5678).as_bytes();
    assert_eq!(bytes.len(), 4);
    assert_eq!(bytes[0], Byte(0x78));
    assert_eq!(bytes[1], Byte(0x56));
    assert_eq!(bytes[2], Byte(0x34));
    assert_eq!(bytes[3], Byte(0x12));
    let hw = HalfWord(0xBEEF).as_bytes();
    assert_eq!(hw.len(), 2);
    assert_eq!(hw[0], Byte(0xEF));
    assert_eq!(hw[1], Byte(0xBE));
    let b = SignedByte(-2).as_bytes();
    assert_eq!(b.len(), 1);
    assert_eq!(b[0], Byte(0xFE));
}

#[test]
fn as_address_matches_as_word() {
    assert_eq!(SignedWord(-4).as_address(), Word(0xFFFF_FFFC));
    assert_eq!(Byte(0x10).as_address(), Word(0x10));
}

#[test]
fn memory_access_as_word_widens_value_and_keeps_latency() {
    let access = MemoryAccess(Byte(0xFF), 3);
    let widened = access.as_word();
    assert_eq!(widened.0, Word(255));
    assert_eq!(widened.1, 3);
}

#[test]
fn register_numbers_round_trip() {
    assert_eq!(Register::X0.as_num(), 0);
    assert_eq!(Register::X31.as_num(), 31);
    assert_eq!(Register::from_num(0), Register::X0);
    assert_eq!(Register::from_num(17), Register::X17);
    assert_eq!(Register::from_num(31), Register::X31);
    assert_eq!(Zero, Register::X0);
    assert_eq!(T0, Register::X5);
}
