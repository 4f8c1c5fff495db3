//! Fixed-width value types of the simulated machine: words, half-words and
//! bytes, each with a signed twin.
//!
//! Arithmetic on these types wraps modulo the type's bit width, and the
//! conversion methods of [`IsaType`] perform the narrowing, widening and
//! sign-extension rules that the load and store instructions are built on.
//! Every type is modelled by the mathematical value it represents:
//! the plain unsigned reading for the unsigned types, the two's-complement
//! reading for the signed ones.

use vstd::prelude::*;

verus! {

/// A 32-bit machine word.
#[derive(Clone, Copy, Debug, Hash, PartialEq, Eq, Structural)]
pub struct Word(pub u32);

/// The signed twin of [`Word`].
#[derive(Clone, Copy, Debug, Hash, PartialEq, Eq, Structural)]
pub struct SignedWord(pub i32);

/// A 16-bit half-word.
#[derive(Clone, Copy, Debug, Hash, PartialEq, Eq, Structural)]
pub struct HalfWord(pub u16);

/// The signed twin of [`HalfWord`].
#[derive(Clone, Copy, Debug, Hash, PartialEq, Eq, Structural)]
pub struct SignedHalfWord(pub i16);

/// An 8-bit byte.
#[derive(Clone, Copy, Debug, Hash, PartialEq, Eq, Structural)]
pub struct Byte(pub u8);

/// The signed twin of [`Byte`].
#[derive(Clone, Copy, Debug, Hash, PartialEq, Eq, Structural)]
pub struct SignedByte(pub i8);

/// Memory addresses are plain words.
pub type Address = Word;

/// The value `v` reduced into the two's-complement range of a type whose
/// modulus (2 to the bit width) is `m`: the result is congruent to `v`
/// modulo `m` and lies in `[-m/2, m/2)`.
pub open spec fn signed_reinterpret(v: int, m: int) -> int
    recommends
        m >= 2,
{
    let u = v % m;
    if u >= m / 2 {
        u - m
    } else {
        u
    }
}

/// 2 to the 8k: the place value of byte `k` in a little-endian decomposition.
pub open spec fn byte_pow(k: int) -> int
    recommends
        0 <= k < 4,
{
    if k <= 0 {
        1
    } else if k == 1 {
        0x100
    } else if k == 2 {
        0x10000
    } else {
        0x1000000
    }
}

/// Common interface of the machine value types: conversions that narrow by
/// truncation, widen with sign- or zero-extension according to the
/// signedness of the source, and decompose a value into its bytes.
pub trait IsaType: Sized + Copy {
    type Unsigned;

    type Signed;

    /// 2 to the bit width of the type.
    spec fn modulus(self) -> int;

    /// The number of bytes the type occupies.
    spec fn byte_len(self) -> int;

    /// The mathematical value this bit pattern represents: the unsigned
    /// reading for the unsigned types, the two's-complement reading for the
    /// signed ones.
    spec fn value(self) -> int;

    /// The two's-complement value represented by a bit pattern of the signed
    /// twin of this type.
    spec fn signed_value(r: Self::Signed) -> int;

    /// Reinterpret the bit pattern as the signed twin of this type.
    fn as_signed(self) -> (r: Self::Signed)
        ensures
            Self::signed_value(r) == signed_reinterpret(self.value(), self.modulus()),
    ;

    /// Widen to a signed 32-bit word, preserving the mathematical value
    /// where it fits: a signed source is sign-extended, an unsigned source
    /// zero-extended.
    fn as_signed_word(self) -> (r: SignedWord)
        ensures
            r.0 == signed_reinterpret(self.value(), 0x1_0000_0000),
    ;

    /// Convert to an unsigned word; the value is reduced modulo 2^32.
    fn as_word(self) -> (r: Word)
        ensures
            r.0 == self.value() % 0x1_0000_0000,
    ;

    /// Narrow to a half-word; the value is reduced modulo 2^16.
    fn as_halfword(self) -> (r: HalfWord)
        ensures
            r.0 == self.value() % 0x10000,
    ;

    /// Narrow to a byte; the value is reduced modulo 2^8.
    fn as_byte(self) -> (r: Byte)
        ensures
            r.0 == self.value() % 0x100,
    ;

    /// Convert to an address, exactly as [`IsaType::as_word`] does.
    fn as_address(self) -> (r: Address)
        ensures
            r.0 == self.value() % 0x1_0000_0000,
    ;

    /// Decompose the value into its bytes, least-significant first.
    fn as_bytes(self) -> (r: Vec<Byte>)
        ensures
            r@.len() == self.byte_len(),
            forall|k: int|
                0 <= k < r@.len() ==> (#[trigger] r@[k]).0 == ((self.value() % self.modulus())
                    / byte_pow(k)) % 0x100,
    ;
}

impl Word {
    /// Addition that wraps modulo 2^32.
    pub fn wrapping_add(self, rhs: Self) -> (r: Self)
        ensures
            r.0 == (self.0 + rhs.0) % 0x1_0000_0000,
    {
        Word(self.0.wrapping_add(rhs.0))
    }

    /// Subtraction that wraps modulo 2^32.
    pub fn wrapping_sub(self, rhs: Self) -> (r: Self)
        ensures
            r.0 == (self.0 - rhs.0) % 0x1_0000_0000,
    {
        Word(self.0.wrapping_sub(rhs.0))
    }
}

impl SignedWord {
    /// Addition that wraps modulo 2^32.
    pub fn wrapping_add(self, rhs: Self) -> (r: Self)
        ensures
            r.0 == signed_reinterpret(self.0 + rhs.0, 0x1_0000_0000),
    {
        SignedWord(self.0.wrapping_add(rhs.0))
    }

    /// Subtraction that wraps modulo 2^32.
    pub fn wrapping_sub(self, rhs: Self) -> (r: Self)
        ensures
            r.0 == signed_reinterpret(self.0 - rhs.0, 0x1_0000_0000),
    {
        SignedWord(self.0.wrapping_sub(rhs.0))
    }
}

impl HalfWord {
    /// Addition that wraps modulo 2^16.
    pub fn wrapping_add(self, rhs: Self) -> (r: Self)
        ensures
            r.0 == (self.0 + rhs.0) % 0x10000,
    {
        HalfWord(self.0.wrapping_add(rhs.0))
    }

    /// Subtraction that wraps modulo 2^16.
    pub fn wrapping_sub(self, rhs: Self) -> (r: Self)
        ensures
            r.0 == (self.0 - rhs.0) % 0x10000,
    {
        HalfWord(self.0.wrapping_sub(rhs.0))
    }
}

impl SignedHalfWord {
    /// Addition that wraps modulo 2^16.
    pub fn wrapping_add(self, rhs: Self) -> (r: Self)
        ensures
            r.0 == signed_reinterpret(self.0 + rhs.0, 0x10000),
    {
        SignedHalfWord(self.0.wrapping_add(rhs.0))
    }

    /// Subtraction that wraps modulo 2^16.
    pub fn wrapping_sub(self, rhs: Self) -> (r: Self)
        ensures
            r.0 == signed_reinterpret(self.0 - rhs.0, 0x10000),
    {
        SignedHalfWord(self.0.wrapping_sub(rhs.0))
    }
}

impl Byte {
    /// Addition that wraps modulo 2^8.
    pub fn wrapping_add(self, rhs: Self) -> (r: Self)
        ensures
            r.0 == (self.0 + rhs.0) % 0x100,
    {
        Byte(self.0.wrapping_add(rhs.0))
    }

    /// Subtraction that wraps modulo 2^8.
    pub fn wrapping_sub(self, rhs: Self) -> (r: Self)
        ensures
            r.0 == (self.0 - rhs.0) % 0x100,
    {
        Byte(self.0.wrapping_sub(rhs.0))
    }
}

impl SignedByte {
    /// Addition that wraps modulo 2^8.
    pub fn wrapping_add(self, rhs: Self) -> (r: Self)
        ensures
            r.0 == signed_reinterpret(self.0 + rhs.0, 0x100),
    {
        SignedByte(self.0.wrapping_add(rhs.0))
    }

    /// Subtraction that wraps modulo 2^8.
    pub fn wrapping_sub(self, rhs: Self) -> (r: Self)
        ensures
            r.0 == signed_reinterpret(self.0 - rhs.0, 0x100),
    {
        SignedByte(self.0.wrapping_sub(rhs.0))
    }
}

impl IsaType for Word {
    type Unsigned = Word;

    type Signed = SignedWord;

    open spec fn modulus(self) -> int {
        0x1_0000_0000
    }

    open spec fn byte_len(self) -> int {
        4
    }

    open spec fn value(self) -> int {
        self.0 as int
    }

    open spec fn signed_value(r: Self::Signed) -> int {
        r.0 as int
    }

    fn as_signed(self) -> (r: SignedWord) {
        if self.0 >= 0x8000_0000 {
            SignedWord(((self.0 as i64) - 0x1_0000_0000i64) as i32)
        } else {
            SignedWord(self.0 as i32)
        }
    }

    fn as_signed_word(self) -> (r: SignedWord) {
        self.as_signed()
    }

    fn as_word(self) -> (r: Word) {
        self
    }

    fn as_halfword(self) -> (r: HalfWord) {
        HalfWord((self.0 % 0x10000) as u16)
    }

    fn as_byte(self) -> (r: Byte) {
        Byte((self.0 % 0x100) as u8)
    }

    fn as_address(self) -> (r: Address) {
        self
    }

    fn as_bytes(self) -> (r: Vec<Byte>) {
        let mut bytes: Vec<Byte> = Vec::new();
        bytes.push(Byte((self.0 % 0x100) as u8));
        bytes.push(Byte(((self.0 / 0x100) % 0x100) as u8));
        bytes.push(Byte(((self.0 / 0x10000) % 0x100) as u8));
        bytes.push(Byte((self.0 / 0x1000000) as u8));
        bytes
    }
}

impl IsaType for SignedWord {
    type Unsigned = Word;

    type Signed = SignedWord;

    open spec fn modulus(self) -> int {
        0x1_0000_0000
    }

    open spec fn byte_len(self) -> int {
        4
    }

    open spec fn value(self) -> int {
        self.0 as int
    }

    open spec fn signed_value(r: Self::Signed) -> int {
        r.0 as int
    }

    fn as_signed(self) -> (r: SignedWord) {
        self
    }

    fn as_signed_word(self) -> (r: SignedWord) {
        self
    }

    fn as_word(self) -> (r: Word) {
        if self.0 < 0 {
            Word(((self.0 as i64) + 0x1_0000_0000i64) as u32)
        } else {
            Word(self.0 as u32)
        }
    }

    fn as_halfword(self) -> (r: HalfWord) {
        self.as_word().as_halfword()
    }

    fn as_byte(self) -> (r: Byte) {
        self.as_word().as_byte()
    }

    fn as_address(self) -> (r: Address) {
        self.as_word()
    }

    fn as_bytes(self) -> (r: Vec<Byte>) {
        let w = self.as_word();
        proof {
            assert((w.0 as int) % 0x1_0000_0000 == w.0 as int);
        }
        w.as_bytes()
    }
}

impl IsaType for HalfWord {
    type Unsigned = HalfWord;

    type Signed = SignedHalfWord;

    open spec fn modulus(self) -> int {
        0x10000
    }

    open spec fn byte_len(self) -> int {
        2
    }

    open spec fn value(self) -> int {
        self.0 as int
    }

    open spec fn signed_value(r: Self::Signed) -> int {
        r.0 as int
    }

    fn as_signed(self) -> (r: SignedHalfWord) {
        if self.0 >= 0x8000 {
            SignedHalfWord(((self.0 as i32) - 0x10000i32) as i16)
        } else {
            SignedHalfWord(self.0 as i16)
        }
    }

    fn as_signed_word(self) -> (r: SignedWord) {
        SignedWord(self.0 as i32)
    }

    fn as_word(self) -> (r: Word) {
        Word(self.0 as u32)
    }

    fn as_halfword(self) -> (r: HalfWord) {
        self
    }

    fn as_byte(self) -> (r: Byte) {
        Byte((self.0 % 0x100) as u8)
    }

    fn as_address(self) -> (r: Address) {
        Word(self.0 as u32)
    }

    fn as_bytes(self) -> (r: Vec<Byte>) {
        let mut bytes: Vec<Byte> = Vec::new();
        bytes.push(Byte((self.0 % 0x100) as u8));
        bytes.push(Byte((self.0 / 0x100) as u8));
        bytes
    }
}

impl IsaType for SignedHalfWord {
    type Unsigned = HalfWord;

    type Signed = SignedHalfWord;

    open spec fn modulus(self) -> int {
        0x10000
    }

    open spec fn byte_len(self) -> int {
        2
    }

    open spec fn value(self) -> int {
        self.0 as int
    }

    open spec fn signed_value(r: Self::Signed) -> int {
        r.0 as int
    }

    fn as_signed(self) -> (r: SignedHalfWord) {
        self
    }

    fn as_signed_word(self) -> (r: SignedWord) {
        SignedWord(self.0 as i32)
    }

    fn as_word(self) -> (r: Word) {
        if self.0 < 0 {
            Word(((self.0 as i64) + 0x1_0000_0000i64) as u32)
        } else {
            Word(self.0 as u32)
        }
    }

    fn as_halfword(self) -> (r: HalfWord) {
        if self.0 < 0 {
            HalfWord(((self.0 as i32) + 0x10000i32) as u16)
        } else {
            HalfWord(self.0 as u16)
        }
    }

    fn as_byte(self) -> (r: Byte) {
        self.as_halfword().as_byte()
    }

    fn as_address(self) -> (r: Address) {
        self.as_word()
    }

    fn as_bytes(self) -> (r: Vec<Byte>) {
        let h = self.as_halfword();
        proof {
            assert((h.0 as int) % 0x10000 == h.0 as int);
        }
        h.as_bytes()
    }
}

impl IsaType for Byte {
    type Unsigned = Byte;

    type Signed = SignedByte;

    open spec fn modulus(self) -> int {
        0x100
    }

    open spec fn byte_len(self) -> int {
        1
    }

    open spec fn value(self) -> int {
        self.0 as int
    }

    open spec fn signed_value(r: Self::Signed) -> int {
        r.0 as int
    }

    fn as_signed(self) -> (r: SignedByte) {
        if self.0 >= 0x80 {
            SignedByte(((self.0 as i16) - 0x100i16) as i8)
        } else {
            SignedByte(self.0 as i8)
        }
    }

    fn as_signed_word(self) -> (r: SignedWord) {
        SignedWord(self.0 as i32)
    }

    fn as_word(self) -> (r: Word) {
        Word(self.0 as u32)
    }

    fn as_halfword(self) -> (r: HalfWord) {
        HalfWord(self.0 as u16)
    }

    fn as_byte(self) -> (r: Byte) {
        self
    }

    fn as_address(self) -> (r: Address) {
        Word(self.0 as u32)
    }

    fn as_bytes(self) -> (r: Vec<Byte>) {
        let mut bytes: Vec<Byte> = Vec::new();
        bytes.push(self);
        bytes
    }
}

impl IsaType for SignedByte {
    type Unsigned = Byte;

    type Signed = SignedByte;

    open spec fn modulus(self) -> int {
        0x100
    }

    open spec fn byte_len(self) -> int {
        1
    }

    open spec fn value(self) -> int {
        self.0 as int
    }

    open spec fn signed_value(r: Self::Signed) -> int {
        r.0 as int
    }

    fn as_signed(self) -> (r: SignedByte) {
        self
    }

    fn as_signed_word(self) -> (r: SignedWord) {
        SignedWord(self.0 as i32)
    }

    fn as_word(self) -> (r: Word) {
        if self.0 < 0 {
            Word(((self.0 as i64) + 0x1_0000_0000i64) as u32)
        } else {
            Word(self.0 as u32)
        }
    }

    fn as_halfword(self) -> (r: HalfWord) {
        if self.0 < 0 {
            HalfWord(((self.0 as i32) + 0x10000i32) as u16)
        } else {
            HalfWord(self.0 as u16)
        }
    }

    fn as_byte(self) -> (r: Byte) {
        if self.0 < 0 {
            Byte(((self.0 as i16) + 0x100i16) as u8)
        } else {
            Byte(self.0 as u8)
        }
    }

    fn as_address(self) -> (r: Address) {
        self.as_word()
    }

    fn as_bytes(self) -> (r: Vec<Byte>) {
        let mut bytes: Vec<Byte> = Vec::new();
        bytes.push(self.as_byte());
        bytes
    }
}

} // verus!
