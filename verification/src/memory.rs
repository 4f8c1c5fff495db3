//! The flat, word-addressable memory and its access interface.
//!
//! Word access is bounds-checked: an address is valid when its word index
//! `address / 4` lies inside the store. Byte and half-word access are
//! derived once, generically, on top of word access by read-modify-write:
//! the enclosing word is read, the target sub-word substituted, and the
//! word written back. Half-word access requires the low two address bits
//! to be `00` or `10`; anything else is an alignment fault.

use crate::subword::{
    exec_word_byte, exec_word_half, exec_word_set_byte, exec_word_set_half, word_byte, word_half,
    word_set_byte, word_set_half,
};
use crate::types::{Address, Byte, HalfWord, IsaType, Word};
use vstd::prelude::*;

verus! {

/// Why a memory access failed. Every kind is fatal to the run.
#[derive(Clone, Copy, Debug, PartialEq, Eq, Structural)]
pub enum MemoryError {
    /// The address lies at or beyond the end of memory.
    InvalidAddress,
    /// A half-word access at an address whose low two bits are not `00` or
    /// `10`.
    AlignmentFault,
}

/// The result of a successful access: the value read (or overwritten), and
/// the access latency in stall cycles.
#[derive(Clone, Copy, Debug)]
pub struct MemoryAccess<T>(pub T, pub usize);

impl<T: IsaType> MemoryAccess<T> {
    /// Widen the accessed value to a word, keeping the latency.
    pub fn as_word(self) -> (r: MemoryAccess<Word>)
        ensures
            r.0.0 == self.0.value() % 0x1_0000_0000,
            r.1 == self.1,
    {
        MemoryAccess(self.0.as_word(), self.1)
    }
}

/// The word index `address / 4` of an address.
pub open spec fn word_index(address: Address) -> int {
    (address.0 as int) / 4
}

/// The byte offset `address % 4` of an address within its word.
pub open spec fn byte_offset(address: Address) -> int {
    (address.0 as int) % 4
}

/// Word-addressable storage with zero intrinsic latency, and byte and
/// half-word access derived from word access by read-modify-write.
///
/// Reported latencies are zero at this layer; latency is added by the
/// cache interposed above it.
pub trait MemoryInterface: Sized {
    /// The stored words.
    spec fn contents(&self) -> Seq<u32>;

    /// Whether `address` falls inside the store.
    fn is_address_accessible(&self, address: Address) -> (r: bool)
        ensures
            r == (word_index(address) < self.contents().len()),
    ;

    /// Read the word containing `address`. Fails with `InvalidAddress` on
    /// an address at or beyond the end of memory.
    fn read_word(&mut self, address: Address) -> (r: Result<MemoryAccess<Word>, MemoryError>)
        ensures
            final(self).contents() == old(self).contents(),
            word_index(address) < old(self).contents().len() ==> (r matches Ok(a) && a.0.0
                == old(self).contents()[word_index(address)] && a.1 == 0),
            word_index(address) >= old(self).contents().len() ==> r matches Err(
                MemoryError::InvalidAddress,
            ),
    ;

    /// Write the word containing `address`, returning the overwritten
    /// word. Fails with `InvalidAddress` on an address at or beyond the
    /// end of memory.
    fn write_word(&mut self, address: Address, value: Word) -> (r: Result<
        MemoryAccess<Word>,
        MemoryError,
    >)
        ensures
            word_index(address) < old(self).contents().len() ==> (r matches Ok(a) && a.0.0
                == old(self).contents()[word_index(address)] && a.1 == 0 && final(self).contents()
                == old(self).contents().update(word_index(address), value.0)),
            word_index(address) >= old(self).contents().len() ==> final(self).contents() == old(
                self,
            ).contents() && r matches Err(MemoryError::InvalidAddress),
    ;

    /// Read the half-word at `address`. The low two address bits must be
    /// `00` or `10`; an odd address is an alignment fault.
    fn read_halfword(&mut self, address: Address) -> (r: Result<
        MemoryAccess<HalfWord>,
        MemoryError,
    >)
        ensures
            final(self).contents() == old(self).contents(),
            word_index(address) >= old(self).contents().len() ==> r matches Err(
                MemoryError::InvalidAddress,
            ),
            word_index(address) < old(self).contents().len() && byte_offset(address) % 2 != 0
                ==> r matches Err(MemoryError::AlignmentFault),
            word_index(address) < old(self).contents().len() && byte_offset(address) % 2 == 0
                ==> (r matches Ok(a) && a.0.0 == word_half(
                old(self).contents()[word_index(address)],
                byte_offset(address) / 2,
            ) && a.1 == 0),
    {
        match self.read_word(address) {
            Ok(MemoryAccess(word, cycles)) => {
                let offset = address.0 % 4;
                if offset == 0 {
                    Ok(MemoryAccess(HalfWord(exec_word_half(word.0, 0) as u16), cycles))
                } else if offset == 2 {
                    Ok(MemoryAccess(HalfWord(exec_word_half(word.0, 1) as u16), cycles))
                } else {
                    Err(MemoryError::AlignmentFault)
                }
            },
            Err(e) => Err(e),
        }
    }

    /// Write the half-word at `address`, returning the overwritten
    /// half-word. The low two address bits must be `00` or `10`; an odd
    /// address is an alignment fault.
    fn write_halfword(&mut self, address: Address, value: HalfWord) -> (r: Result<
        MemoryAccess<HalfWord>,
        MemoryError,
    >)
        ensures
            word_index(address) >= old(self).contents().len() ==> final(self).contents() == old(
                self,
            ).contents() && r matches Err(MemoryError::InvalidAddress),
            word_index(address) < old(self).contents().len() && byte_offset(address) % 2 != 0
                ==> final(self).contents() == old(self).contents() && r matches Err(
                MemoryError::AlignmentFault,
            ),
            word_index(address) < old(self).contents().len() && byte_offset(address) % 2 == 0
                ==> (r matches Ok(a) && a.0.0 == word_half(
                old(self).contents()[word_index(address)],
                byte_offset(address) / 2,
            ) && a.1 == 0 && final(self).contents() == old(self).contents().update(
                word_index(address),
                word_set_half(
                    old(self).contents()[word_index(address)],
                    byte_offset(address) / 2,
                    value.0 as u32,
                ),
            )),
    {
        match self.read_word(address) {
            Ok(MemoryAccess(word, cycles)) => {
                let offset = address.0 % 4;
                if offset == 0 || offset == 2 {
                    let half = offset / 2;
                    let updated = exec_word_set_half(word.0, half, value.0 as u32);
                    match self.write_word(address, Word(updated)) {
                        Ok(MemoryAccess(_, write_cycles)) => Ok(
                            MemoryAccess(
                                HalfWord(exec_word_half(word.0, half) as u16),
                                cycles + write_cycles,
                            ),
                        ),
                        Err(e) => Err(e),
                    }
                } else {
                    Err(MemoryError::AlignmentFault)
                }
            },
            Err(e) => Err(e),
        }
    }

    /// Read the byte at `address`; any of the four byte offsets within a
    /// word is allowed.
    fn read_byte(&mut self, address: Address) -> (r: Result<MemoryAccess<Byte>, MemoryError>)
        ensures
            final(self).contents() == old(self).contents(),
            word_index(address) >= old(self).contents().len() ==> r matches Err(
                MemoryError::InvalidAddress,
            ),
            word_index(address) < old(self).contents().len() ==> (r matches Ok(a) && a.0.0
                == word_byte(old(self).contents()[word_index(address)], byte_offset(address))
                && a.1 == 0),
    {
        match self.read_word(address) {
            Ok(MemoryAccess(word, cycles)) => {
                let offset = address.0 % 4;
                Ok(MemoryAccess(Byte(exec_word_byte(word.0, offset) as u8), cycles))
            },
            Err(e) => Err(e),
        }
    }

    /// Write the byte at `address`, returning the overwritten byte; any of
    /// the four byte offsets within a word is allowed.
    fn write_byte(&mut self, address: Address, value: Byte) -> (r: Result<
        MemoryAccess<Byte>,
        MemoryError,
    >)
        ensures
            word_index(address) >= old(self).contents().len() ==> final(self).contents() == old(
                self,
            ).contents() && r matches Err(MemoryError::InvalidAddress),
            word_index(address) < old(self).contents().len() ==> (r matches Ok(a) && a.0.0
                == word_byte(old(self).contents()[word_index(address)], byte_offset(address))
                && a.1 == 0 && final(self).contents() == old(self).contents().update(
                word_index(address),
                word_set_byte(
                    old(self).contents()[word_index(address)],
                    byte_offset(address),
                    value.0 as u32,
                ),
            )),
    {
        match self.read_word(address) {
            Ok(MemoryAccess(word, cycles)) => {
                let offset = address.0 % 4;
                let updated = exec_word_set_byte(word.0, offset, value.0 as u32);
                match self.write_word(address, Word(updated)) {
                    Ok(MemoryAccess(_, write_cycles)) => Ok(
                        MemoryAccess(
                            Byte(exec_word_byte(word.0, offset) as u8),
                            cycles + write_cycles,
                        ),
                    ),
                    Err(e) => Err(e),
                }
            },
            Err(e) => Err(e),
        }
    }
}

/// Writing a byte and reading it back at the same address returns the
/// written value; the other bytes of the enclosing word, and every other
/// word of memory, are unchanged.
pub proof fn lemma_byte_write_read(mem: Seq<u32>, address: Address, b: u32)
    requires
        word_index(address) < mem.len(),
        b < 0x100,
    ensures
        ({
            let w = mem[word_index(address)];
            let mem2 = mem.update(word_index(address), word_set_byte(w, byte_offset(address), b));
            &&& word_byte(mem2[word_index(address)], byte_offset(address)) == b
            &&& forall|j: int|
                0 <= j < 4 && j != byte_offset(address) ==> word_byte(
                    mem2[word_index(address)],
                    j,
                ) == word_byte(w, j)
            &&& forall|i: int|
                0 <= i < mem.len() && i != word_index(address) ==> mem2[i] == mem[i]
        }),
{
    crate::subword::lemma_set_byte_get_byte(mem[word_index(address)], byte_offset(address), b);
}

/// Writing a half-word and reading it back at the same (aligned) address
/// returns the written value; the bytes of the other half of the
/// enclosing word, and every other word of memory, are unchanged.
pub proof fn lemma_halfword_write_read(mem: Seq<u32>, address: Address, v: u32)
    requires
        word_index(address) < mem.len(),
        byte_offset(address) % 2 == 0,
        v < 0x10000,
    ensures
        ({
            let w = mem[word_index(address)];
            let h = byte_offset(address) / 2;
            let mem2 = mem.update(word_index(address), word_set_half(w, h, v));
            &&& word_half(mem2[word_index(address)], h) == v
            &&& word_half(mem2[word_index(address)], 1 - h) == word_half(w, 1 - h)
            &&& (h == 0 ==> word_byte(mem2[word_index(address)], 2) == word_byte(w, 2)
                && word_byte(mem2[word_index(address)], 3) == word_byte(w, 3))
            &&& (h == 1 ==> word_byte(mem2[word_index(address)], 0) == word_byte(w, 0)
                && word_byte(mem2[word_index(address)], 1) == word_byte(w, 1))
            &&& forall|i: int|
                0 <= i < mem.len() && i != word_index(address) ==> mem2[i] == mem[i]
        }),
{
    crate::subword::lemma_set_half_get_half(
        mem[word_index(address)],
        byte_offset(address) / 2,
        v,
    );
}

/// The flat linear store: a fixed number of words, allocated zero-filled
/// at construction.
pub struct Memory {
    memory: Vec<u32>,
}

impl Memory {
    /// A zero-filled memory of `words` words.
    pub fn new(words: usize) -> (m: Memory)
        ensures
            m.contents().len() == words,
            forall|i: int| 0 <= i < words ==> m.contents()[i] == 0u32,
    {
        Memory { memory: vec![0u32; words] }
    }

    /// The number of words the store holds.
    pub(crate) fn word_count(&self) -> (n: usize)
        ensures
            n == self.contents().len(),
    {
        self.memory.len()
    }

    /// The word at word index `index`.
    pub(crate) fn word_at(&self, index: usize) -> (w: u32)
        requires
            index < self.contents().len(),
        ensures
            w == self.contents()[index as int],
    {
        self.memory[index]
    }
}

impl MemoryInterface for Memory {
    closed spec fn contents(&self) -> Seq<u32> {
        self.memory@
    }

    fn is_address_accessible(&self, address: Address) -> (r: bool) {
        (address.0 as usize) / 4 < self.memory.len()
    }

    fn read_word(&mut self, address: Address) -> (r: Result<MemoryAccess<Word>, MemoryError>) {
        if (address.0 as usize) / 4 < self.memory.len() {
            let index = (address.0 as usize) / 4;
            Ok(MemoryAccess(Word(self.memory[index]), 0))
        } else {
            Err(MemoryError::InvalidAddress)
        }
    }

    fn write_word(&mut self, address: Address, value: Word) -> (r: Result<
        MemoryAccess<Word>,
        MemoryError,
    >) {
        if (address.0 as usize) / 4 < self.memory.len() {
            let index = (address.0 as usize) / 4;
            let original = self.memory[index];
            self.memory[index] = value.0;
            Ok(MemoryAccess(Word(original), 0))
        } else {
            Err(MemoryError::InvalidAddress)
        }
    }
}

} // verus!
