//! A direct-mapped, write-through cache interposed between the interpreter
//! and [`Memory`].
//!
//! The cache is organised as `num_sets` sets of one `block_words`-word
//! block each; block `b` of memory maps to set `b % num_sets` under tag
//! `b / num_sets`. A read that hits costs no stall cycles; a miss fetches
//! the enclosing block from memory, installs it (evicting the resident
//! block), and charges the fixed line-fill latency [`MISS_LATENCY`]. A
//! block that would reach past the end of memory is not installed: the
//! word is served from memory at miss cost. Writes go through to memory
//! synchronously and update the resident block in place, so a resident
//! block always agrees with memory (there are no dirty lines) and writes
//! cost no stall cycles of their own.
//!
//! The cache does not own the memory: the interpreter owns both and passes
//! the memory to every access, so there is a single writer throughout.

use crate::memory::{word_index, Memory, MemoryAccess, MemoryError, MemoryInterface};
use crate::types::{Address, Word};
use vstd::arithmetic::div_mod::{
    lemma_div_multiples_vanish_fancy, lemma_div_pos_is_pos, lemma_fundamental_div_mod,
    lemma_mod_multiples_vanish, lemma_small_mod,
};
use vstd::arithmetic::mul::group_mul_is_commutative_and_distributive;
use vstd::prelude::*;

verus! {

/// Stall cycles charged for a read miss: the fixed line-fill latency.
pub const MISS_LATENCY: usize = 4;

/// One cache set: a single resident block with its tag and validity bit.
/// Under the write-through policy a valid line always agrees with memory,
/// so no dirty bit is needed.
struct CacheLine {
    valid: bool,
    tag: usize,
    data: Vec<u32>,
}

/// The mathematical state of a cache line.
pub ghost struct LineModel {
    pub valid: bool,
    pub tag: nat,
    pub data: Seq<u32>,
}

/// The mathematical state of the cache: its geometry and the resident
/// block of each set.
pub ghost struct CacheModel {
    pub num_sets: nat,
    pub block_words: nat,
    pub lines: Seq<LineModel>,
}

impl CacheModel {
    /// Well-formed geometry: at least one set, blocks of at least one
    /// word, one line per set, each line of block size.
    pub open spec fn wf(self) -> bool {
        &&& self.num_sets >= 1
        &&& self.block_words >= 1
        &&& self.lines.len() == self.num_sets
        &&& forall|i: int|
            0 <= i < self.lines.len() ==> (#[trigger] self.lines[i]).data.len()
                == self.block_words
    }

    /// The memory block containing word `widx`.
    pub open spec fn block_of(self, widx: int) -> int {
        widx / self.block_words as int
    }

    /// The set that the block containing `widx` maps to.
    pub open spec fn set_of(self, widx: int) -> int {
        self.block_of(widx) % self.num_sets as int
    }

    /// The tag that the block containing `widx` carries in its set.
    pub open spec fn tag_of(self, widx: int) -> int {
        self.block_of(widx) / self.num_sets as int
    }

    /// The first word index covered by the block resident in set `i`.
    pub open spec fn line_base(self, i: int) -> int {
        (self.lines[i].tag * self.num_sets + i) * self.block_words
    }

    /// Whether the word `widx` is resident.
    pub open spec fn hit(self, widx: int) -> bool {
        &&& self.lines[self.set_of(widx)].valid
        &&& self.lines[self.set_of(widx)].tag == self.tag_of(widx)
    }

    /// The resident block of set `i` agrees with `mem` and lies wholly
    /// inside it.
    pub open spec fn line_ok(self, i: int, mem: Seq<u32>) -> bool {
        &&& self.line_base(i) + self.block_words <= mem.len()
        &&& forall|j: int|
            0 <= j < self.block_words ==> (#[trigger] self.lines[i].data[j]) == mem[self.line_base(
                i,
            ) + j]
    }

    /// Coherence with a memory: every valid line agrees with it.
    pub open spec fn coherent(self, mem: Seq<u32>) -> bool {
        forall|i: int|
            0 <= i < self.lines.len() && (#[trigger] self.lines[i]).valid ==> self.line_ok(i, mem)
    }

    /// Stall cycles a read of word `widx` costs: zero on a hit, the
    /// line-fill latency on a miss.
    pub open spec fn read_stall(self, widx: int) -> nat {
        if self.hit(widx) {
            0
        } else {
            MISS_LATENCY as nat
        }
    }

    /// The cache after a read of word `widx` from `mem`: unchanged on a
    /// hit; on a miss the enclosing block is installed in its set if it
    /// lies wholly inside memory, and nothing changes otherwise.
    pub open spec fn after_read(self, mem: Seq<u32>, widx: int) -> CacheModel {
        if self.hit(widx) {
            self
        } else {
            let base = self.block_of(widx) * self.block_words;
            if 0 <= widx && base + self.block_words <= mem.len() {
                CacheModel {
                    lines: self.lines.update(
                        self.set_of(widx),
                        LineModel {
                            valid: true,
                            tag: self.tag_of(widx) as nat,
                            data: mem.subrange(base, base + self.block_words),
                        },
                    ),
                    ..self
                }
            } else {
                self
            }
        }
    }

    /// The cache after a write of `value` to word `widx`: the resident
    /// copy is updated in place on a hit, and nothing changes on a miss.
    pub open spec fn after_write(self, widx: int, value: u32) -> CacheModel {
        if self.hit(widx) {
            let s = self.set_of(widx);
            CacheModel {
                lines: self.lines.update(
                    s,
                    LineModel {
                        data: self.lines[s].data.update(widx % self.block_words as int, value),
                        ..self.lines[s]
                    },
                ),
                ..self
            }
        } else {
            self
        }
    }
}

/// A word index decomposes into its block and its offset within it, and
/// the block into its set and tag.
proof fn lemma_widx_decompose(c: CacheModel, widx: int)
    requires
        c.wf(),
        0 <= widx,
    ensures
        c.block_of(widx) * c.block_words + widx % (c.block_words as int) == widx,
        0 <= widx % (c.block_words as int) < c.block_words,
        0 <= c.block_of(widx) <= widx,
        0 <= c.set_of(widx) < c.num_sets,
        0 <= c.tag_of(widx),
        c.tag_of(widx) * c.num_sets + c.set_of(widx) == c.block_of(widx),
{
    broadcast use group_mul_is_commutative_and_distributive;

    let bw = c.block_words as int;
    let ns = c.num_sets as int;
    lemma_fundamental_div_mod(widx, bw);
    lemma_div_pos_is_pos(widx, bw);
    lemma_fundamental_div_mod(widx / bw, ns);
    lemma_div_pos_is_pos(widx / bw, ns);
    vstd::arithmetic::div_mod::lemma_div_nonincreasing(widx, bw);
}

/// Under a matching tag, the resident block of the set of `widx` starts
/// exactly at the base of the block containing `widx`.
proof fn lemma_hit_base(c: CacheModel, widx: int)
    requires
        c.wf(),
        0 <= widx,
        c.lines[c.set_of(widx)].tag == c.tag_of(widx),
    ensures
        c.line_base(c.set_of(widx)) == c.block_of(widx) * c.block_words,
        c.line_base(c.set_of(widx)) + widx % (c.block_words as int) == widx,
{
    broadcast use group_mul_is_commutative_and_distributive;

    lemma_widx_decompose(c, widx);
}

/// A word index covered by the line of set `i` determines the set, the
/// tag, and the offset: no other line covers it.
proof fn lemma_line_covers(c: CacheModel, i: int, j: int)
    requires
        c.wf(),
        0 <= i < c.num_sets,
        0 <= j < c.block_words,
    ensures
        c.set_of(c.line_base(i) + j) == i,
        c.tag_of(c.line_base(i) + j) == c.lines[i].tag,
        (c.line_base(i) + j) % (c.block_words as int) == j,
        c.block_of(c.line_base(i) + j) == c.lines[i].tag * c.num_sets + i,
{
    broadcast use group_mul_is_commutative_and_distributive;

    let ns = c.num_sets as int;
    let bw = c.block_words as int;
    let t = c.lines[i].tag as int;
    let b = t * ns + i;
    let widx = c.line_base(i) + j;
    assert(widx == bw * b + j);
    lemma_div_multiples_vanish_fancy(b, j, bw);
    lemma_mod_multiples_vanish(b, j, bw);
    lemma_small_mod(j as nat, bw as nat);
    assert(widx / bw == b);
    assert(widx % bw == j);
    assert(b == ns * t + i);
    lemma_div_multiples_vanish_fancy(t, i, ns);
    lemma_mod_multiples_vanish(t, i, ns);
    lemma_small_mod(i as nat, ns as nat);
    assert(b / ns == t);
    assert(b % ns == i);
}

/// Reading a word at or past the end of memory changes nothing: the block
/// containing it cannot be installed.
proof fn lemma_after_read_out_of_range(c: CacheModel, mem: Seq<u32>, widx: int)
    requires
        c.wf(),
        0 <= widx,
        mem.len() <= widx,
    ensures
        c.after_read(mem, widx) == c,
{
    broadcast use group_mul_is_commutative_and_distributive;

    if !c.hit(widx) {
        lemma_widx_decompose(c, widx);
        assert(c.block_of(widx) * c.block_words + c.block_words > widx);
    }
}

/// No word at or past the end of a coherent memory is resident: every
/// valid line lies wholly inside memory.
proof fn lemma_no_hit_out_of_range(c: CacheModel, mem: Seq<u32>, widx: int)
    requires
        c.wf(),
        c.coherent(mem),
        0 <= widx,
        mem.len() <= widx,
    ensures
        !c.hit(widx),
{
    broadcast use group_mul_is_commutative_and_distributive;

    if c.hit(widx) {
        lemma_widx_decompose(c, widx);
        lemma_hit_base(c, widx);
        let s = c.set_of(widx);
        assert(c.lines[s].valid);
        assert(c.line_ok(s, mem));
        assert(false);
    }
}

/// The direct-mapped, write-through cache. It holds only its geometry and
/// resident blocks; the memory it caches is passed to each access.
pub struct Cache {
    num_sets: usize,
    block_words: usize,
    lines: Vec<CacheLine>,
}

impl View for Cache {
    type V = CacheModel;

    closed spec fn view(&self) -> CacheModel {
        CacheModel {
            num_sets: self.num_sets as nat,
            block_words: self.block_words as nat,
            lines: Seq::new(
                self.lines@.len(),
                |i: int|
                    LineModel {
                        valid: self.lines@[i].valid,
                        tag: self.lines@[i].tag as nat,
                        data: self.lines@[i].data@,
                    },
            ),
        }
    }
}

impl Cache {
    /// An empty cache of `num_sets` sets of `block_words`-word blocks.
    /// Every set starts invalid, so the cache is coherent with any memory.
    pub fn new(num_sets: usize, block_words: usize) -> (c: Cache)
        requires
            num_sets >= 1,
            block_words >= 1,
        ensures
            c@.wf(),
            c@.num_sets == num_sets,
            c@.block_words == block_words,
            forall|i: int| 0 <= i < num_sets ==> !(#[trigger] c@.lines[i]).valid,
    {
        let mut lines: Vec<CacheLine> = Vec::new();
        let mut i: usize = 0;
        while i < num_sets
            invariant
                i <= num_sets,
                block_words >= 1,
                lines@.len() == i,
                forall|k: int|
                    0 <= k < i ==> !(#[trigger] lines@[k]).valid && lines@[k].data@.len()
                        == block_words,
            decreases num_sets - i,
        {
            lines.push(CacheLine { valid: false, tag: 0, data: vec![0u32; block_words] });
            i = i + 1;
        }
        Cache { num_sets, block_words, lines }
    }

    /// Read the word containing `address` through the cache. The value
    /// always comes from (or agrees with) memory; the latency reports the
    /// hit or miss, and a missed block inside bounds is installed.
    pub fn read_word(&mut self, mem: &Memory, address: Address) -> (r: Result<
        MemoryAccess<Word>,
        MemoryError,
    >)
        requires
            old(self)@.wf(),
            old(self)@.coherent(mem.contents()),
        ensures
            final(self)@.wf(),
            final(self)@.coherent(mem.contents()),
            final(self)@ == old(self)@.after_read(mem.contents(), word_index(address)),
            word_index(address) < mem.contents().len() ==> (r matches Ok(a) && a.0.0
                == mem.contents()[word_index(address)] && a.1 == old(self)@.read_stall(
                word_index(address),
            )),
            word_index(address) >= mem.contents().len() ==> r matches Err(
                MemoryError::InvalidAddress,
            ),
    {
        if !mem.is_address_accessible(address) {
            proof {
                lemma_div_pos_is_pos(address.0 as int, 4);
                lemma_after_read_out_of_range(self@, mem.contents(), word_index(address));
            }
            return Err(MemoryError::InvalidAddress);
        }
        let widx = (address.0 as usize) / 4;
        let ghost c = self@;
        proof {
            lemma_widx_decompose(c, widx as int);
        }
        let block = widx / self.block_words;
        let set = block % self.num_sets;
        let tag = block / self.num_sets;
        let line = &self.lines[set];
        if line.valid && line.tag == tag {
            // hit: the resident copy agrees with memory
            let off = widx % self.block_words;
            proof {
                assert(c.hit(widx as int));
                lemma_hit_base(c, widx as int);
                assert(c.line_ok(set as int, mem.contents()));
                assert(c.lines[set as int].data[off as int] == mem.contents()[widx as int]);
            }
            Ok(MemoryAccess(Word(line.data[off]), 0))
        } else {
            // miss: fetch the enclosing block if it fits, then serve the word
            proof {
                assert(!c.hit(widx as int));
            }
            let base = block * self.block_words;
            let value = mem.word_at(widx);
            let count = mem.word_count();
            if count - base >= self.block_words {
                let mut data: Vec<u32> = Vec::new();
                let mut j: usize = 0;
                while j < self.block_words
                    invariant
                        j <= self.block_words,
                        base + self.block_words <= mem.contents().len(),
                        mem.contents().len() <= usize::MAX,
                        data@.len() == j,
                        forall|m: int| 0 <= m < j ==> data@[m] == mem.contents()[base + m],
                    decreases self.block_words - j,
                {
                    data.push(mem.word_at(base + j));
                    j = j + 1;
                }
                let new_line = CacheLine { valid: true, tag, data };
                self.lines[set] = new_line;
                proof {
                    let cm = mem.contents();
                    let cnew = c.after_read(cm, widx as int);
                    assert(self@.lines[set as int].data =~= cnew.lines[set as int].data);
                    assert(self@.lines =~= cnew.lines);
                    assert(self@ == cnew);
                    lemma_hit_base(self@, widx as int);
                    assert forall|i: int|
                        0 <= i < self@.lines.len() && (#[trigger] self@.lines[i]).valid
                        implies self@.line_ok(i, cm) by {
                        if i == set as int {
                            assert(self@.line_base(i) == base);
                            assert forall|m: int| 0 <= m < self@.block_words implies (
                            #[trigger] self@.lines[i].data[m]) == cm[self@.line_base(i) + m] by {
                                assert(self@.lines[i].data[m] == cm.subrange(
                                    base as int,
                                    base + self@.block_words,
                                )[m]);
                            }
                        } else {
                            assert(c.lines[i] == self@.lines[i]);
                            assert(c.line_base(i) == self@.line_base(i));
                            assert(c.line_ok(i, cm));
                        }
                    }
                }
                Ok(MemoryAccess(Word(value), MISS_LATENCY))
            } else {
                // the block would reach past the end of memory: serve the
                // word without installing
                Ok(MemoryAccess(Word(value), MISS_LATENCY))
            }
        }
    }

    /// Write the word containing `address` through the cache: the word
    /// goes to memory synchronously, and a resident copy is updated in
    /// place, so coherence is kept. Write-through writes cost no stall
    /// cycles.
    pub fn write_word(&mut self, mem: &mut Memory, address: Address, value: Word) -> (r: Result<
        MemoryAccess<Word>,
        MemoryError,
    >)
        requires
            old(self)@.wf(),
            old(self)@.coherent(old(mem).contents()),
        ensures
            final(self)@.wf(),
            final(self)@.coherent(final(mem).contents()),
            word_index(address) < old(mem).contents().len() ==> (r matches Ok(a) && a.0.0 == old(
                mem,
            ).contents()[word_index(address)] && a.1 == 0 && final(mem).contents() == old(
                mem,
            ).contents().update(word_index(address), value.0) && final(self)@ == old(
                self,
            )@.after_write(word_index(address), value.0)),
            word_index(address) >= old(mem).contents().len() ==> (r matches Err(
                MemoryError::InvalidAddress,
            ) && final(mem).contents() == old(mem).contents() && final(self)@ == old(self)@),
    {
        if !mem.is_address_accessible(address) {
            return Err(MemoryError::InvalidAddress);
        }
        let widx = (address.0 as usize) / 4;
        let ghost c = self@;
        let ghost m0 = mem.contents();
        proof {
            lemma_widx_decompose(c, widx as int);
        }
        match mem.write_word(address, value) {
            Ok(MemoryAccess(prev, _)) => {
                let block = widx / self.block_words;
                let set = block % self.num_sets;
                let tag = block / self.num_sets;
                if self.lines[set].valid && self.lines[set].tag == tag {
                    let off = widx % self.block_words;
                    proof {
                        assert(c.hit(widx as int));
                        lemma_hit_base(c, widx as int);
                    }
                    self.lines[set].data[off] = value.0;
                    proof {
                        let cnew = c.after_write(widx as int, value.0);
                        assert(self@.lines[set as int].data =~= cnew.lines[set as int].data);
                        assert(self@.lines =~= cnew.lines);
                        assert(self@ == cnew);
                    }
                } else {
                    proof {
                        assert(!c.hit(widx as int));
                    }
                }
                proof {
                    Self::lemma_write_coherent(c, m0, widx as int, value.0);
                }
                Ok(MemoryAccess(prev, 0))
            },
            Err(e) => {
                proof {
                    assert(false);
                }
                Err(e)
            },
        }
    }

    /// A write-through write keeps the cache coherent: the only line that
    /// can cover the written word is the one updated in place.
    proof fn lemma_write_coherent(c: CacheModel, mem: Seq<u32>, widx: int, value: u32)
        requires
            c.wf(),
            c.coherent(mem),
            0 <= widx < mem.len(),
        ensures
            c.after_write(widx, value).coherent(mem.update(widx, value)),
    {
        broadcast use group_mul_is_commutative_and_distributive;

        let cnew = c.after_write(widx, value);
        let mnew = mem.update(widx, value);
        lemma_widx_decompose(c, widx);
        let set = c.set_of(widx);
        let off = widx % c.block_words as int;
        assert forall|i: int|
            0 <= i < cnew.lines.len() && (#[trigger] cnew.lines[i]).valid implies cnew.line_ok(
            i,
            mnew,
        ) by {
            assert(c.lines[i].valid);
            assert(c.line_ok(i, mem));
            assert(cnew.line_base(i) == c.line_base(i));
            assert forall|j: int| 0 <= j < cnew.block_words implies (
            #[trigger] cnew.lines[i].data[j]) == mnew[cnew.line_base(i) + j] by {
                lemma_line_covers(c, i, j);
                if c.line_base(i) + j == widx {
                    // this line covers the written word: it is the set of
                    // `widx`, carries its tag, and was updated in place
                    assert(c.set_of(widx) == i);
                    assert(c.hit(widx));
                    assert(j == off);
                    assert(cnew.lines[i].data[j] == value);
                } else {
                    assert(mnew[c.line_base(i) + j] == mem[c.line_base(i) + j]);
                    if c.hit(widx) && i == set && j == off {
                        lemma_hit_base(c, widx);
                        assert(false);
                    }
                    assert(cnew.lines[i].data[j] == c.lines[i].data[j]);
                }
            }
        }
    }
}

} // verus!
