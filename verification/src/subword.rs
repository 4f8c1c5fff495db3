//! Byte and half-word views of a 32-bit word.
//!
//! Sub-word memory access is read-modify-write on the enclosing word; the
//! functions here extract and replace single bytes or half-words of a word,
//! and the lemmas state the round-trip and non-interference laws those
//! accesses obey: reading back a written sub-word yields the written value,
//! and the other bytes of the word are unchanged.

use vstd::arithmetic::div_mod::{
    lemma_div_denominator, lemma_div_multiples_vanish_fancy, lemma_mod_breakdown, lemma_mod_mod,
    lemma_mod_multiples_vanish, lemma_multiply_divide_lt,
};
use vstd::prelude::*;

verus! {

/// Byte `k` (0 is least significant) of the word `w`.
pub open spec fn word_byte(w: u32, k: int) -> int
    recommends
        0 <= k < 4,
{
    if k <= 0 {
        (w as int) % 0x100
    } else if k == 1 {
        ((w as int) / 0x100) % 0x100
    } else if k == 2 {
        ((w as int) / 0x10000) % 0x100
    } else {
        (w as int) / 0x1000000
    }
}

/// The word with bytes `b0` to `b3`, least-significant first.
pub open spec fn word_from_bytes(b0: int, b1: int, b2: int, b3: int) -> int
    recommends
        0 <= b0 < 0x100,
        0 <= b1 < 0x100,
        0 <= b2 < 0x100,
        0 <= b3 < 0x100,
{
    b0 + 0x100 * b1 + 0x10000 * b2 + 0x1000000 * b3
}

/// The word `w` with byte `k` replaced by `b`.
pub open spec fn word_set_byte(w: u32, k: int, b: u32) -> u32
    recommends
        0 <= k < 4,
        b < 0x100,
{
    word_from_bytes(
        if k == 0 {
            b as int
        } else {
            word_byte(w, 0)
        },
        if k == 1 {
            b as int
        } else {
            word_byte(w, 1)
        },
        if k == 2 {
            b as int
        } else {
            word_byte(w, 2)
        },
        if k == 3 {
            b as int
        } else {
            word_byte(w, 3)
        },
    ) as u32
}

/// Half-word `h` (0 is least significant) of the word `w`.
pub open spec fn word_half(w: u32, h: int) -> int
    recommends
        0 <= h < 2,
{
    if h <= 0 {
        (w as int) % 0x10000
    } else {
        (w as int) / 0x10000
    }
}

/// The word `w` with half-word `h` replaced by `v`.
pub open spec fn word_set_half(w: u32, h: int, v: u32) -> u32
    recommends
        0 <= h < 2,
        v < 0x10000,
{
    if h <= 0 {
        ((w / 0x10000) * 0x10000 + v) as u32
    } else {
        (v * 0x10000 + (w % 0x10000)) as u32
    }
}

/// A loaded byte widened to a word by sign extension: values at or above
/// 0x80 represent negative numbers and have their high 24 bits set.
pub open spec fn sign_extend_byte(b: int) -> int
    recommends
        0 <= b < 0x100,
{
    if b >= 0x80 {
        b + 0xFFFF_FF00
    } else {
        b
    }
}

/// A loaded half-word widened to a word by sign extension: values at or
/// above 0x8000 represent negative numbers and have their high 16 bits set.
pub open spec fn sign_extend_half(h: int) -> int
    recommends
        0 <= h < 0x10000,
{
    if h >= 0x8000 {
        h + 0xFFFF_0000
    } else {
        h
    }
}

/// Every byte of a word is below 0x100.
pub proof fn lemma_word_byte_range(w: u32, k: int)
    requires
        0 <= k < 4,
    ensures
        0 <= word_byte(w, k) < 0x100,
{
    if k == 3 {
        lemma_multiply_divide_lt(w as int, 0x100, 0x1000000);
    }
}

/// Every half-word of a word is below 0x10000.
pub proof fn lemma_word_half_range(w: u32, h: int)
    requires
        0 <= h < 2,
    ensures
        0 <= word_half(w, h) < 0x10000,
{
    if h == 1 {
        lemma_multiply_divide_lt(w as int, 0x10000, 0x10000);
    }
}

/// The bytes of a recomposed word are the bytes it was built from.
proof fn lemma_bytes_of_sum(b0: int, b1: int, b2: int, b3: int)
    requires
        0 <= b0 < 0x100,
        0 <= b1 < 0x100,
        0 <= b2 < 0x100,
        0 <= b3 < 0x100,
    ensures
        0 <= word_from_bytes(b0, b1, b2, b3) < 0x1_0000_0000,
        word_byte(word_from_bytes(b0, b1, b2, b3) as u32, 0) == b0,
        word_byte(word_from_bytes(b0, b1, b2, b3) as u32, 1) == b1,
        word_byte(word_from_bytes(b0, b1, b2, b3) as u32, 2) == b2,
        word_byte(word_from_bytes(b0, b1, b2, b3) as u32, 3) == b3,
{
    let s = word_from_bytes(b0, b1, b2, b3);
    let a1 = b1 + 0x100 * b2 + 0x10000 * b3;
    let a2 = b2 + 0x100 * b3;
    assert(s == 0x100 * a1 + b0);
    assert(a1 == 0x100 * a2 + b1);
    assert(a2 == 0x100 * b3 + b2);
    lemma_mod_multiples_vanish(a1, b0, 0x100);
    lemma_div_multiples_vanish_fancy(a1, b0, 0x100);
    assert(s % 0x100 == b0);
    assert(s / 0x100 == a1);
    lemma_mod_multiples_vanish(a2, b1, 0x100);
    lemma_div_multiples_vanish_fancy(a2, b1, 0x100);
    assert(a1 % 0x100 == b1);
    assert(a1 / 0x100 == a2);
    lemma_mod_multiples_vanish(b3, b2, 0x100);
    lemma_div_multiples_vanish_fancy(b3, b2, 0x100);
    assert(a2 % 0x100 == b2);
    assert(a2 / 0x100 == b3);
    lemma_div_denominator(s, 0x100, 0x100);
    assert(s / 0x10000 == a2);
    lemma_div_denominator(s, 0x10000, 0x100);
    assert(s / 0x1000000 == b3);
    let w = s as u32;
    assert(w == s);
}

/// A word equals the recomposition of its bytes.
pub proof fn lemma_word_bytes_decompose(w: u32)
    ensures
        word_from_bytes(word_byte(w, 0), word_byte(w, 1), word_byte(w, 2), word_byte(w, 3)) == w,
{
    let x = w as int;
    vstd::arithmetic::div_mod::lemma_fundamental_div_mod(x, 0x100);
    vstd::arithmetic::div_mod::lemma_fundamental_div_mod(x / 0x100, 0x100);
    vstd::arithmetic::div_mod::lemma_fundamental_div_mod(x / 0x10000, 0x100);
    lemma_div_denominator(x, 0x100, 0x100);
    lemma_div_denominator(x, 0x10000, 0x100);
    assert(x / 0x100 / 0x100 == x / 0x10000);
    assert(x / 0x10000 / 0x100 == x / 0x1000000);
}

/// Writing byte `k` of a word and reading it back yields the written
/// value; every other byte of the word is unchanged.
pub proof fn lemma_set_byte_get_byte(w: u32, k: int, b: u32)
    requires
        0 <= k < 4,
        b < 0x100,
    ensures
        word_byte(word_set_byte(w, k, b), k) == b,
        forall|j: int| 0 <= j < 4 && j != k ==> word_byte(word_set_byte(w, k, b), j) == word_byte(
            w,
            j,
        ),
{
    lemma_word_byte_range(w, 0);
    lemma_word_byte_range(w, 1);
    lemma_word_byte_range(w, 2);
    lemma_word_byte_range(w, 3);
    lemma_bytes_of_sum(
        if k == 0 {
            b as int
        } else {
            word_byte(w, 0)
        },
        if k == 1 {
            b as int
        } else {
            word_byte(w, 1)
        },
        if k == 2 {
            b as int
        } else {
            word_byte(w, 2)
        },
        if k == 3 {
            b as int
        } else {
            word_byte(w, 3)
        },
    );
}

/// Writing half-word `h` of a word and reading it back yields the written
/// value; the other half-word, and so each of its two bytes, is unchanged.
pub proof fn lemma_set_half_get_half(w: u32, h: int, v: u32)
    requires
        0 <= h < 2,
        v < 0x10000,
    ensures
        word_half(word_set_half(w, h, v), h) == v,
        word_half(word_set_half(w, h, v), 1 - h) == word_half(w, 1 - h),
        h == 0 ==> word_byte(word_set_half(w, h, v), 2) == word_byte(w, 2) && word_byte(
            word_set_half(w, h, v),
            3,
        ) == word_byte(w, 3),
        h == 1 ==> word_byte(word_set_half(w, h, v), 0) == word_byte(w, 0) && word_byte(
            word_set_half(w, h, v),
            1,
        ) == word_byte(w, 1),
{
    lemma_word_half_range(w, 1);
    if h == 0 {
        let s = (w / 0x10000) * 0x10000 + v;
        assert(s == 0x10000 * (w as int / 0x10000) + v);
        lemma_mod_multiples_vanish(w as int / 0x10000, v as int, 0x10000);
        lemma_div_multiples_vanish_fancy(w as int / 0x10000, v as int, 0x10000);
        assert(s % 0x10000 == v);
        assert(s / 0x10000 == w as int / 0x10000);
        let x = word_set_half(w, 0, v);
        assert(x == s);
        // bytes 2 and 3 are functions of the upper half
        lemma_div_denominator(x as int, 0x10000, 0x100);
        lemma_div_denominator(w as int, 0x10000, 0x100);
        assert(x as int / 0x1000000 == w as int / 0x1000000);
    } else {
        let s = v * 0x10000 + (w % 0x10000);
        assert(s == 0x10000 * (v as int) + (w as int % 0x10000));
        lemma_mod_multiples_vanish(v as int, w as int % 0x10000, 0x10000);
        lemma_div_multiples_vanish_fancy(v as int, w as int % 0x10000, 0x10000);
        lemma_mod_mod(w as int, 0x10000, 0x10000);
        let x = word_set_half(w, 1, v);
        assert(x == s);
        assert(x % 0x10000 == w % 0x10000);
        // bytes 0 and 1 are functions of the lower half
        lemma_mod_mod(x as int, 0x100, 0x100);
        lemma_mod_mod(w as int, 0x100, 0x100);
        assert((x as int % 0x10000) % 0x100 == x as int % 0x100);
        assert((w as int % 0x10000) % 0x100 == w as int % 0x100);
        lemma_mod_breakdown(x as int, 0x100, 0x100);
        lemma_mod_breakdown(w as int, 0x100, 0x100);
        assert(x as int % 0x10000 == 0x100 * ((x as int / 0x100) % 0x100) + x as int % 0x100);
        assert(w as int % 0x10000 == 0x100 * ((w as int / 0x100) % 0x100) + w as int % 0x100);
    }
}

/// Sign extension preserves the represented two's-complement value: the
/// extended word denotes, as a signed word, exactly the signed reading of
/// the narrow value; zero extension preserves the unsigned reading.
pub proof fn lemma_sign_extend_value(b: int, h: int)
    requires
        0 <= b < 0x100,
        0 <= h < 0x10000,
    ensures
        0 <= sign_extend_byte(b) < 0x1_0000_0000,
        0 <= sign_extend_half(h) < 0x1_0000_0000,
        crate::types::signed_reinterpret(sign_extend_byte(b), 0x1_0000_0000)
            == crate::types::signed_reinterpret(b, 0x100),
        crate::types::signed_reinterpret(sign_extend_half(h), 0x1_0000_0000)
            == crate::types::signed_reinterpret(h, 0x10000),
{
}

/// Byte `k` of the word `w`.
pub(crate) fn exec_word_byte(w: u32, k: u32) -> (r: u32)
    requires
        k < 4,
    ensures
        r == word_byte(w, k as int),
        r < 0x100,
{
    proof {
        lemma_word_byte_range(w, k as int);
    }
    if k == 0 {
        w % 0x100
    } else if k == 1 {
        (w / 0x100) % 0x100
    } else if k == 2 {
        (w / 0x10000) % 0x100
    } else {
        w / 0x1000000
    }
}

/// The word `w` with byte `k` replaced by `b`.
pub(crate) fn exec_word_set_byte(w: u32, k: u32, b: u32) -> (r: u32)
    requires
        k < 4,
        b < 0x100,
    ensures
        r == word_set_byte(w, k as int, b),
{
    proof {
        lemma_word_byte_range(w, 0);
        lemma_word_byte_range(w, 1);
        lemma_word_byte_range(w, 2);
        lemma_word_byte_range(w, 3);
    }
    let b0 = if k == 0 {
        b
    } else {
        exec_word_byte(w, 0)
    };
    let b1 = if k == 1 {
        b
    } else {
        exec_word_byte(w, 1)
    };
    let b2 = if k == 2 {
        b
    } else {
        exec_word_byte(w, 2)
    };
    let b3 = if k == 3 {
        b
    } else {
        exec_word_byte(w, 3)
    };
    b0 + 0x100 * b1 + 0x10000 * b2 + 0x1000000 * b3
}

/// Half-word `h` of the word `w`.
pub(crate) fn exec_word_half(w: u32, h: u32) -> (r: u32)
    requires
        h < 2,
    ensures
        r == word_half(w, h as int),
        r < 0x10000,
{
    proof {
        lemma_word_half_range(w, h as int);
    }
    if h == 0 {
        w % 0x10000
    } else {
        w / 0x10000
    }
}

/// The word `w` with half-word `h` replaced by `v`.
pub(crate) fn exec_word_set_half(w: u32, h: u32, v: u32) -> (r: u32)
    requires
        h < 2,
        v < 0x10000,
    ensures
        r == word_set_half(w, h as int, v),
{
    if h == 0 {
        (w / 0x10000) * 0x10000 + v
    } else {
        proof {
            lemma_word_half_range(w, 1);
        }
        v * 0x10000 + (w % 0x10000)
    }
}

/// The byte `b` widened to a word by sign extension.
pub(crate) fn exec_sign_extend_byte(b: u32) -> (r: u32)
    requires
        b < 0x100,
    ensures
        r == sign_extend_byte(b as int),
{
    if b >= 0x80 {
        b + 0xFFFF_FF00
    } else {
        b
    }
}

/// The half-word `h` widened to a word by sign extension.
pub(crate) fn exec_sign_extend_half(h: u32) -> (r: u32)
    requires
        h < 0x10000,
    ensures
        r == sign_extend_half(h as int),
{
    if h >= 0x8000 {
        h + 0xFFFF_0000
    } else {
        h
    }
}

} // verus!
