//! Encoding of the 32-bit slot header word: bit 0 is the ready bit, bits
//! [31:1] carry the request count.

use vstd::prelude::*;

verus! {

/// Bit 0 of the header word: the ready/match bit.
pub const READY_BIT: u32 = 1;

/// Position of the request count inside the header word.
pub const COUNT_SHIFT: u32 = 1;

/// Bits [31:1] of the header word.
pub const COUNT_MASK: u32 = 0xFFFF_FFFE;

/// The largest request count a header word can carry.
pub const MAX_COUNT: u32 = 0x7FFF_FFFF;

/// The word that `pack_ready_count` produces, stated arithmetically: the count
/// reduced to 31 bits, shifted up by one, with the ready flag in bit 0.
pub open spec fn packed_word(ready: bool, count: u32) -> int {
    (count as int % 0x8000_0000) * 2 + (if ready { 1int } else { 0int })
}

/// The ready flag that a header word carries.
pub open spec fn word_ready(word: u32) -> bool {
    word % 2 == 1
}

/// The request count that a header word carries.
pub open spec fn word_count(word: u32) -> u32 {
    word / 2
}

/// Packs the ready flag and the request count into one header word.
/// A count above `MAX_COUNT` loses its top bit.
pub fn pack_ready_count(ready: bool, count: u32) -> (word: u32)
    ensures
        word == packed_word(ready, count),
{
    let r: u32 = if ready { 1 } else { 0 };
    let word = ((count << COUNT_SHIFT) & COUNT_MASK) | r;
    assert(((count << 1u32) & 0xFFFF_FFFEu32) | r == (count % 0x8000_0000) * 2 + r) by (bit_vector)
        requires
            r == 0 || r == 1,
    ;
    word
}

/// Reads the ready flag (bit 0) of a header word.
pub fn ready(word: u32) -> (r: bool)
    ensures
        r == word_ready(word),
{
    assert((word & 1u32 != 0) == (word % 2 == 1)) by (bit_vector);
    (word & READY_BIT) != 0
}

/// Reads the request count (bits [31:1]) of a header word.
pub fn count(word: u32) -> (c: u32)
    ensures
        c == word_count(word),
{
    assert((word & 0xFFFF_FFFEu32) >> 1u32 == word / 2) by (bit_vector);
    (word & COUNT_MASK) >> COUNT_SHIFT
}

/// Reading a packed word gives back the ready flag that was packed.
pub proof fn lemma_ready_of_pack(ready: bool, count: u32)
    ensures
        packed_word(ready, count) <= u32::MAX,
        word_ready(packed_word(ready, count) as u32) == ready,
{
}

/// Reading a packed word gives back the count that was packed, reduced to 31 bits.
pub proof fn lemma_count_of_pack(ready: bool, count: u32)
    ensures
        word_count(packed_word(ready, count) as u32) == count as int % 0x8000_0000,
        count <= MAX_COUNT ==> word_count(packed_word(ready, count) as u32) == count,
{
}

/// Every header word is the packing of its own ready flag and count.
pub proof fn lemma_pack_of_fields(word: u32)
    ensures
        packed_word(word_ready(word), word_count(word)) == word,
{
}

} // verus!

verus! {

/// The alignment actually used: an alignment of 0 counts as 1.
pub open spec fn effective_align(align: usize) -> int {
    if align == 0 { 1 } else { align as int }
}

/// The least multiple of `align` that is at least `x` (for `align > 0`).
pub open spec fn round_up(x: int, align: int) -> int {
    if x % align == 0 { x } else { x + (align - x % align) }
}

/// Where a region aligned to `align` goes when the writer stands at
/// `cursor`: the next `align` boundary at or after it (0 counts as 1).
pub open spec fn boundary_offset(cursor: int, align: int) -> int {
    round_up(cursor, if align == 0 { 1 } else { align })
}

/// `round_up` gives the least aligned offset at or after `x`.
pub proof fn lemma_round_up(x: int, align: int)
    requires
        x >= 0,
        align > 0,
    ensures
        round_up(x, align) % align == 0,
        x <= round_up(x, align) < x + align,
        forall|y: int| x <= y && #[trigger] (y % align) == 0 ==> round_up(x, align) <= y,
{
    let r = round_up(x, align);
    assert(r % align == 0) by {
        if x % align != 0 {
            vstd::arithmetic::div_mod::lemma_fundamental_div_mod(x, align);
            assert(r == (x / align + 1) * align) by (nonlinear_arith)
                requires
                    r == x + (align - x % align),
                    x == align * (x / align) + x % align,
            ;
            vstd::arithmetic::div_mod::lemma_mod_multiples_basic(x / align + 1, align);
        }
    }
    assert forall|y: int| x <= y && #[trigger] (y % align) == 0 implies r <= y by {
        if x % align != 0 && y < r {
            vstd::arithmetic::div_mod::lemma_fundamental_div_mod(x, align);
            vstd::arithmetic::div_mod::lemma_fundamental_div_mod(y, align);
            assert(y / align == x / align) by (nonlinear_arith)
                requires
                    x == align * (x / align) + x % align,
                    y == align * (y / align),
                    x <= y,
                    y < x + (align - x % align),
                    0 < x % align < align,
            ;
            assert(false) by (nonlinear_arith)
                requires
                    x == align * (x / align) + x % align,
                    y == align * (y / align),
                    y / align == x / align,
                    x <= y,
                    0 < x % align,
            ;
        }
    }
}

/// Offset of the next `align` boundary at or after `cursor`, where a region
/// of `size` bytes is placed. An alignment of 0 counts as 1.
pub fn next_boundary_offset(cursor: usize, size: usize, align: usize) -> (offset: usize)
    requires
        cursor + effective_align(align) <= usize::MAX,
    ensures
        offset == boundary_offset(cursor as int, align as int),
        (offset as int) % effective_align(align) == 0,
        cursor <= offset < cursor + effective_align(align),
{
    let a = if align == 0 { 1 } else { align };
    proof {
        lemma_round_up(cursor as int, a as int);
    }
    let rem = cursor % a;
    if rem == 0 { cursor } else { cursor + (a - rem) }
}

} // verus!
