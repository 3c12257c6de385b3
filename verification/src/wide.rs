//! Eight lanes in one 64-bit word: the comparisons of a whole group done at
//! once, and their results gathered into a byte.

use vstd::prelude::*;
use crate::bits::{bit, or_lanes, lemma_pack_or};
use crate::model::{above_zero, below_max, gt_field, lt_field};

verus! {

/// The low seven bits of every lane.
pub const LOW7: u64 = 0x7f7f_7f7f_7f7f_7f7f;

/// The top bit of every lane.
pub const TOPS: u64 = 0x8080_8080_8080_8080;

/// The byte of a word that starts at bit `shift`.
pub open spec fn byte_at(w: u64, shift: u64) -> u8 {
    ((w >> shift) & 0xff) as u8
}

/// The eight lanes of a word: its bytes, from the lowest to the highest.
pub open spec fn lanes(w: u64) -> Seq<u8> {
    seq![
        byte_at(w, 0),
        byte_at(w, 8),
        byte_at(w, 16),
        byte_at(w, 24),
        byte_at(w, 32),
        byte_at(w, 40),
        byte_at(w, 48),
        byte_at(w, 56),
    ]
}

/// The word with the given lanes.
spec fn word_of(b0: u8, b1: u8, b2: u8, b3: u8, b4: u8, b5: u8, b6: u8, b7: u8) -> u64 {
    (b0 as u64) | ((b1 as u64) << 8) | ((b2 as u64) << 16) | ((b3 as u64) << 24) | ((b4 as u64)
        << 32) | ((b5 as u64) << 40) | ((b6 as u64) << 48) | ((b7 as u64) << 56)
}

/// The top bit of each lane that is not zero.
spec fn nonzero_tops(w: u64) -> u64 {
    ((((w & LOW7) + LOW7) as u64) | w) & TOPS
}

/// The top bits of the eight lanes, gathered into a byte: bit `i` from lane
/// `i`.
spec fn gathered(x: u64) -> u8 {
    let y = x >> 7;
    let y = y | (y >> 7);
    let y = y | (y >> 14);
    let y = y | (y >> 28);
    (y & 0xff) as u8
}

proof fn lemma_low7_bound(w: u64)
    by (bit_vector)
    ensures
        (w & LOW7) <= LOW7,
{
}

proof fn lemma_word_lanes(b0: u8, b1: u8, b2: u8, b3: u8, b4: u8, b5: u8, b6: u8, b7: u8)
    by (bit_vector)
    ensures
        byte_at(word_of(b0, b1, b2, b3, b4, b5, b6, b7), 0) == b0,
        byte_at(word_of(b0, b1, b2, b3, b4, b5, b6, b7), 8) == b1,
        byte_at(word_of(b0, b1, b2, b3, b4, b5, b6, b7), 16) == b2,
        byte_at(word_of(b0, b1, b2, b3, b4, b5, b6, b7), 24) == b3,
        byte_at(word_of(b0, b1, b2, b3, b4, b5, b6, b7), 32) == b4,
        byte_at(word_of(b0, b1, b2, b3, b4, b5, b6, b7), 40) == b5,
        byte_at(word_of(b0, b1, b2, b3, b4, b5, b6, b7), 48) == b6,
        byte_at(word_of(b0, b1, b2, b3, b4, b5, b6, b7), 56) == b7,
{
}

proof fn lemma_gathered_tops(w: u64)
    by (bit_vector)
    ensures
        gathered(nonzero_tops(w)) == or_lanes(
            bit(byte_at(w, 0) > 0),
            bit(byte_at(w, 8) > 0),
            bit(byte_at(w, 16) > 0),
            bit(byte_at(w, 24) > 0),
            bit(byte_at(w, 32) > 0),
            bit(byte_at(w, 40) > 0),
            bit(byte_at(w, 48) > 0),
            bit(byte_at(w, 56) > 0),
        ),
{
}

proof fn lemma_complement_lanes(w: u64)
    by (bit_vector)
    ensures
        (byte_at(!w, 0) > 0) == (byte_at(w, 0) < 255),
        (byte_at(!w, 8) > 0) == (byte_at(w, 8) < 255),
        (byte_at(!w, 16) > 0) == (byte_at(w, 16) < 255),
        (byte_at(!w, 24) > 0) == (byte_at(w, 24) < 255),
        (byte_at(!w, 32) > 0) == (byte_at(w, 32) < 255),
        (byte_at(!w, 40) > 0) == (byte_at(w, 40) < 255),
        (byte_at(!w, 48) > 0) == (byte_at(w, 48) < 255),
        (byte_at(!w, 56) > 0) == (byte_at(w, 56) < 255),
{
}

/// Loads a group into a word, sample `i` into lane `i`.
pub fn load_word(buf: &[u8; 8]) -> (w: u64)
    ensures
        lanes(w) == buf@,
{
    proof {
        lemma_word_lanes(buf@[0], buf@[1], buf@[2], buf@[3], buf@[4], buf@[5], buf@[6], buf@[7]);
    }
    let w = (buf[0] as u64) | ((buf[1] as u64) << 8) | ((buf[2] as u64) << 16) | ((buf[3] as u64)
        << 24) | ((buf[4] as u64) << 32) | ((buf[5] as u64) << 40) | ((buf[6] as u64) << 48) | ((
    buf[7] as u64) << 56);
    assert(lanes(w) =~= buf@);
    w
}

/// Compares every lane of `w` with 0 at once and packs the results: the
/// field `gt` of the group that `w` holds.
pub fn lanes_above_zero(w: u64) -> (field: u8)
    ensures
        field == gt_field(lanes(w)),
{
    proof {
        lemma_low7_bound(w);
        lemma_gathered_tops(w);
        lemma_pack_or(above_zero(lanes(w)));
    }
    let tops = (((w & LOW7) + LOW7) | w) & TOPS;
    let y = tops >> 7;
    let y = y | (y >> 7);
    let y = y | (y >> 14);
    let y = y | (y >> 28);
    (y & 0xff) as u8
}

/// Compares every lane of `w` with 255 at once and packs the results: the
/// field `lt` of the group that `w` holds. A lane is below 255 exactly where
/// the same lane of the complement is above 0.
pub fn lanes_below_max(w: u64) -> (field: u8)
    ensures
        field == lt_field(lanes(w)),
{
    proof {
        lemma_complement_lanes(w);
        lemma_pack_or(above_zero(lanes(!w)));
        lemma_pack_or(below_max(lanes(w)));
    }
    lanes_above_zero(!w)
}

} // verus!
