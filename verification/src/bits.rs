//! Bit fields of eight lanes: how the weighted sum of the model relates to
//! the shifts, ors and ands that the encoder computes with.

use vstd::prelude::*;
use crate::model::pack;

verus! {

/// A flag as a number: 1 where it holds, 0 where it does not.
pub open spec fn bit(flag: bool) -> u8 {
    if flag {
        1u8
    } else {
        0u8
    }
}

/// The flags of the first `n` lanes, the later lanes cleared.
pub open spec fn first_lanes(flags: Seq<bool>, n: int) -> Seq<bool> {
    Seq::new(8, |j: int| j < n && flags[j])
}

/// The weight of lane `i` of an 8-bit field.
pub open spec fn weight(i: int) -> int {
    if i == 0 {
        1
    } else if i == 1 {
        2
    } else if i == 2 {
        4
    } else if i == 3 {
        8
    } else if i == 4 {
        16
    } else if i == 5 {
        32
    } else if i == 6 {
        64
    } else {
        128
    }
}

/// The field of eight 0/1 lanes, by shifts and ors.
pub open spec fn or_lanes(b0: u8, b1: u8, b2: u8, b3: u8, b4: u8, b5: u8, b6: u8, b7: u8) -> u8 {
    b0 | (b1 << 1) | (b2 << 2) | (b3 << 3) | (b4 << 4) | (b5 << 5) | (b6 << 6) | (b7 << 7)
}

proof fn lemma_shl_weight(i: usize)
    by (bit_vector)
    requires
        i < 8,
    ensures
        1u8 << i == (if i == 0 {
            1u8
        } else if i == 1 {
            2u8
        } else if i == 2 {
            4u8
        } else if i == 3 {
            8u8
        } else if i == 4 {
            16u8
        } else if i == 5 {
            32u8
        } else if i == 6 {
            64u8
        } else {
            128u8
        }),
{
}

proof fn lemma_or_fresh_lane(x: u8, i: usize)
    by (bit_vector)
    requires
        i < 8,
        x < (1u8 << i),
    ensures
        x | (1u8 << i) == x + (1u8 << i),
{
}

/// Setting lane `i` of a field that holds the lanes below `i` only adds the
/// lane's weight.
pub proof fn lemma_set_lane(x: u8, i: usize)
    requires
        i < 8,
        x < weight(i as int),
    ensures
        (1u8 << i) == weight(i as int),
        (x | (1u8 << i)) == x + weight(i as int),
{
    lemma_shl_weight(i);
    lemma_or_fresh_lane(x, i);
}

proof fn lemma_or_lanes_sum(b0: u8, b1: u8, b2: u8, b3: u8, b4: u8, b5: u8, b6: u8, b7: u8)
    by (bit_vector)
    requires
        b0 <= 1,
        b1 <= 1,
        b2 <= 1,
        b3 <= 1,
        b4 <= 1,
        b5 <= 1,
        b6 <= 1,
        b7 <= 1,
    ensures
        or_lanes(b0, b1, b2, b3, b4, b5, b6, b7) == b0 + 2 * b1 + 4 * b2 + 8 * b3 + 16 * b4 + 32
            * b5 + 64 * b6 + 128 * b7,
        or_lanes(b0, b1, b2, b3, b4, b5, b6, b7) & 1 == b0,
        or_lanes(b0, b1, b2, b3, b4, b5, b6, b7) & 2 == b1 << 1,
        or_lanes(b0, b1, b2, b3, b4, b5, b6, b7) & 4 == b2 << 2,
        or_lanes(b0, b1, b2, b3, b4, b5, b6, b7) & 8 == b3 << 3,
        or_lanes(b0, b1, b2, b3, b4, b5, b6, b7) & 16 == b4 << 4,
        or_lanes(b0, b1, b2, b3, b4, b5, b6, b7) & 32 == b5 << 5,
        or_lanes(b0, b1, b2, b3, b4, b5, b6, b7) & 64 == b6 << 6,
        or_lanes(b0, b1, b2, b3, b4, b5, b6, b7) & 128 == b7 << 7,
        (b0 << 0 != 0) == (b0 == 1),
        (b1 << 1 != 0) == (b1 == 1),
        (b2 << 2 != 0) == (b2 == 1),
        (b3 << 3 != 0) == (b3 == 1),
        (b4 << 4 != 0) == (b4 == 1),
        (b5 << 5 != 0) == (b5 == 1),
        (b6 << 6 != 0) == (b6 == 1),
        (b7 << 7 != 0) == (b7 == 1),
{
}

proof fn lemma_and_lanes(
    a0: u8,
    a1: u8,
    a2: u8,
    a3: u8,
    a4: u8,
    a5: u8,
    a6: u8,
    a7: u8,
    b0: u8,
    b1: u8,
    b2: u8,
    b3: u8,
    b4: u8,
    b5: u8,
    b6: u8,
    b7: u8,
)
    by (bit_vector)
    requires
        a0 <= 1,
        a1 <= 1,
        a2 <= 1,
        a3 <= 1,
        a4 <= 1,
        a5 <= 1,
        a6 <= 1,
        a7 <= 1,
        b0 <= 1,
        b1 <= 1,
        b2 <= 1,
        b3 <= 1,
        b4 <= 1,
        b5 <= 1,
        b6 <= 1,
        b7 <= 1,
    ensures
        (or_lanes(a0, a1, a2, a3, a4, a5, a6, a7) & or_lanes(b0, b1, b2, b3, b4, b5, b6, b7) != 0)
            <==> ((a0 == 1 && b0 == 1) || (a1 == 1 && b1 == 1) || (a2 == 1 && b2 == 1)
            || (a3 == 1 && b3 == 1) || (a4 == 1 && b4 == 1) || (a5 == 1 && b5 == 1) || (a6 == 1
            && b6 == 1) || (a7 == 1 && b7 == 1)),
{
}

/// The weighted sum of eight flags is the field that shifts and ors build
/// from them, and fits in a byte.
pub proof fn lemma_pack_or(f: Seq<bool>)
    ensures
        0 <= pack(f) < 256,
        pack(f) == or_lanes(
            bit(f[0]),
            bit(f[1]),
            bit(f[2]),
            bit(f[3]),
            bit(f[4]),
            bit(f[5]),
            bit(f[6]),
            bit(f[7]),
        ),
{
    lemma_or_lanes_sum(
        bit(f[0]),
        bit(f[1]),
        bit(f[2]),
        bit(f[3]),
        bit(f[4]),
        bit(f[5]),
        bit(f[6]),
        bit(f[7]),
    );
}

/// Bit `i` of a packed field is set exactly where flag `i` holds.
pub proof fn lemma_pack_bit(f: Seq<bool>, i: usize)
    requires
        f.len() == 8,
        i < 8,
    ensures
        ((pack(f) as u8) & (1u8 << i) != 0) <==> f[i as int],
{
    lemma_or_lanes_sum(
        bit(f[0]),
        bit(f[1]),
        bit(f[2]),
        bit(f[3]),
        bit(f[4]),
        bit(f[5]),
        bit(f[6]),
        bit(f[7]),
    );
    lemma_shl_weight(i);
}

/// Two packed fields share a set bit exactly where both flags hold in some
/// lane.
pub proof fn lemma_pack_and(a: Seq<bool>, b: Seq<bool>)
    ensures
        ((pack(a) as u8) & (pack(b) as u8) != 0) <==> exists|i: int|
            0 <= i < 8 && #[trigger] a[i] && b[i],
{
    lemma_pack_or(a);
    lemma_pack_or(b);
    lemma_and_lanes(
        bit(a[0]),
        bit(a[1]),
        bit(a[2]),
        bit(a[3]),
        bit(a[4]),
        bit(a[5]),
        bit(a[6]),
        bit(a[7]),
        bit(b[0]),
        bit(b[1]),
        bit(b[2]),
        bit(b[3]),
        bit(b[4]),
        bit(b[5]),
        bit(b[6]),
        bit(b[7]),
    );
}

} // verus!
