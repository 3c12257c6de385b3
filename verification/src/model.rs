//! The mathematical model of the encoding: what a group and a whole buffer
//! encode to, stated over sequences of bytes.

use vstd::prelude::*;

verus! {

/// Number of samples in a group.
pub const GROUP: usize = 8;

/// The byte that opens an escape unit.
pub const MARKER: u8 = 0xAB;

/// A sample that is neither fully off nor fully on.
pub open spec fn is_interior(b: u8) -> bool {
    0 < b && b < 255
}

/// Some sample of `g` is interior.
pub open spec fn has_interior(g: Seq<u8>) -> bool {
    exists|i: int| 0 <= i < g.len() && is_interior(#[trigger] g[i])
}

/// Every sample of `g` is an extreme, 0 or 255.
pub open spec fn is_saturated(g: Seq<u8>) -> bool {
    forall|i: int| 0 <= i < g.len() ==> #[trigger] g[i] == 0 || g[i] == 255
}

/// What one position adds to a bit field: its weight where the flag holds.
pub open spec fn lane(flag: bool, weight: int) -> int {
    if flag {
        weight
    } else {
        0
    }
}

/// The value of the 8-bit field whose bit `i` is set exactly where
/// `flags[i]` holds, bit 0 being the lowest.
pub open spec fn pack(flags: Seq<bool>) -> int {
    lane(flags[0], 1) + lane(flags[1], 2) + lane(flags[2], 4) + lane(flags[3], 8) + lane(
        flags[4],
        16,
    ) + lane(flags[5], 32) + lane(flags[6], 64) + lane(flags[7], 128)
}

/// For each sample of a group, whether it is above 0.
pub open spec fn above_zero(g: Seq<u8>) -> Seq<bool> {
    Seq::new(g.len(), |i: int| g[i] > 0)
}

/// For each sample of a group, whether it is below 255.
pub open spec fn below_max(g: Seq<u8>) -> Seq<bool> {
    Seq::new(g.len(), |i: int| g[i] < 255)
}

/// For each sample of a group, whether it is 255.
pub open spec fn at_max(g: Seq<u8>) -> Seq<bool> {
    Seq::new(g.len(), |i: int| g[i] == 255)
}

/// The field `gt` of a group: bit `i` is set exactly where sample `i` is
/// above 0.
pub open spec fn gt_field(g: Seq<u8>) -> u8 {
    pack(above_zero(g)) as u8
}

/// The field `lt` of a group: bit `i` is set exactly where sample `i` is
/// below 255.
pub open spec fn lt_field(g: Seq<u8>) -> u8 {
    pack(below_max(g)) as u8
}

/// The bitmap byte of a group: bit `i` is set exactly where sample `i` is 255.
pub open spec fn bitmap(g: Seq<u8>) -> u8 {
    pack(at_max(g)) as u8
}

/// The first byte of a group's encoded unit: the marker where a sample is
/// interior, the bitmap byte otherwise.
pub open spec fn group_tag(g: Seq<u8>) -> u8 {
    if has_interior(g) {
        MARKER
    } else {
        bitmap(g)
    }
}

/// The encoded unit that a tag opens: the tag alone where it is not the
/// marker; the marker, then the group's samples as they are, where it is.
pub open spec fn unit(tag: u8, g: Seq<u8>) -> Seq<u8> {
    if tag == MARKER {
        seq![MARKER] + g
    } else {
        seq![tag]
    }
}

/// The encoded unit of one group of eight samples.
///
/// A group of extremes whose bitmap byte happens to be the marker is escaped
/// like a group with an interior sample, so that a marker in the output
/// always opens an escape unit.
pub open spec fn encode_group(g: Seq<u8>) -> Seq<u8> {
    unit(group_tag(g), g)
}

/// The one group of extremes whose bitmap byte is the marker.
pub open spec fn collision_group() -> Seq<u8> {
    seq![255u8, 255u8, 0u8, 255u8, 0u8, 255u8, 0u8, 255u8]
}

/// The encoding of a buffer: the encoded units of its groups, in order.
/// Fewer than eight samples at the end form no group.
pub open spec fn encoding(buf: Seq<u8>) -> Seq<u8>
    decreases buf.len(),
{
    if buf.len() < GROUP {
        Seq::empty()
    } else {
        encode_group(buf.take(GROUP as int)) + encoding(buf.skip(GROUP as int))
    }
}

} // verus!
