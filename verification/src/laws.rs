//! What holds of the encoding, proved over the model.

use vstd::prelude::*;
use crate::bits::{bit, lemma_pack_and, lemma_pack_bit, lemma_pack_or, or_lanes};
use crate::model::{
    GROUP, MARKER, above_zero, at_max, below_max, bitmap, collision_group, encode_group,
    encoding, group_tag, gt_field, has_interior, is_interior, is_saturated, lt_field,
};

verus! {

/// The two fields of a group tell its tag: the group has an interior sample
/// exactly where `gt` and `lt` share a set bit, and `gt` is its bitmap byte
/// where they share none.
pub proof fn lemma_fields_classify(g: Seq<u8>)
    requires
        g.len() == 8,
    ensures
        (gt_field(g) & lt_field(g) != 0) <==> has_interior(g),
        !has_interior(g) ==> gt_field(g) == bitmap(g),
        group_tag(g) == (if gt_field(g) & lt_field(g) != 0 {
            MARKER
        } else {
            gt_field(g)
        }),
{
    let a = above_zero(g);
    let b = below_max(g);
    lemma_pack_and(a, b);
    if has_interior(g) {
        let i = choose|i: int| 0 <= i < g.len() && is_interior(#[trigger] g[i]);
        assert(a[i] && b[i]);
    }
    if gt_field(g) & lt_field(g) != 0 {
        let i = choose|i: int| 0 <= i < 8 && #[trigger] a[i] && b[i];
        assert(is_interior(g[i]));
    }
    if !has_interior(g) {
        assert forall|i: int| 0 <= i < 8 implies a[i] == at_max(g)[i] by {
            assert(!is_interior(g[i]));
        }
    }
}

/// Bit `i` of each field of a group tells what its name says of sample `i`:
/// of `gt` that the sample is above 0, of `lt` that it is below 255, of the
/// bitmap byte that it is 255.
pub proof fn lemma_field_bits(g: Seq<u8>, i: usize)
    requires
        g.len() == 8,
        i < 8,
    ensures
        (gt_field(g) & (1u8 << i) != 0) <==> g[i as int] > 0,
        (lt_field(g) & (1u8 << i) != 0) <==> g[i as int] < 255,
        (bitmap(g) & (1u8 << i) != 0) <==> g[i as int] == 255,
{
    lemma_pack_bit(above_zero(g), i);
    lemma_pack_bit(below_max(g), i);
    lemma_pack_bit(at_max(g), i);
}

/// A group is made of extremes exactly where it has no interior sample.
pub proof fn lemma_saturated_iff(g: Seq<u8>)
    ensures
        is_saturated(g) <==> !has_interior(g),
{
    if !has_interior(g) {
        assert forall|i: int| 0 <= i < g.len() implies #[trigger] g[i] == 0 || g[i] == 255 by {
            assert(!is_interior(g[i]));
        }
    }
}

/// The bitmap byte of a group is the bitwise or, over its positions `i`, of
/// bit `i` where sample `i` is 255.
pub proof fn lemma_bitmap_or(g: Seq<u8>)
    requires
        g.len() == 8,
    ensures
        bitmap(g) == or_lanes(
            bit(g[0] == 255),
            bit(g[1] == 255),
            bit(g[2] == 255),
            bit(g[3] == 255),
            bit(g[4] == 255),
            bit(g[5] == 255),
            bit(g[6] == 255),
            bit(g[7] == 255),
        ),
{
    lemma_pack_or(at_max(g));
}

/// Among the groups of extremes, the bitmap byte is the marker for one group
/// only; and a group's tag is the marker exactly where the group has an
/// interior sample or is that group.
pub proof fn lemma_marker_collision(g: Seq<u8>)
    requires
        g.len() == 8,
    ensures
        is_saturated(g) ==> (bitmap(g) == MARKER <==> g == collision_group()),
        group_tag(g) == MARKER <==> has_interior(g) || g == collision_group(),
        g == collision_group() ==> encode_group(g) == seq![MARKER] + g,
{
    lemma_saturated_iff(g);
    let c = collision_group();
    lemma_saturated_iff(c);
    assert(is_saturated(c));
    if is_saturated(g) && bitmap(g) == MARKER {
        assert(g =~= c);
    }
}

/// A group of extremes, other than the one whose bitmap byte is the marker,
/// encodes to one byte: its bitmap byte, the bitwise or, over its positions
/// `i`, of bit `i` where sample `i` is 255.
pub proof fn lemma_saturated_group(g: Seq<u8>)
    requires
        g.len() == 8,
        forall|i: int| 0 <= i < 8 ==> g[i] == 0 || g[i] == 255,
        g != collision_group(),
    ensures
        encode_group(g) == seq![
            or_lanes(
                bit(g[0] == 255),
                bit(g[1] == 255),
                bit(g[2] == 255),
                bit(g[3] == 255),
                bit(g[4] == 255),
                bit(g[5] == 255),
                bit(g[6] == 255),
                bit(g[7] == 255),
            ),
        ],
{
    lemma_saturated_iff(g);
    lemma_bitmap_or(g);
    lemma_marker_collision(g);
}

/// A group with at least one sample from 1 to 254 encodes to nine bytes: the
/// marker, then its eight samples unchanged and in order.
pub proof fn lemma_escaped_group(g: Seq<u8>)
    requires
        g.len() == 8,
        exists|i: int| 0 <= i < 8 && 1 <= #[trigger] g[i] <= 254,
    ensures
        encode_group(g) == seq![MARKER] + g,
        encode_group(g).len() == 9,
{
    let i = choose|i: int| 0 <= i < 8 && 1 <= #[trigger] g[i] <= 254;
    assert(is_interior(g[i]));
}

/// Groups are encoded independently: the encoding of `a` followed by `b` is
/// the encoding of `a` followed by the encoding of `b`, where `a` is made of
/// whole groups.
pub proof fn lemma_encoding_concat(a: Seq<u8>, b: Seq<u8>)
    requires
        a.len() % 8 == 0,
    ensures
        encoding(a + b) == encoding(a) + encoding(b),
    decreases a.len(),
{
    if a.len() == 0 {
        assert(a + b =~= b);
        assert(encoding(a) + encoding(b) =~= encoding(b));
    } else {
        let n = GROUP as int;
        assert((a + b).take(n) =~= a.take(n));
        assert((a + b).skip(n) =~= a.skip(n) + b);
        lemma_encoding_concat(a.skip(n), b);
        assert(encoding(a + b) =~= encoding(a) + encoding(b));
    }
}

/// A buffer of one group encodes to that group's unit.
pub proof fn lemma_encoding_single(g: Seq<u8>)
    requires
        g.len() == 8,
    ensures
        encoding(g) == encode_group(g),
{
    let n = GROUP as int;
    assert(g.take(n) =~= g);
    assert(encoding(g.skip(n)) =~= Seq::<u8>::empty());
    assert(encoding(g) =~= encode_group(g));
}

/// Encoding one more group of a buffer appends that group's unit.
pub proof fn lemma_encoding_step(buf: Seq<u8>, i: int)
    requires
        0 <= i,
        i % 8 == 0,
        i + 8 <= buf.len(),
    ensures
        encoding(buf.take(i + 8)) == encoding(buf.take(i)) + encode_group(buf.subrange(i, i + 8)),
{
    let g = buf.subrange(i, i + 8);
    assert(buf.take(i + 8) =~= buf.take(i) + g);
    lemma_encoding_concat(buf.take(i), g);
    lemma_encoding_single(g);
}

/// An encoded unit is one byte that is not the marker, or the marker and
/// the eight samples of its group: the marker never stands for a bitmap.
pub proof fn lemma_unit_shape(g: Seq<u8>)
    requires
        g.len() == 8,
    ensures
        encode_group(g)[0] == group_tag(g),
        group_tag(g) != MARKER ==> encode_group(g) == seq![bitmap(g)] && is_saturated(g),
        group_tag(g) == MARKER ==> encode_group(g) == seq![MARKER] + g,
{
    lemma_saturated_iff(g);
}

/// The encoding holds one byte for each group at least, and nine at most.
pub proof fn lemma_encoding_len(buf: Seq<u8>)
    ensures
        buf.len() / 8 <= encoding(buf).len() <= 9 * (buf.len() / 8),
    decreases buf.len(),
{
    if buf.len() >= 8 {
        lemma_encoding_len(buf.skip(GROUP as int));
    }
}

/// A buffer of whole groups that holds one extreme throughout, 0 or 255,
/// encodes to one byte for each group, each of them that extreme: no group is
/// escaped.
pub proof fn lemma_encoding_uniform(buf: Seq<u8>, v: u8)
    requires
        v == 0 || v == 255,
        buf.len() % 8 == 0,
        forall|i: int| 0 <= i < buf.len() ==> buf[i] == v,
    ensures
        encoding(buf) == Seq::new(buf.len() / 8, |i: int| v),
    decreases buf.len(),
{
    if buf.len() >= 8 {
        let g = buf.take(GROUP as int);
        let rest = buf.skip(GROUP as int);
        lemma_encoding_uniform(rest, v);
        lemma_saturated_iff(g);
        assert(is_saturated(g));
        assert(encode_group(g) =~= seq![v]);
    }
    assert(encoding(buf) =~= Seq::new(buf.len() / 8, |i: int| v));
}

/// Two groups of extremes with the same bitmap byte are the same group.
pub proof fn lemma_bitmap_injective(g: Seq<u8>, h: Seq<u8>)
    requires
        g.len() == 8,
        h.len() == 8,
        is_saturated(g),
        is_saturated(h),
        bitmap(g) == bitmap(h),
    ensures
        g == h,
{
    assert(g =~= h);
}

/// The encoding can be read back in one way only: two buffers of whole
/// groups with the same encoding are the same buffer.
pub proof fn lemma_encoding_injective(a: Seq<u8>, b: Seq<u8>)
    requires
        a.len() % 8 == 0,
        b.len() % 8 == 0,
        encoding(a) == encoding(b),
    ensures
        a == b,
    decreases a.len(),
{
    let n = GROUP as int;
    lemma_encoding_len(a);
    lemma_encoding_len(b);
    if a.len() >= 8 {
        let g = a.take(n);
        let h = b.take(n);
        let ea = encode_group(g);
        let eb = encode_group(h);
        let ra = encoding(a.skip(n));
        let rb = encoding(b.skip(n));
        lemma_unit_shape(g);
        lemma_unit_shape(h);
        assert((ea + ra)[0] == ea[0]);
        assert((eb + rb)[0] == eb[0]);
        if group_tag(g) == MARKER {
            assert forall|i: int| 0 <= i < 8 implies g[i] == h[i] by {
                assert((ea + ra)[i + 1] == ea[i + 1]);
                assert((eb + rb)[i + 1] == eb[i + 1]);
            }
            assert(g =~= h);
        } else {
            lemma_bitmap_injective(g, h);
        }
        assert(ra =~= (ea + ra).skip(ea.len() as int));
        assert(rb =~= (eb + rb).skip(eb.len() as int));
        lemma_encoding_injective(a.skip(n), b.skip(n));
        assert(a =~= g + a.skip(n));
        assert(b =~= h + b.skip(n));
    }
    assert(a =~= b);
}

} // verus!
