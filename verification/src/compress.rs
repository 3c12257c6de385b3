//! The block encoder.

use vstd::prelude::*;
use crate::bits::{first_lanes, lemma_set_lane};
use crate::laws::{lemma_encoding_step, lemma_fields_classify};
use crate::wide::{lanes_above_zero, lanes_below_max, load_word};
use crate::model::{GROUP, MARKER, above_zero, below_max, encoding, group_tag, pack, unit};

verus! {

/// Why a buffer was not encoded.
#[derive(Debug, Clone, Copy, PartialEq, Eq, Structural)]
pub enum CompressError {
    /// The buffer does not end on a group boundary: its length, `len`, is
    /// not a multiple of the group size.
    SizeMismatch { len: usize },
}

/// Encodes one group by eight scalar comparisons: the tag of its encoded unit.
pub fn compress8(buf: &[u8; 8]) -> (tag: u8)
    ensures
        tag == group_tag(buf@),
{
    let mut gt: u8 = 0;
    let mut lt: u8 = 0;
    for i in 0..8usize
        invariant
            gt == pack(first_lanes(above_zero(buf@), i as int)),
            lt == pack(first_lanes(below_max(buf@), i as int)),
    {
        let v = buf[i];
        proof {
            lemma_set_lane(gt, i);
            lemma_set_lane(lt, i);
        }
        if v > 0 {
            gt |= 1u8 << i;
        }
        if v < 255 {
            lt |= 1u8 << i;
        }
    }
    proof {
        lemma_fields_classify(buf@);
    }
    // any sample that is neither 0 nor 255?
    if gt & lt != 0 {
        MARKER
    } else {
        gt
    }
}

/// Encodes one group by comparing its eight samples at once, as lanes of a
/// 64-bit word: the tag of its encoded unit, the same as `compress8` gives.
pub fn compress8_wide(buf: &[u8; 8]) -> (tag: u8)
    ensures
        tag == group_tag(buf@),
{
    let w = load_word(buf);
    let gt = lanes_above_zero(w);
    let lt = lanes_below_max(w);
    proof {
        lemma_fields_classify(buf@);
    }
    // any sample that is neither 0 nor 255?
    if gt & lt != 0 {
        MARKER
    } else {
        gt
    }
}

/// The group of `buf` that starts at `at`.
fn load_group(buf: &[u8], at: usize) -> (group: [u8; 8])
    requires
        at + 8 <= buf@.len(),
    ensures
        group@ == buf@.subrange(at as int, at + 8),
{
    let group = [
        buf[at],
        buf[at + 1],
        buf[at + 2],
        buf[at + 3],
        buf[at + 4],
        buf[at + 5],
        buf[at + 6],
        buf[at + 7],
    ];
    assert(group@ =~= buf@.subrange(at as int, at + 8));
    group
}

/// Appends to `out` the encoded unit that `tag` opens for `group`: the tag,
/// and after the marker the eight samples as they are.
pub fn push_unit(out: &mut Vec<u8>, tag: u8, group: &[u8; 8])
    ensures
        final(out)@ == old(out)@ + unit(tag, group@),
{
    out.push(tag);
    if tag == MARKER {
        for j in 0..8usize
            invariant
                out@ == old(out)@ + seq![MARKER] + group@.take(j as int),
        {
            out.push(group[j]);
            assert(group@.take(j + 1) =~= group@.take(j as int).push(group@[j as int]));
        }
        assert(group@.take(8) =~= group@);
    }
}

/// Appends the encoding of `buf` to `out`, group by group, each group
/// encoded by scalar comparisons.
///
/// A buffer that does not end on a group boundary is refused, and `out` is
/// left as it was.
pub fn compress_buf_slow(buf: &[u8], out: &mut Vec<u8>) -> (res: Result<(), CompressError>)
    ensures
        match res {
            Ok(_) => buf@.len() % 8 == 0 && final(out)@ == old(out)@ + encoding(buf@),
            Err(e) => buf@.len() % 8 != 0 && e == (CompressError::SizeMismatch { len: buf.len() })
                && final(out)@ == old(out)@,
        },
{
    let len = buf.len();
    if len % GROUP != 0 {
        return Err(CompressError::SizeMismatch { len });
    }
    let mut at: usize = 0;
    while at < len
        invariant
            len == buf@.len(),
            len % 8 == 0,
            at % 8 == 0,
            at <= len,
            out@ == old(out)@ + encoding(buf@.take(at as int)),
        decreases len - at,
    {
        let group = load_group(buf, at);
        let tag = compress8(&group);
        proof {
            lemma_encoding_step(buf@, at as int);
        }
        push_unit(out, tag, &group);
        at += GROUP;
    }
    assert(buf@.take(len as int) =~= buf@);
    Ok(())
}

/// Appends the encoding of `buf` to `out`, group by group, each group
/// encoded by one comparison over a 64-bit word. The output is that of
/// `compress_buf_slow`, byte for byte.
///
/// A buffer that does not end on a group boundary is refused, and `out` is
/// left as it was.
pub fn compress_buf_fast(buf: &[u8], out: &mut Vec<u8>) -> (res: Result<(), CompressError>)
    ensures
        match res {
            Ok(_) => buf@.len() % 8 == 0 && final(out)@ == old(out)@ + encoding(buf@),
            Err(e) => buf@.len() % 8 != 0 && e == (CompressError::SizeMismatch { len: buf.len() })
                && final(out)@ == old(out)@,
        },
{
    let len = buf.len();
    if len % GROUP != 0 {
        return Err(CompressError::SizeMismatch { len });
    }
    let mut at: usize = 0;
    while at < len
        invariant
            len == buf@.len(),
            len % 8 == 0,
            at % 8 == 0,
            at <= len,
            out@ == old(out)@ + encoding(buf@.take(at as int)),
        decreases len - at,
    {
        let group = load_group(buf, at);
        let tag = compress8_wide(&group);
        proof {
            lemma_encoding_step(buf@, at as int);
        }
        push_unit(out, tag, &group);
        at += GROUP;
    }
    assert(buf@.take(len as int) =~= buf@);
    Ok(())
}

} // verus!
