use restream::compress::{
    compress8, compress8_wide, compress_buf_fast, compress_buf_slow, push_unit, CompressError,
};
use restream::model::{GROUP, MARKER};
use restream::wide::{lanes_above_zero, lanes_below_max, load_word};

fn slow(buf: &[u8]) -> Vec<u8> {
    let mut out = Vec::new();
    assert_eq!(compress_buf_slow(buf, &mut out), Ok(()));
    out
}

fn fast(buf: &[u8]) -> Vec<u8> {
    let mut out = Vec::new();
    assert_eq!(compress_buf_fast(buf, &mut out), Ok(()));
    out
}

#[test]
fn constants_are_as_documented() {
    assert_eq!(GROUP, 8);
    assert_eq!(MARKER, 0xAB);
}

#[test]
fn all_zero_group_is_one_zero_byte() {
    assert_eq!(slow(&[0, 0, 0, 0, 0, 0, 0, 0]), vec![0x00]);
    assert_eq!(fast(&[0, 0, 0, 0, 0, 0, 0, 0]), vec![0x00]);
}

#[test]
fn all_max_group_is_one_ff_byte() {
    assert_eq!(slow(&[255, 255, 255, 255, 255, 255, 255, 255]), vec![0xFF]);
    assert_eq!(fast(&[255, 255, 255, 255, 255, 255, 255, 255]), vec![0xFF]);
}

#[test]
fn alternating_group_sets_odd_bits() {
    assert_eq!(slow(&[0, 255, 0, 255, 0, 255, 0, 255]), vec![0xAA]);
    assert_eq!(fast(&[0, 255, 0, 255, 0, 255, 0, 255]), vec![0xAA]);
}

#[test]
fn first_sample_is_the_lowest_bit() {
    assert_eq!(slow(&[255, 0, 0, 0, 0, 0, 0, 0]), vec![0x01]);
    assert_eq!(fast(&[255, 0, 0, 0, 0, 0, 0, 0]), vec![0x01]);
    assert_eq!(slow(&[0, 0, 0, 0, 0, 0, 0, 255]), vec![0x80]);
    assert_eq!(fast(&[0, 0, 0, 0, 0, 0, 0, 255]), vec![0x80]);
}

#[test]
fn one_interior_sample_escapes_the_group() {
    let expected = vec![MARKER, 0, 0, 0, 0, 0, 0, 0, 128];
    assert_eq!(slow(&[0, 0, 0, 0, 0, 0, 0, 128]), expected);
    assert_eq!(fast(&[0, 0, 0, 0, 0, 0, 0, 128]), expected);
}

#[test]
fn empty_input_gives_empty_output() {
    assert_eq!(slow(&[]), Vec::<u8>::new());
    assert_eq!(fast(&[]), Vec::<u8>::new());
}

#[test]
fn interior_bounds_are_one_and_254() {
    for v in [1u8, 2, 127, 128, 253, 254] {
        for at in 0..8 {
            let mut group = [0u8; 8];
            group[at] = v;
            assert_eq!(compress8(&group), MARKER);
            assert_eq!(compress8_wide(&group), MARKER);
            let mut expected = vec![MARKER];
            expected.extend_from_slice(&group);
            assert_eq!(slow(&group), expected);
            assert_eq!(fast(&group), expected);
        }
    }
}

#[test]
fn group_tags_of_extremes() {
    assert_eq!(compress8(&[0, 0, 0, 0, 0, 0, 0, 0]), 0x00);
    assert_eq!(compress8(&[255, 255, 255, 255, 255, 255, 255, 255]), 0xFF);
    assert_eq!(compress8(&[0, 255, 0, 255, 0, 255, 0, 255]), 0xAA);
    assert_eq!(compress8(&[255, 0, 255, 0, 255, 0, 255, 0]), 0x55);
    assert_eq!(compress8(&[255, 255, 255, 255, 0, 0, 0, 0]), 0x0F);
    assert_eq!(compress8_wide(&[0, 0, 0, 0, 0, 0, 0, 0]), 0x00);
    assert_eq!(compress8_wide(&[255, 255, 255, 255, 255, 255, 255, 255]), 0xFF);
    assert_eq!(compress8_wide(&[0, 255, 0, 255, 0, 255, 0, 255]), 0xAA);
    assert_eq!(compress8_wide(&[255, 0, 255, 0, 255, 0, 255, 0]), 0x55);
    assert_eq!(compress8_wide(&[255, 255, 255, 255, 0, 0, 0, 0]), 0x0F);
}

#[test]
fn marker_collision_group_is_escaped() {
    // The one group of extremes whose bitmap byte is 0xAB.
    let group = [255u8, 255, 0, 255, 0, 255, 0, 255];
    assert_eq!(compress8(&group), MARKER);
    assert_eq!(compress8_wide(&group), MARKER);
    let expected = vec![MARKER, 255, 255, 0, 255, 0, 255, 0, 255];
    assert_eq!(slow(&group), expected);
    assert_eq!(fast(&group), expected);
}

#[test]
fn several_groups_in_order() {
    let buf = [
        0, 0, 0, 0, 0, 0, 0, 0, //
        1, 2, 3, 4, 5, 6, 7, 8, //
        255, 255, 255, 255, 255, 255, 255, 255, //
        0, 255, 0, 255, 0, 255, 0, 255, //
        255, 0, 0, 0, 0, 0, 0, 254,
    ];
    let expected = vec![
        0x00, MARKER, 1, 2, 3, 4, 5, 6, 7, 8, 0xFF, 0xAA, MARKER, 255, 0, 0, 0, 0, 0, 0, 254,
    ];
    assert_eq!(slow(&buf), expected);
    assert_eq!(fast(&buf), expected);
}

#[test]
fn output_is_appended_to() {
    let mut out = vec![7u8, 8, 9];
    assert_eq!(compress_buf_slow(&[0, 0, 0, 0, 0, 0, 0, 255], &mut out), Ok(()));
    assert_eq!(out, vec![7, 8, 9, 0x80]);
    assert_eq!(compress_buf_fast(&[9, 0, 0, 0, 0, 0, 0, 0], &mut out), Ok(()));
    assert_eq!(out, vec![7, 8, 9, 0x80, MARKER, 9, 0, 0, 0, 0, 0, 0, 0]);
    assert_eq!(compress_buf_slow(&[], &mut out), Ok(()));
    assert_eq!(out, vec![7, 8, 9, 0x80, MARKER, 9, 0, 0, 0, 0, 0, 0, 0]);
}

#[test]
fn partial_group_is_refused() {
    for len in [1usize, 2, 3, 4, 5, 6, 7, 9, 15, 17, 1001] {
        let buf = vec![255u8; len];
        let mut out = vec![1u8, 2, 3];
        assert_eq!(
            compress_buf_slow(&buf, &mut out),
            Err(CompressError::SizeMismatch { len })
        );
        assert_eq!(out, vec![1, 2, 3]);
        assert_eq!(
            compress_buf_fast(&buf, &mut out),
            Err(CompressError::SizeMismatch { len })
        );
        assert_eq!(out, vec![1, 2, 3]);
    }
}

#[test]
fn whole_groups_are_accepted() {
    for groups in [0usize, 1, 2, 3, 125] {
        let buf = vec![0u8; groups * 8];
        let mut out = Vec::new();
        assert_eq!(compress_buf_slow(&buf, &mut out), Ok(()));
        assert_eq!(out.len(), groups);
    }
}

#[test]
fn push_unit_frames_by_tag() {
    let group = [1u8, 2, 3, 4, 5, 6, 7, 8];
    let mut out = vec![42u8];
    push_unit(&mut out, 0x0F, &group);
    assert_eq!(out, vec![42, 0x0F]);
    push_unit(&mut out, MARKER, &group);
    assert_eq!(out, vec![42, 0x0F, MARKER, 1, 2, 3, 4, 5, 6, 7, 8]);
    push_unit(&mut out, 0x00, &group);
    assert_eq!(out, vec![42, 0x0F, MARKER, 1, 2, 3, 4, 5, 6, 7, 8, 0x00]);
}

#[test]
fn word_holds_the_first_sample_in_its_lowest_byte() {
    assert_eq!(load_word(&[1, 2, 3, 4, 5, 6, 7, 8]), 0x0807_0605_0403_0201);
    assert_eq!(load_word(&[0, 0, 0, 0, 0, 0, 0, 0]), 0);
    assert_eq!(load_word(&[255, 0, 0, 0, 0, 0, 0, 128]), 0x8000_0000_0000_00FF);
}

#[test]
fn wide_comparisons_give_one_bit_per_lane() {
    assert_eq!(lanes_above_zero(0), 0x00);
    assert_eq!(lanes_below_max(0), 0xFF);
    assert_eq!(lanes_above_zero(u64::MAX), 0xFF);
    assert_eq!(lanes_below_max(u64::MAX), 0x00);
    // lanes, from the lowest: 0x01 0x80 0x00 0xFF 0x7F 0x00 0xFE 0xFF
    let w = 0xFFFE_007F_FF00_8001u64;
    assert_eq!(lanes_above_zero(w), 0b1101_1011);
    assert_eq!(lanes_below_max(w), 0b0111_0111);
    for lane in 0..8 {
        for v in [1u64, 0x80, 0xFF] {
            assert_eq!(lanes_above_zero(v << (8 * lane)), 1 << lane);
        }
        for v in [0u64, 0x7F, 0xFE] {
            assert_eq!(lanes_below_max(!((0xFF ^ v) << (8 * lane))), 1 << lane);
        }
    }
}
