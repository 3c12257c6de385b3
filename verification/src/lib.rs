//! Run/bitmap compression for framebuffers whose samples cluster at the two
//! extremes, fully off (0) and fully on (255), as on e-ink and monochrome
//! panels.
//!
//! The input is read in groups of eight samples, and each group is encoded
//! on its own:
//!
//! - a group made of extremes only becomes one *bitmap byte*, whose bit `i`
//!   is set exactly where sample `i` is 255;
//! - any other group becomes an *escape unit*: the marker byte `0xAB`, then
//!   the eight samples as they are.
//!
//! One group of extremes, `[255, 255, 0, 255, 0, 255, 0, 255]`, has the
//! marker as its bitmap byte. It is escaped like a group with an interior
//! sample: the marker is never written as a bitmap byte, and a reader that
//! meets it always finds eight raw samples behind it. The encoding can
//! therefore be read back in one way only.
//!
//! A buffer whose length is not a multiple of eight is refused with
//! [`compress::CompressError::SizeMismatch`], and nothing is written.
//!
//! There are two paths through the encoder, with the same output byte for
//! byte: [`compress::compress_buf_slow`] compares the samples of a group one
//! by one, [`compress::compress_buf_fast`] compares all eight at once as the
//! lanes of a 64-bit word.
//!
//! [`model`] states what a group and a buffer encode to, [`laws`] what
//! follows from that, [`bits`] and [`wide`] how the bit fields are computed.

pub mod model;
pub mod bits;
pub mod wide;
pub mod laws;
pub mod compress;
