//! Baseline-JPEG strip encoding: the entropy-coding back end of a strip
//! encoder, verified down to the bit level.
//!
//! The library turns quantized 8x8 coefficient blocks into the raw
//! entropy-coded byte stream of a baseline JPEG scan: DC-delta and run-length
//! Huffman coding over the zig-zag scan order, packed most-significant-bit
//! first with the mandatory 0x00 stuffing byte after every literal 0xFF.

pub mod bitstream;
pub mod entropy;
pub mod strip;
pub mod tables;

pub use bitstream::BitstreamWriter;
