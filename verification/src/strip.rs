//! Integer-side orchestration of a strip encode: input validation, the
//! macroblock column count, and clamped pixel addressing for the 8x8 block
//! extraction.
//!
//! The pixel stages themselves (color conversion, transform, quantization)
//! work on real-valued samples and live with the host; everything here is
//! exact integer logic.

use vstd::prelude::*;
use crate::bitstream::BitstreamWriter;
use crate::bitstream::pack_bytes;
use crate::bitstream::padded;
use crate::bitstream::stuff;
use crate::bitstream::stuffed_ok;
use crate::entropy::DcPredictors;
use crate::entropy::huffman_encode_mcu;
use crate::entropy::mcu_bits;
use crate::entropy::mcu_ok;

verus! {

/// The three quantized blocks of one macroblock column: luma, Cb, Cr.
pub type McuBlocks = ([i16; 64], [i16; 64], [i16; 64]);

/// The DC predictor state after coding one macroblock: each component's
/// predictor holds that block's DC coefficient.
pub open spec fn next_preds(m: McuBlocks) -> DcPredictors {
    DcPredictors { y: m.0@[0], cb: m.1@[0], cr: m.2@[0] }
}

/// The zeroed predictor state every strip call starts from.
pub open spec fn zero_preds() -> DcPredictors {
    DcPredictors { y: 0, cb: 0, cr: 0 }
}

/// Every macroblock of the strip is codable against the predictor state its
/// position implies.
pub open spec fn strip_ok(blocks: Seq<McuBlocks>, p: DcPredictors) -> bool
    decreases blocks.len(),
{
    blocks.len() == 0 || (mcu_ok(blocks[0].0@, blocks[0].1@, blocks[0].2@, p) && strip_ok(
        blocks.skip(1),
        next_preds(blocks[0]),
    ))
}

/// The entropy-coded bit string of a whole strip of macroblocks, coded in
/// order with the DC predictors threaded through.
pub open spec fn strip_bits(blocks: Seq<McuBlocks>, p: DcPredictors) -> Seq<bool>
    decreases blocks.len(),
{
    if blocks.len() == 0 {
        Seq::empty()
    } else {
        mcu_bits(blocks[0].0@, blocks[0].1@, blocks[0].2@, p) + strip_bits(
            blocks.skip(1),
            next_preds(blocks[0]),
        )
    }
}

/// Code a strip's quantized macroblocks into the finalized byte stream:
/// fresh zeroed DC predictors, every macroblock in order, then the final
/// byte-aligning flush. The result is exactly the stuffed packing of the
/// strip's bit string, and never holds a bare `0xFF`.
pub fn encode_strip_mcus(blocks: &Vec<McuBlocks>) -> (r: Vec<u8>)
    requires
        strip_ok(blocks@, zero_preds()),
    ensures
        r@ == stuff(pack_bytes(padded(strip_bits(blocks@, zero_preds())))),
        stuffed_ok(r@),
{
    let mut bitstream = BitstreamWriter::new();
    let mut dc_predictors = DcPredictors::new();
    let mut i: usize = 0;
    proof {
        assert(blocks@.skip(0) =~= blocks@);
        assert(dc_predictors == zero_preds());
        assert(bitstream@ + strip_bits(blocks@, zero_preds()) =~= strip_bits(
            blocks@,
            zero_preds(),
        ));
    }
    while i < blocks.len()
        invariant
            bitstream.wf(),
            i <= blocks@.len(),
            strip_ok(blocks@.skip(i as int), dc_predictors),
            bitstream@ + strip_bits(blocks@.skip(i as int), dc_predictors) == strip_bits(
                blocks@,
                zero_preds(),
            ),
        decreases blocks@.len() - i,
    {
        let ghost rest = blocks@.skip(i as int);
        let ghost p0 = dc_predictors;
        let ghost bw0 = bitstream@;
        proof {
            assert(rest[0] == blocks@[i as int]);
            assert(rest.skip(1) =~= blocks@.skip(i as int + 1));
        }
        let m = blocks[i];
        huffman_encode_mcu(&m.0, &m.1, &m.2, &mut dc_predictors, &mut bitstream);
        proof {
            assert(dc_predictors == next_preds(rest[0]));
            assert(bw0 + mcu_bits(rest[0].0@, rest[0].1@, rest[0].2@, p0) + strip_bits(
                rest.skip(1),
                next_preds(rest[0]),
            ) =~= bw0 + (mcu_bits(rest[0].0@, rest[0].1@, rest[0].2@, p0) + strip_bits(
                rest.skip(1),
                next_preds(rest[0]),
            )));
        }
        i = i + 1;
    }
    proof {
        assert(blocks@.skip(blocks@.len() as int) =~= Seq::<McuBlocks>::empty());
        assert(bitstream@ + Seq::<bool>::empty() =~= bitstream@);
    }
    bitstream.finish()
}

/// A strip call's precondition violations, detected before any output is
/// produced.
#[derive(Clone, Copy, PartialEq, Eq, Structural, Debug)]
pub enum StripError {
    /// A quantization table does not hold exactly 64 entries.
    InvalidTableSize,
    /// The pixel buffer length is not `width * 8 * 4` bytes.
    PixelBufferSizeMismatch,
}

/// Check the strip call's preconditions: both quantization tables hold
/// exactly 64 entries, and the RGBA buffer holds exactly 8 scanlines of
/// `width` pixels.
pub fn validate_strip_inputs(
    pixel_len: usize,
    width: u32,
    luma_table_len: usize,
    chroma_table_len: usize,
) -> (r: Result<(), StripError>)
    ensures
        r == Ok::<(), StripError>(()) <==> luma_table_len == 64 && chroma_table_len == 64
            && pixel_len == width * 8 * 4,
        r == Err::<(), StripError>(StripError::InvalidTableSize) <==> luma_table_len != 64
            || chroma_table_len != 64,
        r == Err::<(), StripError>(StripError::PixelBufferSizeMismatch) <==> luma_table_len == 64
            && chroma_table_len == 64 && pixel_len != width * 8 * 4,
{
    if luma_table_len != 64 || chroma_table_len != 64 {
        Err(StripError::InvalidTableSize)
    } else if pixel_len as u64 != width as u64 * 32 {
        Err(StripError::PixelBufferSizeMismatch)
    } else {
        Ok(())
    }
}

/// Number of 8-pixel-wide macroblock columns covering a strip of `width`
/// pixels: the column starts are 0, 8, 16, ... below `width`.
pub fn num_mcu_columns(width: u32) -> (r: u32)
    ensures
        r == (width + 7) / 8,
{
    width / 8 + if width % 8 == 0 {
        0
    } else {
        1
    }
}

/// The smaller of two column indices.
pub open spec fn min_u32(a: int, b: int) -> int {
    if a <= b {
        a
    } else {
        b
    }
}

/// Byte offset of the RGBA pixel sampled for block cell (`row`, `col`) of
/// the macroblock starting at column `x`: the source column is clamped to
/// `width - 1` when the macroblock overruns the strip's right edge.
pub fn pixel_offset(width: u32, x: u32, row: u32, col: u32) -> (r: usize)
    requires
        1 <= width,
        x < width,
        row < 8,
        col < 8,
        width * 32 <= usize::MAX,
    ensures
        r == 4 * (row * width + min_u32(x + col, width - 1)),
        r + 4 <= width * 8 * 4,
{
    let px: u32 = if col < width - x {
        x + col
    } else {
        width - 1
    };
    proof {
        assert(px == min_u32(x + col, width - 1));
        assert(row * width + px <= 7 * width + (width - 1)) by (nonlinear_arith)
            requires
                row < 8,
                px < width,
                0 <= row,
                0 <= width,
        ;
    }
    let offset: usize = ((row as usize) * (width as usize) + (px as usize)) * 4;
    offset
}

} // verus!
