//! Run-length / Huffman entropy coding of quantized 8x8 coefficient blocks.
//!
//! The DC coefficient is coded as a size category for its delta against the
//! previous block of the same component, followed by that many extra bits;
//! the 63 AC coefficients are scanned in zig-zag order and coded as packed
//! run/size symbols, with the ZRL escape for 16 zeros and an end-of-block
//! symbol when the tail of the scan is all zero.

use vstd::prelude::*;
use vstd::arithmetic::power2::*;
use crate::bitstream::BitstreamWriter;
use crate::bitstream::val_bits;
use crate::tables::zz;
use crate::tables::zigzag_index;
use crate::tables::dc_code;
use crate::tables::dc_code_for;
use crate::tables::ac_code;
use crate::tables::ac_code_for;

verus! {

/// Number of bits needed to write `n` in binary (0 needs none).
pub open spec fn bitlen(n: nat) -> nat
    decreases n,
{
    if n == 0 {
        0
    } else {
        1 + bitlen(n / 2)
    }
}

/// JPEG size category of a coefficient or DC delta: 0 for 0, else the bit
/// length of its magnitude.
pub open spec fn cat_of(v: int) -> nat {
    if v >= 0 {
        bitlen(v as nat)
    } else {
        bitlen((-v) as nat)
    }
}

/// The extra-bits pattern sent after the category code: the magnitude for a
/// positive value, one less than the magnitude for a negative one.
pub open spec fn extra_of(v: int) -> nat {
    if v >= 0 {
        v as nat
    } else {
        (-v - 1) as nat
    }
}

/// The bit string of one Huffman (code value, code length) pair.
pub open spec fn code_bits(cs: (u16, u8)) -> Seq<bool> {
    val_bits(cs.0 as nat, cs.1 as nat)
}

/// Bits coding one DC delta: the category code, then the category-many extra
/// bits (none for category 0).
pub open spec fn dc_bits(is_luma: bool, diff: int) -> Seq<bool> {
    code_bits(dc_code(is_luma, cat_of(diff))) + if cat_of(diff) > 0 {
        val_bits(extra_of(diff), cat_of(diff))
    } else {
        Seq::<bool>::empty()
    }
}

/// Highest zig-zag position in 1..=n holding a nonzero coefficient, 0 if all
/// are zero.
pub open spec fn last_nz_upto(b: Seq<i16>, n: nat) -> nat
    decreases n,
{
    if n == 0 {
        0
    } else if b[zz(n as int)] != 0 {
        n
    } else {
        last_nz_upto(b, (n - 1) as nat)
    }
}

/// Highest zig-zag position of a nonzero AC coefficient, 0 if none.
pub open spec fn last_nz(b: Seq<i16>) -> nat {
    last_nz_upto(b, 63)
}

/// The AC coding units (zero run, size category, extra bits) emitted while
/// scanning positions `i..=end` in zig-zag order with `run` zeros already
/// pending: a `(15, 0, 0)` ZRL unit for each full group of 16 zeros, and one
/// unit per nonzero coefficient.
pub open spec fn ac_units(b: Seq<i16>, i: nat, run: nat, end: nat) -> Seq<(nat, nat, nat)>
    decreases end + 1 - i,
{
    if i > end {
        Seq::empty()
    } else {
        let c = b[zz(i as int)] as int;
        if c == 0 {
            if run == 15 {
                seq![(15nat, 0nat, 0nat)] + ac_units(b, i + 1, 0, end)
            } else {
                ac_units(b, i + 1, run + 1, end)
            }
        } else {
            seq![(run, cat_of(c), extra_of(c))] + ac_units(b, i + 1, 0, end)
        }
    }
}

/// All AC units of a block: the scan up to the last nonzero coefficient,
/// then the `(0, 0, 0)` end-of-block unit unless the scan is fully packed.
pub open spec fn block_units(b: Seq<i16>) -> Seq<(nat, nat, nat)> {
    ac_units(b, 1, 0, last_nz(b)) + if last_nz(b) < 63 {
        seq![(0nat, 0nat, 0nat)]
    } else {
        Seq::empty()
    }
}

/// Bits coding one AC unit: the Huffman code of the packed run/size symbol,
/// then the size-many extra bits.
pub open spec fn unit_bits(is_luma: bool, u: (nat, nat, nat)) -> Seq<bool> {
    code_bits(ac_code(is_luma, (u.0 * 16 + u.1) as u8)) + if u.1 > 0 {
        val_bits(u.2, u.1)
    } else {
        Seq::<bool>::empty()
    }
}

/// Bits coding a sequence of AC units, in order.
pub open spec fn units_bits(is_luma: bool, us: Seq<(nat, nat, nat)>) -> Seq<bool>
    decreases us.len(),
{
    if us.len() == 0 {
        Seq::empty()
    } else {
        unit_bits(is_luma, us[0]) + units_bits(is_luma, us.skip(1))
    }
}

/// The complete bit string of one coded block: DC delta coding against
/// `pred`, then all AC units.
pub open spec fn block_bits(b: Seq<i16>, is_luma: bool, pred: int) -> Seq<bool> {
    dc_bits(is_luma, b[0] - pred) + units_bits(is_luma, block_units(b))
}

/// A block is codable when its DC delta fits the 0..=11 DC categories and no
/// coefficient is the one value whose magnitude overflows its own type.
pub open spec fn block_ok(b: Seq<i16>, pred: int) -> bool {
    &&& -2048 < b[0] - pred < 2048
    &&& forall|j: int| 0 <= j < 64 ==> b[j] != i16::MIN
}

/// A bit length is bounded by any exponent whose power of two exceeds the
/// value.
pub proof fn lemma_bitlen_le(n: nat, k: nat)
    requires
        n < pow2(k),
    ensures
        bitlen(n) <= k,
    decreases k,
{
    if n == 0 {
    } else if k == 0 {
        lemma2_to64();
    } else {
        lemma_pow2_unfold(k);
        lemma_bitlen_le(n / 2, (k - 1) as nat);
    }
}

/// Coding a concatenation of unit sequences concatenates their bits.
proof fn lemma_units_bits_append(is_luma: bool, a: Seq<(nat, nat, nat)>, c: Seq<(nat, nat, nat)>)
    ensures
        units_bits(is_luma, a + c) == units_bits(is_luma, a) + units_bits(is_luma, c),
    decreases a.len(),
{
    if a.len() == 0 {
        assert(a + c =~= c);
        assert(units_bits(is_luma, a) + units_bits(is_luma, c) =~= units_bits(is_luma, c));
    } else {
        assert((a + c).skip(1) =~= a.skip(1) + c);
        lemma_units_bits_append(is_luma, a.skip(1), c);
        assert((a + c)[0] == a[0]);
        assert(unit_bits(is_luma, a[0]) + (units_bits(is_luma, a.skip(1)) + units_bits(is_luma, c))
            =~= (unit_bits(is_luma, a[0]) + units_bits(is_luma, a.skip(1))) + units_bits(
            is_luma,
            c,
        ));
    }
}

/// Coding a single unit followed by a rest.
proof fn lemma_units_bits_cons(is_luma: bool, u: (nat, nat, nat), rest: Seq<(nat, nat, nat)>)
    ensures
        units_bits(is_luma, seq![u] + rest) == unit_bits(is_luma, u) + units_bits(is_luma, rest),
{
    assert((seq![u] + rest).skip(1) =~= rest);
    assert((seq![u] + rest)[0] == u);
}

/// Standard JPEG decoding of a (size category, extra bits) pair: extra bits
/// with a leading 1 name the positive magnitude itself, the rest name a
/// negative value offset by one less than `2^category`.
pub open spec fn decode_value(cat: nat, extra: nat) -> int {
    if cat == 0 {
        0
    } else if extra >= pow2((cat - 1) as nat) {
        extra as int
    } else {
        extra as int - (pow2(cat) - 1)
    }
}

/// A nonzero magnitude lies between the powers of two of its bit length.
pub proof fn lemma_bitlen_bounds(n: nat)
    requires
        n >= 1,
    ensures
        bitlen(n) >= 1,
        pow2((bitlen(n) - 1) as nat) <= n < pow2(bitlen(n)),
    decreases n,
{
    if n == 1 {
        assert(bitlen(1) == 1) by {
            reveal_with_fuel(bitlen, 3);
        }
        lemma2_to64();
    } else {
        lemma_bitlen_bounds(n / 2);
        assert(bitlen(n) == 1 + bitlen(n / 2));
        lemma_pow2_unfold(bitlen(n));
        lemma_pow2_unfold((bitlen(n) - 1) as nat);
        assert(n >= 2 * (n / 2));
        assert(n <= 2 * (n / 2) + 1);
    }
}

/// Categorization round-trip: decoding the category and extra bits of a
/// value under the standard JPEG rule gives the value back. The coding of
/// `extra_of` is unambiguous exactly for nonnegative values and for negative
/// values of power-of-two magnitude, so the law is stated for those; for any
/// other negative value the emitted pair collides with that of a nonnegative
/// one and no decoder can recover it.
pub proof fn lemma_categorize_round_trip(v: int)
    requires
        -32768 < v < 32768,
        v >= 0 || (exists|k: nat| pow2(k) == -v),
    ensures
        decode_value(cat_of(v), extra_of(v)) == v,
{
    if v == 0 {
    } else if v > 0 {
        lemma_bitlen_bounds(v as nat);
    } else {
        let k = choose|k: nat| pow2(k) == -v;
        lemma_bitlen_bounds((-v) as nat);
        let b = bitlen((-v) as nat);
        if k + 1 < b {
            lemma_pow2_strictly_increases(k, (b - 1) as nat);
            assert(false);
        }
        if k + 1 > b {
            if k > b {
                lemma_pow2_strictly_increases(b, k);
            }
            assert(false);
        }
        lemma_pow2_unfold(k + 1);
        lemma_pow2_pos(k);
    }
}

/// Run-length invariant: scanning with at most 15 pending zeros, every AC
/// unit carries a zero run of at most 15.
proof fn lemma_ac_units_run_bounded(b: Seq<i16>, i: nat, run: nat, end: nat)
    requires
        run <= 15,
    ensures
        forall|k: int|
            0 <= k < ac_units(b, i, run, end).len() ==> (#[trigger] ac_units(b, i, run, end)[k]).0
                <= 15,
    decreases end + 1 - i,
{
    if i > end {
    } else {
        let c = b[zz(i as int)] as int;
        let us = ac_units(b, i, run, end);
        if c == 0 {
            if run == 15 {
                lemma_ac_units_run_bounded(b, i + 1, 0, end);
                assert forall|k: int| 0 <= k < us.len() implies (#[trigger] us[k]).0 <= 15 by {
                    if k >= 1 {
                        assert(us[k] == ac_units(b, i + 1, 0, end)[k - 1]);
                    }
                }
            } else {
                lemma_ac_units_run_bounded(b, i + 1, run + 1, end);
                assert forall|k: int| 0 <= k < us.len() implies (#[trigger] us[k]).0 <= 15 by {
                    assert(us[k] == ac_units(b, i + 1, (run + 1) as nat, end)[k]);
                }
            }
        } else {
            lemma_ac_units_run_bounded(b, i + 1, 0, end);
            assert forall|k: int| 0 <= k < us.len() implies (#[trigger] us[k]).0 <= 15 by {
                if k >= 1 {
                    assert(us[k] == ac_units(b, i + 1, 0, end)[k - 1]);
                } else {
                    assert(us[k] == (run, cat_of(b[zz(i as int)] as int), extra_of(
                        b[zz(i as int)] as int,
                    )));
                }
            }
        }
    }
}

/// Run-length invariant of a coded block: no unit of the encoding — neither
/// a literal run/size symbol nor the ZRL escape — carries a zero run longer
/// than 15; longer runs of zero coefficients are always split by ZRL units.
pub proof fn lemma_run_length_bounded(b: Seq<i16>)
    ensures
        forall|k: int|
            0 <= k < block_units(b).len() ==> (#[trigger] block_units(b)[k]).0 <= 15,
{
    lemma_ac_units_run_bounded(b, 1, 0, last_nz(b));
    let us = ac_units(b, 1, 0, last_nz(b));
    assert forall|k: int| 0 <= k < block_units(b).len() implies (#[trigger] block_units(b)[k]).0
        <= 15 by {
        if k < us.len() {
            assert(block_units(b)[k] == us[k]);
        }
    }
}

/// Categorize a coefficient value for Huffman coding: its size category and
/// the extra-bits pattern.
pub fn categorize(value: i16) -> (r: (u8, u16))
    requires
        value != i16::MIN,
    ensures
        r.0 as nat == cat_of(value as int),
        r.1 as nat == extra_of(value as int),
        r.0 <= 15,
{
    proof {
        lemma2_to64();
        if value >= 0 {
            lemma_bitlen_le(value as nat, 15);
        } else {
            lemma_bitlen_le((-(value as int)) as nat, 15);
        }
    }
    if value == 0 {
        return (0, 0);
    }
    let abs_val: u16 = if value < 0 {
        (-value) as u16
    } else {
        value as u16
    };
    let mut n: u8 = 0;
    let mut v: u16 = abs_val;
    while v > 0
        invariant
            n as nat + bitlen(v as nat) == bitlen(abs_val as nat),
            bitlen(abs_val as nat) <= 15,
        decreases v,
    {
        v = v / 2;
        n = n + 1;
    }
    let bits: u16 = if value > 0 {
        abs_val
    } else {
        abs_val - 1
    };
    (n, bits)
}

/// Emit the Huffman code for one packed AC run/size symbol.
pub fn encode_ac_symbol(symbol: u8, is_luma: bool, bitstream: &mut BitstreamWriter)
    requires
        old(bitstream).wf(),
    ensures
        final(bitstream).wf(),
        final(bitstream)@ == old(bitstream)@ + code_bits(ac_code(is_luma, symbol)),
{
    let (code, size) = ac_code_for(is_luma, symbol);
    bitstream.write_bits(code, size);
}

/// Code one quantized block: DC delta against `dc_predictor` (which is
/// updated to this block's DC), then the zig-zag AC scan.
#[verifier::rlimit(100)]
pub fn encode_block(
    block: &[i16; 64],
    is_luma: bool,
    dc_predictor: &mut i16,
    bitstream: &mut BitstreamWriter,
)
    requires
        old(bitstream).wf(),
        block_ok(block@, *old(dc_predictor) as int),
    ensures
        final(bitstream).wf(),
        *final(dc_predictor) == block@[0],
        final(bitstream)@ == old(bitstream)@ + block_bits(
            block@,
            is_luma,
            *old(dc_predictor) as int,
        ),
{
    let ghost b = block@;
    let ghost pred0 = *old(dc_predictor) as int;
    let ghost start = bitstream@;

    // DC delta coding.
    let dc = block[0];
    let diff: i16 = dc - *dc_predictor;
    *dc_predictor = dc;
    let (cat, bits) = categorize(diff);
    proof {
        lemma2_to64();
        if diff >= 0 {
            lemma_bitlen_le(diff as nat, 11);
        } else {
            lemma_bitlen_le((-(diff as int)) as nat, 11);
        }
    }
    let (code, size) = dc_code_for(is_luma, cat);
    bitstream.write_bits(code, size);
    if cat > 0 {
        bitstream.write_bits(bits, cat);
    }
    proof {
        if cat_of(diff as int) > 0 {
            assert(start + code_bits(dc_code(is_luma, cat_of(diff as int))) + val_bits(
                extra_of(diff as int),
                cat_of(diff as int),
            ) =~= start + dc_bits(is_luma, diff as int));
        } else {
            assert(start + code_bits(dc_code(is_luma, cat_of(diff as int))) =~= start + dc_bits(
                is_luma,
                diff as int,
            ));
        }
        assert(bitstream@ == start + dc_bits(is_luma, b[0] - pred0));
    }
    let ghost pre_ac = bitstream@;

    // Locate the last nonzero coefficient of the zig-zag scan.
    let mut last: usize = 0;
    let mut j: usize = 1;
    while j < 64
        invariant
            1 <= j <= 64,
            last as nat == last_nz_upto(b, (j - 1) as nat),
            last < j,
            b == block@,
        decreases 64 - j,
    {
        let idx = zigzag_index(j);
        if block[idx] != 0 {
            last = j;
        }
        j = j + 1;
    }
    assert(last as nat == last_nz(b));

    // Run-length code the AC coefficients.
    let mut run: u8 = 0;
    let mut i: usize = 1;
    while i <= last
        invariant
            bitstream.wf(),
            1 <= i <= last + 1,
            last <= 63,
            run <= 15,
            b == block@,
            forall|jj: int| 0 <= jj < 64 ==> b[jj] != i16::MIN,
            bitstream@ + units_bits(is_luma, ac_units(b, i as nat, run as nat, last as nat))
                == pre_ac + units_bits(is_luma, ac_units(b, 1, 0, last as nat)),
        decreases last + 1 - i,
    {
        let ghost bw0 = bitstream@;
        let ghost run0 = run as nat;
        let idx = zigzag_index(i);
        let coeff = block[idx];
        if coeff == 0 {
            run = run + 1;
            if run == 16 {
                encode_ac_symbol(0xF0, is_luma, bitstream);
                run = 0;
                proof {
                    let u = (15nat, 0nat, 0nat);
                    lemma_units_bits_cons(is_luma, u, ac_units(b, i as nat + 1, 0, last as nat));
                    assert(unit_bits(is_luma, u) =~= code_bits(ac_code(is_luma, 0xF0)));
                    assert(bw0 + unit_bits(is_luma, u) + units_bits(
                        is_luma,
                        ac_units(b, i as nat + 1, 0, last as nat),
                    ) =~= bw0 + units_bits(is_luma, ac_units(b, i as nat, run0, last as nat)));
                }
            }
        } else {
            let (cat, bits) = categorize(coeff);
            let symbol: u8 = run * 16 + cat;
            encode_ac_symbol(symbol, is_luma, bitstream);
            bitstream.write_bits(bits, cat);
            run = 0;
            proof {
                let c = b[zz(i as int)] as int;
                let u = (run0, cat_of(c), extra_of(c));
                assert(cat_of(c) > 0);
                lemma_units_bits_cons(is_luma, u, ac_units(b, i as nat + 1, 0, last as nat));
                assert(symbol as nat == u.0 * 16 + u.1);
                assert(bw0 + code_bits(ac_code(is_luma, symbol)) + val_bits(
                    extra_of(c),
                    cat_of(c),
                ) =~= bw0 + unit_bits(is_luma, u));
                assert(bw0 + unit_bits(is_luma, u) + units_bits(
                    is_luma,
                    ac_units(b, i as nat + 1, 0, last as nat),
                ) =~= bw0 + (unit_bits(is_luma, u) + units_bits(
                    is_luma,
                    ac_units(b, i as nat + 1, 0, last as nat),
                )));
            }
        }
        i = i + 1;
    }
    proof {
        assert(ac_units(b, i as nat, run as nat, last as nat) =~= Seq::<(nat, nat, nat)>::empty());
        assert(bitstream@ + Seq::<bool>::empty() =~= bitstream@);
        assert(bitstream@ == pre_ac + units_bits(is_luma, ac_units(b, 1, 0, last as nat)));
    }

    // End of block, unless the scan is fully packed.
    if last < 63 {
        encode_ac_symbol(0x00, is_luma, bitstream);
    }
    proof {
        let units = ac_units(b, 1, 0, last_nz(b));
        if last_nz(b) < 63 {
            lemma_units_bits_append(is_luma, units, seq![(0nat, 0nat, 0nat)]);
            assert(seq![(0nat, 0nat, 0nat)].skip(1) =~= Seq::<(nat, nat, nat)>::empty());
            assert(units_bits(is_luma, seq![(0nat, 0nat, 0nat)]) =~= unit_bits(
                is_luma,
                (0nat, 0nat, 0nat),
            ) + units_bits(is_luma, Seq::<(nat, nat, nat)>::empty()));
            assert(unit_bits(is_luma, (0nat, 0nat, 0nat)) =~= code_bits(ac_code(is_luma, 0x00)));
        } else {
            assert(block_units(b) =~= units);
        }
        assert(bitstream@ =~= start + block_bits(b, is_luma, pred0));
    }
}

/// The three DC predictors of a strip: luma, Cb, Cr.
pub struct DcPredictors {
    pub y: i16,
    pub cb: i16,
    pub cr: i16,
}

impl DcPredictors {
    /// All predictors start at zero for a strip.
    pub fn new() -> (r: DcPredictors)
        ensures
            r.y == 0 && r.cb == 0 && r.cr == 0,
    {
        DcPredictors { y: 0, cb: 0, cr: 0 }
    }
}

/// All three blocks of a macroblock are codable against the predictors.
pub open spec fn mcu_ok(y: Seq<i16>, cb: Seq<i16>, cr: Seq<i16>, p: DcPredictors) -> bool {
    &&& block_ok(y, p.y as int)
    &&& block_ok(cb, p.cb as int)
    &&& block_ok(cr, p.cr as int)
}

/// The bit string of one coded macroblock: luma, then Cb, then Cr.
pub open spec fn mcu_bits(y: Seq<i16>, cb: Seq<i16>, cr: Seq<i16>, p: DcPredictors) -> Seq<bool> {
    block_bits(y, true, p.y as int) + block_bits(cb, false, p.cb as int) + block_bits(
        cr,
        false,
        p.cr as int,
    )
}

/// Code one macroblock: the luma block, then the two chroma blocks, updating
/// the per-component DC predictors.
pub fn huffman_encode_mcu(
    y: &[i16; 64],
    cb: &[i16; 64],
    cr: &[i16; 64],
    dc_predictors: &mut DcPredictors,
    bitstream: &mut BitstreamWriter,
)
    requires
        old(bitstream).wf(),
        mcu_ok(y@, cb@, cr@, *old(dc_predictors)),
    ensures
        final(bitstream).wf(),
        final(dc_predictors).y == y@[0],
        final(dc_predictors).cb == cb@[0],
        final(dc_predictors).cr == cr@[0],
        final(bitstream)@ == old(bitstream)@ + mcu_bits(y@, cb@, cr@, *old(dc_predictors)),
{
    let ghost start = bitstream@;
    let ghost p0 = *old(dc_predictors);
    encode_block(y, true, &mut dc_predictors.y, bitstream);
    encode_block(cb, false, &mut dc_predictors.cb, bitstream);
    encode_block(cr, false, &mut dc_predictors.cr, bitstream);
    proof {
        assert(start + block_bits(y@, true, p0.y as int) + block_bits(cb@, false, p0.cb as int)
            + block_bits(cr@, false, p0.cr as int) =~= start + mcu_bits(y@, cb@, cr@, p0));
    }
}

} // verus!
