//! Bit-level output stream for the entropy coder.
//!
//! Codes are appended most-significant-bit first; every time eight bits are
//! complete a byte is emitted, and a literal `0xFF` byte is always followed by
//! a `0x00` stuffing byte so the entropy-coded stream never contains a marker
//! prefix.

use vstd::prelude::*;
use vstd::arithmetic::power2::*;

verus! {

/// The `count` low-order bits of `v`, most-significant bit first.
pub open spec fn val_bits(v: nat, count: nat) -> Seq<bool> {
    Seq::new(count, |i: int| v / pow2((count - 1 - i) as nat) % 2 == 1)
}

/// Numeric value of a bit string read most-significant bit first.
pub open spec fn bits_val(bs: Seq<bool>) -> nat
    decreases bs.len(),
{
    if bs.len() == 0 {
        0
    } else {
        2 * bits_val(bs.drop_last()) + if bs.last() {
            1nat
        } else {
            0nat
        }
    }
}

/// Group a bit string into bytes, eight bits per byte, in stream order.
/// Fewer than eight trailing bits would be ignored; the writer only applies
/// this to byte-aligned strings.
pub open spec fn pack_bytes(bs: Seq<bool>) -> Seq<u8>
    decreases bs.len(),
{
    if bs.len() < 8 {
        Seq::empty()
    } else {
        pack_bytes(bs.take(bs.len() - 8)) + seq![bits_val(bs.skip(bs.len() - 8)) as u8]
    }
}

/// Insert a `0x00` stuffing byte after every literal `0xFF`.
pub open spec fn stuff(bytes: Seq<u8>) -> Seq<u8>
    decreases bytes.len(),
{
    if bytes.len() == 0 {
        Seq::empty()
    } else {
        stuff(bytes.drop_last()) + if bytes.last() == 0xFF {
            seq![0xFFu8, 0x00u8]
        } else {
            seq![bytes.last()]
        }
    }
}

/// No literal `0xFF` byte without an immediately following `0x00`.
pub open spec fn stuffed_ok(bytes: Seq<u8>) -> bool {
    forall|i: int|
        0 <= i < bytes.len() && #[trigger] bytes[i] == 0xFF ==> i + 1 < bytes.len() && bytes[i + 1]
            == 0x00
}

/// Zero bits appended on the right until the length is a multiple of eight.
pub open spec fn padded(bs: Seq<bool>) -> Seq<bool> {
    bs + Seq::new(((8 - bs.len() % 8) % 8) as nat, |i: int| false)
}

/// The value of a bit string is below `2^length`.
pub proof fn lemma_bits_val_bound(bs: Seq<bool>)
    ensures
        bits_val(bs) < pow2(bs.len()),
    decreases bs.len(),
{
    if bs.len() == 0 {
        lemma2_to64();
    } else {
        lemma_bits_val_bound(bs.drop_last());
        lemma_pow2_unfold(bs.len());
    }
}

/// Stuffing one more byte extends the stuffed stream on the right.
pub proof fn lemma_stuff_append(bytes: Seq<u8>, x: u8)
    ensures
        stuff(bytes + seq![x]) == stuff(bytes) + if x == 0xFF {
            seq![0xFFu8, 0x00u8]
        } else {
            seq![x]
        },
{
    let s = bytes + seq![x];
    assert(s.drop_last() =~= bytes);
    assert(s.last() == x);
}

/// Every stuffed stream satisfies the stuffing invariant.
pub proof fn lemma_stuff_ok(bytes: Seq<u8>)
    ensures
        stuffed_ok(stuff(bytes)),
    decreases bytes.len(),
{
    if bytes.len() == 0 {
    } else {
        let prefix = stuff(bytes.drop_last());
        lemma_stuff_ok(bytes.drop_last());
        let s = stuff(bytes);
        assert forall|i: int|
            0 <= i < s.len() && #[trigger] s[i] == 0xFF implies i + 1 < s.len() && s[i + 1]
            == 0x00 by {
            if i < prefix.len() {
                assert(prefix[i] == 0xFF);
            }
        }
    }
}

/// Packs variable-length codes into bytes, applying JPEG byte stuffing.
///
/// The abstract state (the view) is the exact sequence of bits written so
/// far; the concrete buffer always holds the stuffed packing of the
/// byte-aligned prefix of that sequence.
pub struct BitstreamWriter {
    buffer: Vec<u8>,
    acc: u8,
    nbits: u8,
    bits: Ghost<Seq<bool>>,
}

impl View for BitstreamWriter {
    type V = Seq<bool>;

    closed spec fn view(&self) -> Seq<bool> {
        self.bits@
    }
}

impl BitstreamWriter {
    /// The writer's internal invariant: fewer than eight pending bits, the
    /// accumulator holds exactly their value, and the buffer is the stuffed
    /// packing of all complete bytes.
    pub closed spec fn wf(&self) -> bool {
        &&& self.nbits < 8
        &&& self.bits@.len() >= self.nbits
        &&& (self.bits@.len() - self.nbits as int) % 8 == 0
        &&& self.acc as nat == bits_val(self.bits@.skip(self.bits@.len() - self.nbits as int))
        &&& self.buffer@ == stuff(pack_bytes(self.bits@.take(self.bits@.len() - self.nbits as int)))
    }

    /// An empty stream.
    pub fn new() -> (r: BitstreamWriter)
        ensures
            r.wf(),
            r@ == Seq::<bool>::empty(),
    {
        let r = BitstreamWriter { buffer: Vec::new(), acc: 0, nbits: 0, bits: Ghost(Seq::empty()) };
        proof {
            assert(r.bits@.skip(0) =~= Seq::<bool>::empty());
            assert(r.bits@.take(0) =~= Seq::<bool>::empty());
            assert(bits_val(Seq::<bool>::empty()) == 0);
            assert(pack_bytes(Seq::<bool>::empty()) == Seq::<u8>::empty());
            assert(stuff(Seq::<u8>::empty()) == Seq::<u8>::empty());
        }
        r
    }

    /// Append a single bit to the stream.
    fn push_bit(&mut self, b: bool)
        requires
            old(self).wf(),
        ensures
            final(self).wf(),
            final(self)@ == old(self)@ + seq![b],
    {
        let ghost b0 = self.bits@;
        let ghost n0 = self.nbits as int;
        let ghost pending0 = b0.skip(b0.len() - n0);
        proof {
            lemma_bits_val_bound(pending0);
            lemma2_to64();
        }
        self.bits = Ghost(self.bits@ + seq![b]);
        self.acc = 2 * self.acc + if b {
            1
        } else {
            0
        };
        self.nbits = self.nbits + 1;
        let ghost b1 = self.bits@;
        proof {
            let pending1 = b1.skip(b1.len() - (n0 + 1));
            assert(pending1.drop_last() =~= pending0);
            assert(pending1.last() == b);
            assert(self.acc as nat == bits_val(pending1));
        }
        if self.nbits == 8 {
            let byte = self.acc;
            proof {
                let pending1 = b1.skip(b1.len() - 8);
                lemma_bits_val_bound(pending1);
                assert(b1.len() >= 8);
                assert(b1.take(b1.len() - 8) =~= b0.take(b0.len() - n0));
                assert(pack_bytes(b1) == pack_bytes(b0.take(b0.len() - n0)) + seq![byte]);
                lemma_stuff_append(pack_bytes(b0.take(b0.len() - n0)), byte);
            }
            let ghost buf0 = self.buffer@;
            self.buffer.push(byte);
            if byte == 0xFF {
                self.buffer.push(0x00);
            }
            self.acc = 0;
            self.nbits = 0;
            proof {
                if byte == 0xFF {
                    assert(self.buffer@ =~= buf0 + seq![0xFFu8, 0x00u8]);
                } else {
                    assert(self.buffer@ =~= buf0 + seq![byte]);
                }
                assert(b1.take(b1.len() as int) =~= b1);
                assert(b1.skip(b1.len() as int) =~= Seq::<bool>::empty());
                assert(bits_val(Seq::<bool>::empty()) == 0);
            }
        } else {
            proof {
                assert(b1.take(b1.len() - (n0 + 1)) =~= b0.take(b0.len() - n0));
            }
        }
    }

    /// Append the `count` low-order bits of `value`, most-significant first.
    /// `count == 0` is a no-op.
    pub fn write_bits(&mut self, value: u16, count: u8)
        requires
            old(self).wf(),
            count <= 16,
        ensures
            final(self).wf(),
            final(self)@ == old(self)@ + val_bits(value as nat, count as nat),
    {
        let ghost orig = self.bits@;
        let ghost vb = val_bits(value as nat, count as nat);
        let mut i: u8 = 0;
        while i < count
            invariant
                self.wf(),
                count <= 16,
                i <= count,
                vb == val_bits(value as nat, count as nat),
                self@ == orig + vb.take(i as int),
            decreases count - i,
        {
            let sh = count - 1 - i;
            let p = pow2_u16(sh);
            let bit = (value / p) % 2 == 1;
            proof {
                assert(vb[i as int] == bit);
                assert(vb.take(i as int).push(vb[i as int]) =~= vb.take(i as int + 1));
            }
            self.push_bit(bit);
            i = i + 1;
        }
        proof {
            assert(vb.take(count as int) =~= vb);
        }
    }

    /// Left-align any pending bits in a final byte (zero padding on the
    /// right), emit it with the same stuffing rule, and hand back the buffer.
    pub fn finish(self) -> (r: Vec<u8>)
        requires
            self.wf(),
        ensures
            r@ == stuff(pack_bytes(padded(self@))),
            stuffed_ok(r@),
    {
        let mut w = self;
        let ghost orig = w@;
        if w.nbits > 0 {
            let pad: u8 = 8 - w.nbits;
            w.write_bits(0, pad);
            proof {
                lemma_val_bits_zero(pad as nat);
            }
        }
        proof {
            assert(w@ =~= padded(orig));
            assert(w@.take(w@.len() as int) =~= w@);
            lemma_stuff_ok(pack_bytes(w@));
        }
        w.buffer
    }
}

/// Writing a zero value appends only zero bits.
proof fn lemma_val_bits_zero(count: nat)
    ensures
        val_bits(0, count) == Seq::new(count, |i: int| false),
{
    assert forall|i: int| 0 <= i < count implies val_bits(0, count)[i] == false by {
        lemma_pow2_pos((count - 1 - i) as nat);
    }
    assert(val_bits(0, count) =~= Seq::new(count, |i: int| false));
}

/// Exact powers of two as `u16` values.
fn pow2_u16(e: u8) -> (r: u16)
    requires
        e <= 15,
    ensures
        r as nat == pow2(e as nat),
        r > 0,
{
    proof {
        lemma2_to64();
    }
    match e {
        0 => 1,
        1 => 2,
        2 => 4,
        3 => 8,
        4 => 16,
        5 => 32,
        6 => 64,
        7 => 128,
        8 => 256,
        9 => 512,
        10 => 1024,
        11 => 2048,
        12 => 4096,
        13 => 8192,
        14 => 16384,
        _ => 32768,
    }
}

} // verus!
