//! Fixed code tables of the entropy coder: the zig-zag scan order and the
//! four Huffman tables (DC/AC, luma/chroma).
//!
//! The AC tables hold an abbreviated symbol subset; a symbol outside it maps
//! to the fixed 16-bit all-ones placeholder, a documented reduced-mode
//! limitation of this encoder rather than an error.

use vstd::prelude::*;

verus! {

/// Zig-zag scan: maps a scan position (0..64) to the natural row-major index
/// of the coefficient transmitted at that position. Position 0 (DC) is a
/// fixed point.
pub open spec fn zz(i: int) -> int {
    if i == 0 { 0 }
    else if i == 1 { 1 }
    else if i == 2 { 8 }
    else if i == 3 { 16 }
    else if i == 4 { 9 }
    else if i == 5 { 2 }
    else if i == 6 { 3 }
    else if i == 7 { 10 }
    else if i == 8 { 17 }
    else if i == 9 { 24 }
    else if i == 10 { 32 }
    else if i == 11 { 25 }
    else if i == 12 { 18 }
    else if i == 13 { 11 }
    else if i == 14 { 4 }
    else if i == 15 { 5 }
    else if i == 16 { 12 }
    else if i == 17 { 19 }
    else if i == 18 { 26 }
    else if i == 19 { 33 }
    else if i == 20 { 40 }
    else if i == 21 { 48 }
    else if i == 22 { 41 }
    else if i == 23 { 34 }
    else if i == 24 { 27 }
    else if i == 25 { 20 }
    else if i == 26 { 13 }
    else if i == 27 { 6 }
    else if i == 28 { 7 }
    else if i == 29 { 14 }
    else if i == 30 { 21 }
    else if i == 31 { 28 }
    else if i == 32 { 35 }
    else if i == 33 { 42 }
    else if i == 34 { 49 }
    else if i == 35 { 56 }
    else if i == 36 { 57 }
    else if i == 37 { 50 }
    else if i == 38 { 43 }
    else if i == 39 { 36 }
    else if i == 40 { 29 }
    else if i == 41 { 22 }
    else if i == 42 { 15 }
    else if i == 43 { 23 }
    else if i == 44 { 30 }
    else if i == 45 { 37 }
    else if i == 46 { 44 }
    else if i == 47 { 51 }
    else if i == 48 { 58 }
    else if i == 49 { 59 }
    else if i == 50 { 52 }
    else if i == 51 { 45 }
    else if i == 52 { 38 }
    else if i == 53 { 31 }
    else if i == 54 { 39 }
    else if i == 55 { 46 }
    else if i == 56 { 53 }
    else if i == 57 { 60 }
    else if i == 58 { 61 }
    else if i == 59 { 54 }
    else if i == 60 { 47 }
    else if i == 61 { 55 }
    else if i == 62 { 62 }
    else { 63 }
}

pub fn zigzag_index(i: usize) -> (r: usize)
    requires i < 64,
    ensures r == zz(i as int), r < 64,
{
    match i {
        0 => 0,
        1 => 1,
        2 => 8,
        3 => 16,
        4 => 9,
        5 => 2,
        6 => 3,
        7 => 10,
        8 => 17,
        9 => 24,
        10 => 32,
        11 => 25,
        12 => 18,
        13 => 11,
        14 => 4,
        15 => 5,
        16 => 12,
        17 => 19,
        18 => 26,
        19 => 33,
        20 => 40,
        21 => 48,
        22 => 41,
        23 => 34,
        24 => 27,
        25 => 20,
        26 => 13,
        27 => 6,
        28 => 7,
        29 => 14,
        30 => 21,
        31 => 28,
        32 => 35,
        33 => 42,
        34 => 49,
        35 => 56,
        36 => 57,
        37 => 50,
        38 => 43,
        39 => 36,
        40 => 29,
        41 => 22,
        42 => 15,
        43 => 23,
        44 => 30,
        45 => 37,
        46 => 44,
        47 => 51,
        48 => 58,
        49 => 59,
        50 => 52,
        51 => 45,
        52 => 38,
        53 => 31,
        54 => 39,
        55 => 46,
        56 => 53,
        57 => 60,
        58 => 61,
        59 => 54,
        60 => 47,
        61 => 55,
        62 => 62,
        _ => 63,
    }
}

/// Inverse of the zig-zag scan: the scan position at which the
/// coefficient with natural index `k` is transmitted.
pub open spec fn zz_inv(k: int) -> int {
    if k == 0 { 0 }
    else if k == 1 { 1 }
    else if k == 2 { 5 }
    else if k == 3 { 6 }
    else if k == 4 { 14 }
    else if k == 5 { 15 }
    else if k == 6 { 27 }
    else if k == 7 { 28 }
    else if k == 8 { 2 }
    else if k == 9 { 4 }
    else if k == 10 { 7 }
    else if k == 11 { 13 }
    else if k == 12 { 16 }
    else if k == 13 { 26 }
    else if k == 14 { 29 }
    else if k == 15 { 42 }
    else if k == 16 { 3 }
    else if k == 17 { 8 }
    else if k == 18 { 12 }
    else if k == 19 { 17 }
    else if k == 20 { 25 }
    else if k == 21 { 30 }
    else if k == 22 { 41 }
    else if k == 23 { 43 }
    else if k == 24 { 9 }
    else if k == 25 { 11 }
    else if k == 26 { 18 }
    else if k == 27 { 24 }
    else if k == 28 { 31 }
    else if k == 29 { 40 }
    else if k == 30 { 44 }
    else if k == 31 { 53 }
    else if k == 32 { 10 }
    else if k == 33 { 19 }
    else if k == 34 { 23 }
    else if k == 35 { 32 }
    else if k == 36 { 39 }
    else if k == 37 { 45 }
    else if k == 38 { 52 }
    else if k == 39 { 54 }
    else if k == 40 { 20 }
    else if k == 41 { 22 }
    else if k == 42 { 33 }
    else if k == 43 { 38 }
    else if k == 44 { 46 }
    else if k == 45 { 51 }
    else if k == 46 { 55 }
    else if k == 47 { 60 }
    else if k == 48 { 21 }
    else if k == 49 { 34 }
    else if k == 50 { 37 }
    else if k == 51 { 47 }
    else if k == 52 { 50 }
    else if k == 53 { 56 }
    else if k == 54 { 59 }
    else if k == 55 { 61 }
    else if k == 56 { 35 }
    else if k == 57 { 36 }
    else if k == 58 { 48 }
    else if k == 59 { 49 }
    else if k == 60 { 57 }
    else if k == 61 { 58 }
    else if k == 62 { 62 }
    else { 63 }
}

/// The zig-zag scan order is a bijective permutation of the 64 coefficient
/// positions, with the DC position 0 as a fixed point: `zz_inv` inverts it,
/// so no two scan positions transmit the same coefficient.
pub proof fn lemma_zigzag_permutation()
    ensures
        zz(0) == 0,
        forall|i: int| 0 <= i < 64 ==> 0 <= #[trigger] zz(i) < 64,
        forall|i: int| 0 <= i < 64 ==> zz_inv(#[trigger] zz(i)) == i,
        forall|i: int, j: int|
            0 <= i < 64 && 0 <= j < 64 && #[trigger] zz(i) == #[trigger] zz(j) ==> i == j,
{
    assert forall|i: int| 0 <= i < 64 implies 0 <= #[trigger] zz(i) < 64 && zz_inv(zz(i)) == i by {
    }
    assert forall|i: int, j: int|
        0 <= i < 64 && 0 <= j < 64 && #[trigger] zz(i) == #[trigger] zz(j) implies i == j by {
        assert(zz_inv(zz(i)) == i);
        assert(zz_inv(zz(j)) == j);
    }
}

/// DC Huffman table: (code value, code length) for a size category 0..=11.
/// Outside that range the result is unused.
pub open spec fn dc_code(is_luma: bool, cat: nat) -> (u16, u8) {
    if is_luma {
        if cat == 0 { (0x00, 2) }
        else if cat == 1 { (0x02, 3) }
        else if cat == 2 { (0x03, 3) }
        else if cat == 3 { (0x04, 3) }
        else if cat == 4 { (0x05, 3) }
        else if cat == 5 { (0x06, 3) }
        else if cat == 6 { (0x0E, 4) }
        else if cat == 7 { (0x1E, 5) }
        else if cat == 8 { (0x3E, 6) }
        else if cat == 9 { (0x7E, 7) }
        else if cat == 10 { (0xFE, 8) }
        else if cat == 11 { (0x1FE, 9) }
        else { (0, 0) }
    } else {
        if cat == 0 { (0x00, 2) }
        else if cat == 1 { (0x01, 2) }
        else if cat == 2 { (0x02, 2) }
        else if cat == 3 { (0x06, 3) }
        else if cat == 4 { (0x0E, 4) }
        else if cat == 5 { (0x1E, 5) }
        else if cat == 6 { (0x3E, 6) }
        else if cat == 7 { (0x7E, 7) }
        else if cat == 8 { (0xFE, 8) }
        else if cat == 9 { (0x1FE, 9) }
        else if cat == 10 { (0x3FE, 10) }
        else if cat == 11 { (0x7FE, 11) }
        else { (0, 0) }
    }
}

/// Executable DC table lookup.
pub fn dc_code_for(is_luma: bool, cat: u8) -> (r: (u16, u8))
    requires
        cat <= 11,
    ensures
        r == dc_code(is_luma, cat as nat),
        r.1 <= 16,
{
    if is_luma {
        match cat {
            0 => (0x00, 2),
            1 => (0x02, 3),
            2 => (0x03, 3),
            3 => (0x04, 3),
            4 => (0x05, 3),
            5 => (0x06, 3),
            6 => (0x0E, 4),
            7 => (0x1E, 5),
            8 => (0x3E, 6),
            9 => (0x7E, 7),
            10 => (0xFE, 8),
            _ => (0x1FE, 9),
        }
    } else {
        match cat {
            0 => (0x00, 2),
            1 => (0x01, 2),
            2 => (0x02, 2),
            3 => (0x06, 3),
            4 => (0x0E, 4),
            5 => (0x1E, 5),
            6 => (0x3E, 6),
            7 => (0x7E, 7),
            8 => (0xFE, 8),
            9 => (0x1FE, 9),
            10 => (0x3FE, 10),
            _ => (0x7FE, 11),
        }
    }
}

/// AC Huffman table over packed run/size symbols, abbreviated: a symbol the
/// table lacks yields the 16-bit all-ones placeholder code.
pub open spec fn ac_code(is_luma: bool, sym: u8) -> (u16, u8) {
    if is_luma {
        match sym {
            0x00 => (0x000A, 4),
            0x01 => (0x0000, 2),
            0x02 => (0x0001, 2),
            0x03 => (0x0004, 3),
            0x04 => (0x000B, 4),
            0x05 => (0x001A, 5),
            0x06 => (0x0078, 7),
            0x07 => (0x00F8, 8),
            0x08 => (0x03F6, 10),
            0x09 => (0xFF82, 16),
            0x0A => (0xFF83, 16),
            0x11 => (0x000C, 4),
            0x12 => (0x001B, 5),
            0x13 => (0x0079, 7),
            0x14 => (0x01F6, 9),
            0x15 => (0x07F6, 11),
            0x16 => (0xFF84, 16),
            0xF0 => (0xFF00, 16),
            _ => (0xFFFF, 16),
        }
    } else {
        match sym {
            0x00 => (0x0000, 2),
            0x01 => (0x0001, 2),
            0x02 => (0x0004, 3),
            0x03 => (0x000A, 4),
            0x04 => (0x0018, 5),
            0x05 => (0x0019, 5),
            0x06 => (0x0038, 6),
            0x07 => (0x0078, 7),
            0x08 => (0x01F4, 9),
            0x09 => (0x03F6, 10),
            0x0A => (0x0FF4, 12),
            0xF0 => (0xFF00, 16),
            _ => (0xFFFF, 16),
        }
    }
}

/// Executable AC table lookup.
pub fn ac_code_for(is_luma: bool, sym: u8) -> (r: (u16, u8))
    ensures
        r == ac_code(is_luma, sym),
        r.1 <= 16,
{
    if is_luma {
        match sym {
            0x00 => (0x000A, 4),
            0x01 => (0x0000, 2),
            0x02 => (0x0001, 2),
            0x03 => (0x0004, 3),
            0x04 => (0x000B, 4),
            0x05 => (0x001A, 5),
            0x06 => (0x0078, 7),
            0x07 => (0x00F8, 8),
            0x08 => (0x03F6, 10),
            0x09 => (0xFF82, 16),
            0x0A => (0xFF83, 16),
            0x11 => (0x000C, 4),
            0x12 => (0x001B, 5),
            0x13 => (0x0079, 7),
            0x14 => (0x01F6, 9),
            0x15 => (0x07F6, 11),
            0x16 => (0xFF84, 16),
            0xF0 => (0xFF00, 16),
            _ => (0xFFFF, 16),
        }
    } else {
        match sym {
            0x00 => (0x0000, 2),
            0x01 => (0x0001, 2),
            0x02 => (0x0004, 3),
            0x03 => (0x000A, 4),
            0x04 => (0x0018, 5),
            0x05 => (0x0019, 5),
            0x06 => (0x0038, 6),
            0x07 => (0x0078, 7),
            0x08 => (0x01F4, 9),
            0x09 => (0x03F6, 10),
            0x0A => (0x0FF4, 12),
            0xF0 => (0xFF00, 16),
            _ => (0xFFFF, 16),
        }
    }
}

} // verus!
