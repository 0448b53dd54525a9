use jpeg_strip::BitstreamWriter;
use jpeg_strip::entropy::DcPredictors;
use jpeg_strip::entropy::categorize;
use jpeg_strip::entropy::encode_ac_symbol;
use jpeg_strip::entropy::encode_block;
use jpeg_strip::entropy::huffman_encode_mcu;
use jpeg_strip::tables::ac_code_for;
use jpeg_strip::tables::dc_code_for;
use jpeg_strip::tables::zigzag_index;

#[test]
fn categorize_exact_values() {
    assert_eq!(categorize(0), (0, 0));
    assert_eq!(categorize(1), (1, 1));
    assert_eq!(categorize(-1), (1, 0));
    assert_eq!(categorize(2), (2, 2));
    assert_eq!(categorize(3), (2, 3));
    assert_eq!(categorize(-2), (2, 1));
    assert_eq!(categorize(-3), (2, 2));
    assert_eq!(categorize(414), (9, 414));
    assert_eq!(categorize(-414), (9, 413));
    assert_eq!(categorize(1023), (10, 1023));
    assert_eq!(categorize(-1024), (11, 1023));
    assert_eq!(categorize(2047), (11, 2047));
    assert_eq!(categorize(-2047), (11, 2046));
    assert_eq!(categorize(32767), (15, 32767));
    assert_eq!(categorize(-32767), (15, 32766));
}

#[test]
fn categorize_round_trip_where_unambiguous() {
    // Standard JPEG decoding recovers the value for every nonnegative value
    // and every negative value of power-of-two magnitude.
    let mut checked = 0u32;
    for v in -2047i16..=2047 {
        let m = -(v as i32);
        let unambiguous = v >= 0 || (m & (m - 1)) == 0;
        if !unambiguous {
            continue;
        }
        let (cat, extra) = categorize(v);
        let decoded: i32 = if cat == 0 {
            0
        } else if (extra as i32) >= (1i32 << (cat - 1)) {
            extra as i32
        } else {
            extra as i32 + 1 - (1i32 << cat)
        };
        assert_eq!(decoded, v as i32, "round trip failed for {}", v);
        checked += 1;
    }
    assert_eq!(checked, 2048 + 11);
}

#[test]
fn table_lookups_give_the_standard_codes() {
    assert_eq!(dc_code_for(true, 0), (0x00, 2));
    assert_eq!(dc_code_for(true, 9), (0x7E, 7));
    assert_eq!(dc_code_for(true, 11), (0x1FE, 9));
    assert_eq!(dc_code_for(false, 0), (0x00, 2));
    assert_eq!(dc_code_for(false, 10), (0x3FE, 10));
    assert_eq!(ac_code_for(true, 0x00), (0x000A, 4));
    assert_eq!(ac_code_for(true, 0x01), (0x0000, 2));
    assert_eq!(ac_code_for(true, 0xF0), (0xFF00, 16));
    assert_eq!(ac_code_for(false, 0x00), (0x0000, 2));
    assert_eq!(ac_code_for(false, 0xF0), (0xFF00, 16));
}

#[test]
fn missing_ac_symbol_falls_back_to_placeholder() {
    assert_eq!(ac_code_for(true, 0x77), (0xFFFF, 16));
    assert_eq!(ac_code_for(false, 0x11), (0xFFFF, 16));
}

#[test]
fn zigzag_is_a_permutation_fixing_zero() {
    let mut seen: Vec<usize> = (0..64).map(zigzag_index).collect();
    assert_eq!(seen[0], 0);
    assert_eq!(seen[1], 1);
    assert_eq!(seen[2], 8);
    assert_eq!(seen[63], 63);
    seen.sort();
    assert_eq!(seen, (0..64).collect::<Vec<usize>>());
}

#[test]
fn all_zero_block_codes_dc_category_zero_and_eob() {
    let block = [0i16; 64];
    let mut pred = 0i16;
    let mut bw = BitstreamWriter::new();
    encode_block(&block, true, &mut pred, &mut bw);
    let out = bw.finish();
    // 00 (DC luma category 0) + 1010 (luma EOB), zero-padded.
    assert_eq!(out, vec![0b0010_1000]);
    assert_eq!(pred, 0);
}

#[test]
fn dc_delta_is_coded_against_the_predictor() {
    let mut block = [0i16; 64];
    block[0] = 5;
    let mut pred = 2i16;
    let mut bw = BitstreamWriter::new();
    encode_block(&block, true, &mut pred, &mut bw);
    let out = bw.finish();
    // diff = 3: category 2 (code 011), extra bits 11, then EOB 1010.
    assert_eq!(out, vec![0b0111_1101, 0b0000_0000]);
    assert_eq!(pred, 5);
}

#[test]
fn sixteen_zero_run_is_escaped_with_zrl() {
    let mut block = [0i16; 64];
    // Zig-zag position 17 holds the only nonzero AC coefficient, so the 16
    // zeros before it take one ZRL escape.
    block[zigzag_index(17)] = 1;
    let mut pred = 0i16;
    let mut bw = BitstreamWriter::new();
    encode_block(&block, true, &mut pred, &mut bw);
    let out = bw.finish();
    // 00 (DC) + 1111111100000000 (ZRL) + 00 (0/1) + 1 (extra) + 1010 (EOB).
    assert_eq!(out, vec![0b0011_1111, 0b1100_0000, 0b0000_1101, 0b0000_0000]);
}

#[test]
fn missing_symbol_emits_placeholder_and_is_stuffed() {
    let mut block = [0i16; 64];
    // One zero, then magnitude 127: symbol run 1 / size 7 is outside the
    // abbreviated luma table, so the 16-bit placeholder is emitted.
    block[zigzag_index(2)] = 127;
    let mut pred = 0i16;
    let mut bw = BitstreamWriter::new();
    encode_block(&block, true, &mut pred, &mut bw);
    let out = bw.finish();
    // 00 + 1111111111111111 + 1111111 + 1010, padded; both 0xFF bytes of the
    // assembled stream are stuffed.
    assert_eq!(out, vec![0x3F, 0xFF, 0x00, 0xFF, 0x00, 0xD0]);
}

#[test]
fn fully_packed_block_has_no_eob() {
    let mut block = [1i16; 64];
    block[0] = 0;
    let mut pred = 0i16;
    let mut bw = BitstreamWriter::new();
    encode_block(&block, true, &mut pred, &mut bw);
    let out = bw.finish();
    // 63 AC coefficients of 1: each is 00 (symbol 0/1) + 1 (extra bit), plus
    // the 2-bit DC category 0 and no EOB: 2 + 63*3 = 191 bits -> 24 bytes.
    assert_eq!(out.len(), 24);
    // DC 00, then 001 repeated: first byte 00 001 001 = 0b0000_1001.
    assert_eq!(out[0], 0b0000_1001);
    // Last byte: bit 190 is the final extra bit, then one padding zero.
    assert_eq!(out[23] & 0b11, 0b10);
}

#[test]
fn encode_ac_symbol_emits_the_table_code() {
    let mut bw = BitstreamWriter::new();
    encode_ac_symbol(0x00, true, &mut bw);
    encode_ac_symbol(0x01, false, &mut bw);
    let out = bw.finish();
    // 1010 (luma EOB) + 01 (chroma 0/1), padded.
    assert_eq!(out, vec![0b1010_0100]);
}

#[test]
fn mcu_codes_luma_then_cb_then_cr() {
    let y = [0i16; 64];
    let mut cb = [0i16; 64];
    cb[0] = -1;
    let cr = [0i16; 64];
    let mut preds = DcPredictors::new();
    let mut bw = BitstreamWriter::new();
    huffman_encode_mcu(&y, &cb, &cr, &mut preds, &mut bw);
    let out = bw.finish();
    // Y: 00 + 1010; Cb: diff -1 -> chroma category 1 (01) + extra 0, EOB 00;
    // Cr: diff 0 -> 00 + EOB 00.
    assert_eq!(out, vec![0b0010_1001, 0b0000_0000]);
    assert_eq!((preds.y, preds.cb, preds.cr), (0, -1, 0));
}

#[test]
fn mid_gray_strip_blocks_code_as_all_zero() {
    // An all-128 RGBA strip converts to luma 128 - 128 = 0 and centered
    // chroma 0, so every quantized block is all zero whatever the (positive)
    // quantization steps; its coding is DC category 0 plus EOB per component.
    let y = 0.299f32 * 128.0 + 0.587f32 * 128.0 + 0.114f32 * 128.0 - 128.0;
    let cb = -0.168736f32 * 128.0 - 0.331264f32 * 128.0 + 0.5f32 * 128.0;
    let cr = 0.5f32 * 128.0 - 0.418688f32 * 128.0 - 0.081312f32 * 128.0;
    let dc_of = |s: f32| -> i16 {
        let row = (8.0f32 * s) * 0.353553391;
        let dc = (8.0f32 * row) * 0.353553391;
        (dc / 16.0).round() as i16
    };
    let (ydc, cbdc, crdc) = (dc_of(y), dc_of(cb), dc_of(cr));
    assert_eq!((ydc, cbdc, crdc), (0, 0, 0));
    let mut yb = [0i16; 64];
    let mut cbb = [0i16; 64];
    let mut crb = [0i16; 64];
    yb[0] = ydc;
    cbb[0] = cbdc;
    crb[0] = crdc;
    let mut preds = DcPredictors::new();
    let mut bw = BitstreamWriter::new();
    huffman_encode_mcu(&yb, &cbb, &crb, &mut preds, &mut bw);
    let out = bw.finish();
    // 00 1010 (Y) + 00 00 (Cb) + 00 00 (Cr), padded.
    assert_eq!(out, vec![0b0010_1000, 0b0000_0000]);
}

#[test]
fn red_strip_first_codes_match_the_luma_dc_category() {
    // Pure red (255, 0, 0, 255), quantization steps all 1: replicate the
    // real-valued pipeline for a constant block, whose transform is zero
    // everywhere but the DC term.
    let y = 0.299f32 * 255.0 + 0.587f32 * 0.0 + 0.114f32 * 0.0 - 128.0;
    let cb = -0.168736f32 * 255.0 - 0.331264f32 * 0.0 + 0.5f32 * 0.0;
    let cr = 0.5f32 * 255.0 - 0.418688f32 * 0.0 - 0.081312f32 * 0.0;
    let dc_of = |s: f32| -> i16 {
        let row = (8.0f32 * s) * 0.353553391;
        let dc = (8.0f32 * row) * 0.353553391;
        (dc / 1.0).round() as i16
    };
    let ydc = dc_of(y);
    // The expected transform DC term is 8 * (0.299*255 - 128) = -414.04.
    assert_eq!(ydc, -414);
    let mut yb = [0i16; 64];
    let mut cbb = [0i16; 64];
    let mut crb = [0i16; 64];
    yb[0] = ydc;
    cbb[0] = dc_of(cb);
    crb[0] = dc_of(cr);
    let mut preds = DcPredictors::new();
    let mut bw = BitstreamWriter::new();
    huffman_encode_mcu(&yb, &cbb, &crb, &mut preds, &mut bw);
    let out = bw.finish();
    assert!(!out.is_empty());
    // categorize(-414) = (9, 413); DC luma code for category 9 is 0x7E in 7
    // bits, so the stream starts 1111110 110011101 ...
    assert_eq!(out[0], 0b1111_1101);
    assert_eq!(out[1], 0b1001_1101);
    assert_eq!(preds.y, -414);
}
