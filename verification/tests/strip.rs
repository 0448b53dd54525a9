use jpeg_strip::strip::StripError;
use jpeg_strip::strip::encode_strip_mcus;
use jpeg_strip::strip::num_mcu_columns;
use jpeg_strip::strip::pixel_offset;
use jpeg_strip::strip::validate_strip_inputs;

#[test]
fn valid_inputs_pass_validation() {
    assert_eq!(validate_strip_inputs(8 * 8 * 4, 8, 64, 64), Ok(()));
    assert_eq!(validate_strip_inputs(10 * 8 * 4, 10, 64, 64), Ok(()));
}

#[test]
fn wrong_table_length_is_invalid_table_size() {
    assert_eq!(validate_strip_inputs(8 * 8 * 4, 8, 63, 64), Err(StripError::InvalidTableSize));
    assert_eq!(validate_strip_inputs(8 * 8 * 4, 8, 64, 65), Err(StripError::InvalidTableSize));
    // Table checks come first, as in the strip entry's contract.
    assert_eq!(validate_strip_inputs(0, 8, 0, 0), Err(StripError::InvalidTableSize));
}

#[test]
fn wrong_buffer_length_is_size_mismatch() {
    assert_eq!(
        validate_strip_inputs(8 * 8 * 4 - 1, 8, 64, 64),
        Err(StripError::PixelBufferSizeMismatch)
    );
    assert_eq!(validate_strip_inputs(0, 1, 64, 64), Err(StripError::PixelBufferSizeMismatch));
}

#[test]
fn column_count_rounds_up() {
    assert_eq!(num_mcu_columns(1), 1);
    assert_eq!(num_mcu_columns(8), 1);
    assert_eq!(num_mcu_columns(9), 2);
    assert_eq!(num_mcu_columns(16), 2);
    assert_eq!(num_mcu_columns(17), 3);
}

#[test]
fn width_ten_has_two_columns_with_clamped_second() {
    // Width 10: macroblock columns start at 0 and 8; in the second one the
    // source columns 10..=15 clamp to column index 9.
    assert_eq!(num_mcu_columns(10), 2);
    assert_eq!(pixel_offset(10, 8, 0, 0), 4 * 8);
    assert_eq!(pixel_offset(10, 8, 0, 1), 4 * 9);
    for col in 2..8 {
        assert_eq!(pixel_offset(10, 8, 0, col), 4 * 9);
    }
    assert_eq!(pixel_offset(10, 8, 7, 7), 4 * (7 * 10 + 9));
}

#[test]
fn empty_strip_encodes_to_no_bytes() {
    assert_eq!(encode_strip_mcus(&Vec::new()), Vec::<u8>::new());
}

#[test]
fn dc_predictors_thread_across_macroblocks() {
    let mut y = [0i16; 64];
    y[0] = 5;
    let zero = [0i16; 64];
    // Two macroblocks with the same luma DC: the first codes delta 5, the
    // second delta 0.
    let mcus = vec![(y, zero, zero), (y, zero, zero)];
    let out = encode_strip_mcus(&mcus);
    // MCU 1: 100 101 1010 (Y: category 3, extra 101, EOB) + 00 00 + 00 00;
    // MCU 2: 00 1010 (Y: category 0, EOB) + 00 00 + 00 00.
    assert_eq!(out, vec![0x96, 0x80, 0x0A, 0x00]);
}

#[test]
fn strip_output_never_holds_a_bare_ff() {
    // Blocks whose placeholder symbols assemble several 0xFF bytes.
    let mut y = [0i16; 64];
    y[0] = 100;
    y[1] = 127;
    y[9] = -127;
    let mut c = [0i16; 64];
    c[0] = -100;
    c[63] = 3;
    let mcus = vec![(y, c, c), (c, y, y)];
    let out = encode_strip_mcus(&mcus);
    for (i, &b) in out.iter().enumerate() {
        if b == 0xFF {
            assert!(i + 1 < out.len());
            assert_eq!(out[i + 1], 0x00);
        }
    }
}

#[test]
fn offsets_are_row_major_rgba() {
    assert_eq!(pixel_offset(8, 0, 0, 0), 0);
    assert_eq!(pixel_offset(8, 0, 0, 3), 12);
    assert_eq!(pixel_offset(8, 0, 3, 5), 4 * (3 * 8 + 5));
    assert_eq!(pixel_offset(640, 632, 2, 7), 4 * (2 * 640 + 639));
}
