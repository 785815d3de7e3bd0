use c63_rust::c63::JPEGMarker;
use c63_rust::dsp::{sad_block_8x8, zigzag_scan, zigzag_unscan};
use c63_rust::quant::{
    block_at, coefficients_at, reconstruct_plane, residual_plane, store_block, store_coefficients,
};
use c63_rust::tables::{
    uv_quant_default_table, y_quant_default_table, zigzag_natural_index, zigzag_position_index,
};

fn pattern(len: usize, seed: u32) -> Vec<u8> {
    (0..len).map(|i| ((i as u32 * 37 + seed * 11) % 251) as u8).collect()
}

#[test]
fn sad_of_block_against_itself_is_zero() {
    let plane = pattern(32 * 16, 3);
    assert_eq!(sad_block_8x8(&plane, &plane, 32), 0);
    assert_eq!(sad_block_8x8(&plane[5..], &plane[5..], 32), 0);
}

#[test]
fn sad_counts_differences_without_wraparound() {
    let a = vec![0u8; 64];
    let b = vec![255u8; 64];
    assert_eq!(sad_block_8x8(&a, &b, 8), 16320);
    assert_eq!(sad_block_8x8(&b, &a, 8), 16320);
    let mut c = vec![10u8; 64];
    c[9] = 4;
    c[63] = 20;
    assert_eq!(sad_block_8x8(&c, &vec![10u8; 64], 8), 16);
}

#[test]
fn sad_uses_the_stride() {
    let mut a = vec![0u8; 16 * 8];
    let b = vec![0u8; 16 * 8];
    // Outside the 8x8 window: ignored.
    a[8] = 100;
    a[16 * 7 + 15] = 100;
    assert_eq!(sad_block_8x8(&a, &b, 16), 0);
    // Inside the window, on its last row.
    a[16 * 7 + 7] = 3;
    assert_eq!(sad_block_8x8(&a, &b, 16), 3);
}

#[test]
fn zigzag_tables_are_inverse() {
    for z in 0..64 {
        assert_eq!(zigzag_position_index(zigzag_natural_index(z)), z);
        assert_eq!(zigzag_natural_index(zigzag_position_index(z)), z);
    }
    assert_eq!(zigzag_natural_index(0), 0);
    assert_eq!(zigzag_natural_index(1), 1);
    assert_eq!(zigzag_natural_index(2), 8);
    assert_eq!(zigzag_natural_index(3), 16);
    assert_eq!(zigzag_natural_index(63), 63);
}

#[test]
fn zigzag_scan_round_trip() {
    let mut block = [0i16; 64];
    for (i, v) in block.iter_mut().enumerate() {
        *v = (i as i16) * 3 - 90;
    }
    let scanned = zigzag_scan(&block);
    assert_eq!(scanned[0], block[0]);
    assert_eq!(scanned[1], block[1]);
    assert_eq!(scanned[2], block[8]);
    assert_ne!(scanned, block);
    assert_eq!(zigzag_unscan(&scanned), block);
    assert_eq!(zigzag_scan(&zigzag_unscan(&block)), block);
}

#[test]
fn default_quant_tables() {
    let y = y_quant_default_table();
    let uv = uv_quant_default_table();
    assert_eq!(&y[..6], &[16, 11, 12, 14, 12, 10]);
    assert_eq!(y[63], 99);
    assert_eq!(&uv[..4], &[17, 18, 18, 24]);
    assert_eq!(uv[63], 99);
}

#[test]
fn residual_and_reconstruction() {
    let orig = vec![0u8, 255, 10, 200];
    let pred = vec![255u8, 0, 10, 100];
    let res = residual_plane(&orig, &pred);
    assert_eq!(res, vec![-255i16, 255, 0, 100]);
    assert_eq!(reconstruct_plane(&res, &pred), orig);
    let clamped = reconstruct_plane(&[-300i16, 300, 5, -5], &[10u8, 10, 10, 10]);
    assert_eq!(clamped, vec![0u8, 255, 15, 5]);
}

#[test]
fn block_at_reads_a_strided_window() {
    let plane: Vec<i16> = (0..16 * 16).map(|i| i as i16).collect();
    let b = block_at(&plane, 16, 16 * 8 + 8);
    assert_eq!(b[0], 136);
    assert_eq!(b[7], 143);
    assert_eq!(b[8], 152);
    assert_eq!(b[63], 255);
}

#[test]
fn marker_codes() {
    assert_eq!(JPEGMarker::DEF.code(), 0xFF);
    assert_eq!(JPEGMarker::SOI.code(), 0xD8);
    assert_eq!(JPEGMarker::DQT.code(), 0xDB);
    assert_eq!(JPEGMarker::SOF.code(), 0xC0);
    assert_eq!(JPEGMarker::DHT.code(), 0xC4);
    assert_eq!(JPEGMarker::SOS.code(), 0xDA);
    assert_eq!(JPEGMarker::EOI.code(), 0xD9);
}

#[test]
fn coefficient_blocks_are_stored_one_after_another() {
    // A 16x16 plane: block (8, 8) is the fourth, at offset 8 * 16 + 64 = 192.
    let mut coeffs = vec![-1i16; 256];
    let mut block = [0i16; 64];
    for (i, v) in block.iter_mut().enumerate() {
        *v = i as i16 + 100;
    }
    store_coefficients(&mut coeffs, 16, 8, 8, &block);
    assert_eq!(coeffs[191], -1);
    assert_eq!(coeffs[192], 100);
    assert_eq!(coeffs[255], 163);
    assert_eq!(coefficients_at(&coeffs, 16, 8, 8), block);
    assert_eq!(coefficients_at(&coeffs, 16, 8, 0), [-1i16; 64]);
}

#[test]
fn store_block_writes_a_strided_window() {
    let mut plane = vec![7i16; 16 * 16];
    let mut block = [0i16; 64];
    for (i, v) in block.iter_mut().enumerate() {
        *v = -(i as i16);
    }
    store_block(&mut plane, 16, 16 * 8 + 8, &block);
    for y in 0..16 {
        for x in 0..16 {
            let got = plane[y * 16 + x];
            if y >= 8 && x >= 8 {
                assert_eq!(got, -(((y - 8) * 8 + x - 8) as i16));
            } else {
                assert_eq!(got, 7);
            }
        }
    }
    assert_eq!(block_at(&plane, 16, 16 * 8 + 8), block);
}
