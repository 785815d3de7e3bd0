use c63_rust::c63::{Frame, MacroBlock, DCT, YUV};
use c63_rust::encode_context::{encode_image, EncodeContext};
use c63_rust::me::{c63_motion_compensate, c63_motion_estimate};

fn pattern(len: usize, seed: u32) -> Vec<u8> {
    (0..len).map(|i| ((i as u32 * 37 + seed * 11) % 251) as u8).collect()
}

fn picture(ctx: &EncodeContext, seed: u32) -> YUV {
    YUV {
        y: pattern((ctx.padw[0] * ctx.padh[0]) as usize, seed),
        u: pattern((ctx.padw[1] * ctx.padh[1]) as usize, seed + 1),
        v: pattern((ctx.padw[2] * ctx.padh[2]) as usize, seed + 2),
    }
}

fn unused() -> MacroBlock {
    MacroBlock { use_mv: false, mv_x: 0, mv_y: 0 }
}

#[test]
fn yuv_and_dct_new_are_zeroed() {
    let p = YUV::new(6, 2, 3);
    assert_eq!(p.y, vec![0u8; 6]);
    assert_eq!(p.u, vec![0u8; 2]);
    assert_eq!(p.v, vec![0u8; 3]);
    let d = DCT::new(4, 1, 0);
    assert_eq!(d.y_dct, vec![0i16; 4]);
    assert_eq!(d.u_dct, vec![0i16; 1]);
    assert!(d.v_dct.is_empty());
}

#[test]
fn frame_new_sizes() {
    let orig = YUV::new(32 * 16, 16 * 8, 16 * 8);
    let f = Frame::new(orig, &[32, 16, 16], &[16, 8, 8], 4, 2, true);
    assert_eq!(f.orig.y.len(), 512);
    assert_eq!(f.recons.y.len(), 512);
    assert_eq!(f.predicted.u.len(), 128);
    assert_eq!(f.residuals.v_dct.len(), 128);
    assert_eq!(f.mbs[0].len(), 8);
    assert_eq!(f.mbs[1].len(), 2);
    assert_eq!(f.mbs[2].len(), 2);
    assert!(f.mbs[0].iter().all(|m| *m == unused()));
    assert!(f.keyframe);
}

#[test]
fn context_rejects_non_positive_dimensions() {
    assert_eq!(
        EncodeContext::new(0, 10).err(),
        Some("Invalid width, width must be positive nonzero integer")
    );
    assert_eq!(
        EncodeContext::new(-3, -3).err(),
        Some("Invalid width, width must be positive nonzero integer")
    );
    assert_eq!(
        EncodeContext::new(10, 0).err(),
        Some("Invalid height, height must be positive nonzero integer")
    );
}

#[test]
fn context_geometry() {
    let ctx = EncodeContext::new(352, 288).unwrap();
    assert_eq!((ctx.ypw, ctx.yph, ctx.upw, ctx.uph, ctx.vpw, ctx.vph), (352, 288, 176, 144, 176, 144));
    assert_eq!((ctx.mb_cols, ctx.mb_rows), (44, 36));
    let ctx = EncodeContext::new(100, 50).unwrap();
    assert_eq!((ctx.ypw, ctx.yph, ctx.upw, ctx.uph), (112, 64, 56, 32));
    assert_eq!(ctx.padw, [112, 56, 56]);
    assert_eq!(ctx.padh, [64, 32, 32]);
    assert_eq!((ctx.mb_cols, ctx.mb_rows), (14, 8));
    let ctx = EncodeContext::new(1, 1).unwrap();
    assert_eq!(ctx.padw, [16, 8, 8]);
    assert_eq!(ctx.padh, [16, 8, 8]);
}

#[test]
fn context_settings_and_quant_tables() {
    let ctx = EncodeContext::new(64, 48).unwrap();
    assert_eq!(ctx.qp, 25);
    assert_eq!(ctx.me_search_range, 16);
    assert_eq!(ctx.keyframe_interval, 100);
    assert_eq!(ctx.framenum, 0);
    assert_eq!(ctx.frames_since_keyframe, 0);
    assert!(ctx.current_frame.is_none());
    assert!(ctx.reference_frame.is_none());
    // Default entries 16, 11, 12 and 99 divided by 2.5, truncated.
    assert_eq!(&ctx.quanttbl[0][..3], &[6, 4, 4]);
    assert_eq!(ctx.quanttbl[0][63], 39);
    assert_eq!(&ctx.quanttbl[1][..3], &[6, 7, 7]);
    assert_eq!(ctx.quanttbl[2], ctx.quanttbl[1]);
}

#[test]
fn first_picture_is_a_keyframe_without_motion_vectors() {
    let mut ctx = EncodeContext::new(32, 32).unwrap();
    let image = picture(&ctx, 1);
    encode_image(&mut ctx, image);
    let f = ctx.current_frame.as_ref().unwrap();
    assert!(f.keyframe);
    for c in 0..3 {
        assert!(f.mbs[c].iter().all(|m| !m.use_mv));
    }
    assert_eq!(f.mbs[0].len(), 16);
    assert_eq!(f.mbs[1].len(), 4);
    assert!(ctx.reference_frame.is_none());
    assert_eq!(ctx.framenum, 1);
    assert_eq!(ctx.frames_since_keyframe, 1);
}

#[test]
fn second_picture_is_predicted() {
    let mut ctx = EncodeContext::new(32, 32).unwrap();
    let first = picture(&ctx, 1);
    let first_y = first.y.clone();
    encode_image(&mut ctx, first);
    let second = picture(&ctx, 2);
    encode_image(&mut ctx, second);
    let f = ctx.current_frame.as_ref().unwrap();
    assert!(!f.keyframe);
    for c in 0..3 {
        assert!(f.mbs[c].iter().all(|m| m.use_mv));
    }
    let r = ctx.reference_frame.as_ref().unwrap();
    assert_eq!(r.orig.y, first_y);
    assert!(r.keyframe);
    assert_eq!(ctx.framenum, 2);
    assert_eq!(ctx.frames_since_keyframe, 2);
}

#[test]
fn keyframe_interval_restarts() {
    let mut ctx = EncodeContext::new(16, 16).unwrap();
    let mut keyframes = Vec::new();
    for n in 0..202u32 {
        let image = picture(&ctx, n);
        encode_image(&mut ctx, image);
        if ctx.current_frame.as_ref().unwrap().keyframe {
            keyframes.push(ctx.framenum - 1);
        }
    }
    assert_eq!(keyframes, vec![0, 100, 200]);
    assert_eq!(ctx.frames_since_keyframe, 2);
}

fn frame_16x16(orig_y: Vec<u8>, recons_y: Vec<u8>) -> (Frame, Frame) {
    let mut cur = Frame::new(YUV::new(256, 64, 64), &[16, 8, 8], &[16, 8, 8], 2, 2, false);
    cur.orig.y = orig_y;
    let mut reference = Frame::new(YUV::new(256, 64, 64), &[16, 8, 8], &[16, 8, 8], 2, 2, true);
    reference.recons.y = recons_y;
    (cur, reference)
}

#[test]
fn motion_search_on_identical_planes() {
    let plane = pattern(256, 5);
    let (mut cur, reference) = frame_16x16(plane.clone(), plane);
    c63_motion_estimate(&mut cur, &reference, 2, 2, &[16, 8, 8], &[16, 8, 8], 16);
    // Block (0, 0): anchor (0, 0); the window [0 - 16, 0 + 16) is clipped to [0, 8) on
    // both axes, so the scan starts at (0, 0), whose SAD is 0.
    let (anchor_x, anchor_y) = (0i32, 0i32);
    let clipped_left = std::cmp::max(anchor_x - 16, 0);
    let clipped_top = std::cmp::max(anchor_y - 16, 0);
    assert_eq!(
        cur.mbs[0][0],
        MacroBlock {
            use_mv: true,
            mv_x: (clipped_left - anchor_x) as i8,
            mv_y: (clipped_top - anchor_y) as i8
        }
    );
    assert_eq!(cur.mbs[0][0], MacroBlock { use_mv: true, mv_x: 0, mv_y: 0 });
    // Chroma planes of 8x8: the clipped window [0, 0) is empty, the vector stays.
    assert_eq!(cur.mbs[1][0], MacroBlock { use_mv: true, mv_x: 0, mv_y: 0 });
    assert_eq!(cur.mbs[2][0], MacroBlock { use_mv: true, mv_x: 0, mv_y: 0 });
}

#[test]
fn motion_search_finds_a_shifted_block() {
    // The reference holds a distinct block at (3, 2); the original holds it at (8, 8).
    let mut refp = vec![0u8; 256];
    let mut orig = vec![0u8; 256];
    for v in 0..8 {
        for u in 0..8 {
            let s = (1 + v * 8 + u) as u8 * 3;
            refp[(2 + v) * 16 + 3 + u] = s;
            orig[(8 + v) * 16 + 8 + u] = s;
        }
    }
    let (mut cur, reference) = frame_16x16(orig, refp);
    c63_motion_estimate(&mut cur, &reference, 2, 2, &[16, 8, 8], &[16, 8, 8], 16);
    assert_eq!(cur.mbs[0][3], MacroBlock { use_mv: true, mv_x: -5, mv_y: -6 });
}

#[test]
fn motion_search_keeps_the_first_of_equal_matches() {
    // All-zero planes: every candidate has SAD 0, the first in raster order wins.
    let (mut cur, reference) = frame_16x16(vec![0u8; 256], vec![0u8; 256]);
    c63_motion_estimate(&mut cur, &reference, 2, 2, &[16, 8, 8], &[16, 8, 8], 16);
    // Block (1, 1), anchor (8, 8): window starts at (0, 0).
    assert_eq!(cur.mbs[0][3], MacroBlock { use_mv: true, mv_x: -8, mv_y: -8 });
    assert_eq!(cur.mbs[0][1], MacroBlock { use_mv: true, mv_x: -8, mv_y: 0 });
}

#[test]
fn compensation_copies_only_predicted_blocks() {
    let refp = pattern(256, 9);
    let (mut cur, reference) = frame_16x16(vec![0u8; 256], refp.clone());
    cur.predicted.y = vec![7u8; 256];
    cur.mbs[0][1] = MacroBlock { use_mv: true, mv_x: -8, mv_y: 4 };
    c63_motion_compensate(&mut cur, &reference, 2, 2, &[16, 8, 8], &[16, 8, 8]);
    for y in 0..16 {
        for x in 0..16 {
            let got = cur.predicted.y[y * 16 + x];
            if y < 8 && x >= 8 {
                assert_eq!(got, refp[(y + 4) * 16 + x - 8]);
            } else {
                assert_eq!(got, 7);
            }
        }
    }
    assert_eq!(cur.predicted.u, vec![0u8; 64]);
}

#[test]
fn encoded_vectors_stay_in_plane_and_range() {
    let mut ctx = EncodeContext::new(40, 24).unwrap();
    let first = picture(&ctx, 4);
    encode_image(&mut ctx, first);
    let second = picture(&ctx, 8);
    encode_image(&mut ctx, second);
    let mut cur = *ctx.current_frame.take().unwrap();
    for c in 0..3 {
        let (w, h) = (ctx.padw[c], ctx.padh[c]);
        let range = if c == 0 { 16 } else { 8 };
        let cols = w / 8;
        for (k, mb) in cur.mbs[c].iter().enumerate() {
            let (bx, by) = ((k as i32 % cols) * 8, (k as i32 / cols) * 8);
            let (x, y) = (bx + mb.mv_x as i32, by + mb.mv_y as i32);
            assert!(mb.use_mv);
            assert!(0 <= x && x <= w - 8 && 0 <= y && y <= h - 8);
            assert!((mb.mv_x as i32).abs() <= range && (mb.mv_y as i32).abs() <= range);
        }
    }
    let reference = ctx.reference_frame.as_ref().unwrap();
    c63_motion_compensate(&mut cur, reference, ctx.mb_rows, ctx.mb_cols, &ctx.padw, &ctx.padh);
    // The reference was a keyframe with a zero reconstruction.
    assert!(cur.predicted.y.iter().all(|s| *s == 0));
    assert_eq!(cur.predicted.y.len(), 48 * 32);
}
