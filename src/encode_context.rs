use vstd::prelude::*;

use crate::c63::{
    geometry_ok, grid_len, plane_len, unused_grid, zero_coefficients, zero_plane, Frame, MacroBlock,
    YUV,
};
use crate::me::{
    c63_motion_estimate, component_range, estimated_grid, grid_vectors_ok,
    lemma_unused_grid_vectors_ok, lemma_vectors_ok_in_plane, plane_of, vectors_in_plane,
};
use crate::tables::{uv_quant_default, uv_quant_default_table, y_quant_default, y_quant_default_table};

verus! {

/// Quality parameter of every context.
pub const QP: u8 = 25;

/// Motion search range of every context, in luma samples.
pub const ME_SEARCH_RANGE: i32 = 16;

/// Number of pictures from one keyframe to the next.
pub const KEYFRAME_INTERVAL: i32 = 100;

/// Everything the encoder keeps from one picture to the next.
pub struct EncodeContext {
    pub width: i32,
    pub height: i32,
    pub ypw: i32,
    pub yph: i32,
    pub upw: i32,
    pub uph: i32,
    pub vpw: i32,
    pub vph: i32,
    /// Padded width of each plane.
    pub padw: [i32; 3],
    /// Padded height of each plane.
    pub padh: [i32; 3],
    /// Columns of the luma block grid.
    pub mb_cols: i32,
    /// Rows of the luma block grid.
    pub mb_rows: i32,
    /// Quality parameter.
    pub qp: u8,
    pub me_search_range: i32,
    /// One quantization table per colour component, in zig-zag order.
    pub quanttbl: [[u8; 64]; 3],
    pub reference_frame: Option<Box<Frame>>,
    pub current_frame: Option<Box<Frame>>,
    /// Number of pictures encoded so far.
    pub framenum: i32,
    pub keyframe_interval: i32,
    pub frames_since_keyframe: i32,
}

/// A dimension rounded up to the next multiple of 16: the padded luma extent.
pub open spec fn luma_padded(d: int) -> int {
    ((d + 15) / 16) * 16
}

/// The padded chroma extent for a luma dimension `d`: half of the padded luma extent,
/// which is the chroma extent `d / 2` rounded up to the next multiple of 8.
pub open spec fn chroma_padded(d: int) -> int {
    ((d + 15) / 16) * 8
}

/// The base table `base` scaled for quality parameter `qp`: each entry divided by
/// `qp / 10`, the quotient truncated to an integer.
pub open spec fn scaled_quant_table(base: Seq<u8>, qp: int) -> Seq<u8> {
    Seq::new(64, |i: int| ((base[i] as int * 10) / qp) as u8)
}

/// Both dimensions are positive and the padded luma plane's size fits in `i32`.
pub open spec fn dimensions_fit(width: int, height: int) -> bool {
    0 < width && 0 < height && luma_padded(width) * luma_padded(height) <= i32::MAX
}

impl EncodeContext {
    /// Geometry, settings and frame history agree with each other.
    pub open spec fn wf(&self) -> bool {
        &&& geometry_ok(self.padw, self.padh, self.mb_cols, self.mb_rows)
        &&& 0 <= self.me_search_range <= 128
        &&& 0 < self.keyframe_interval
        &&& 0 <= self.frames_since_keyframe <= self.keyframe_interval
        &&& 0 <= self.framenum
        &&& (0 < self.framenum ==> self.current_frame is Some)
        &&& (self.current_frame matches Some(f) ==> f.has_size(self.padw, self.padh))
        &&& (self.reference_frame matches Some(f) ==> f.has_size(self.padw, self.padh))
    }

    /// The next picture is encoded as a keyframe: it is the first one, or the interval
    /// since the last keyframe is over.
    pub open spec fn next_is_keyframe(&self) -> bool {
        self.framenum == 0 || self.frames_since_keyframe == self.keyframe_interval
    }

    /// Everything but the frame history and its counters is the same in both contexts.
    pub open spec fn same_settings(&self, other: &EncodeContext) -> bool {
        &&& self.width == other.width
        &&& self.height == other.height
        &&& self.ypw == other.ypw
        &&& self.yph == other.yph
        &&& self.upw == other.upw
        &&& self.uph == other.uph
        &&& self.vpw == other.vpw
        &&& self.vph == other.vph
        &&& self.padw == other.padw
        &&& self.padh == other.padh
        &&& self.mb_cols == other.mb_cols
        &&& self.mb_rows == other.mb_rows
        &&& self.qp == other.qp
        &&& self.me_search_range == other.me_search_range
        &&& self.quanttbl == other.quanttbl
        &&& self.keyframe_interval == other.keyframe_interval
    }
}

/// Grid `c` of the frame made for `image` by a context in state `ctx`: all blocks
/// without motion vectors for a keyframe, else estimated against the reconstruction of
/// the context's current frame.
pub open spec fn encoded_grid(ctx: EncodeContext, image: YUV, c: int) -> Seq<MacroBlock> {
    let fresh = unused_grid(grid_len(ctx.padw, ctx.padh, c));
    if ctx.next_is_keyframe() {
        fresh
    } else {
        estimated_grid(
            plane_of(image, c),
            plane_of(ctx.current_frame.unwrap().recons, c),
            ctx.padw[c] as int,
            ctx.padh[c] as int,
            component_range(ctx.me_search_range as int, c),
            fresh,
        )
    }
}

/// The frame that a context in state `ctx` makes for `image`.
pub open spec fn encoded_frame(f: Frame, ctx: EncodeContext, image: YUV) -> bool {
    &&& f.orig == image
    &&& f.keyframe == ctx.next_is_keyframe()
    &&& forall|c: int|
        0 <= c < 3 ==> #[trigger] plane_of(f.recons, c) == zero_plane(
            plane_len(ctx.padw, ctx.padh, c),
        ) && plane_of(f.predicted, c) == zero_plane(plane_len(ctx.padw, ctx.padh, c))
    &&& f.residuals.y_dct@ == zero_coefficients(plane_len(ctx.padw, ctx.padh, 0))
    &&& f.residuals.u_dct@ == zero_coefficients(plane_len(ctx.padw, ctx.padh, 1))
    &&& f.residuals.v_dct@ == zero_coefficients(plane_len(ctx.padw, ctx.padh, 2))
    &&& forall|c: int| 0 <= c < 3 ==> #[trigger] f.mbs[c]@ == encoded_grid(ctx, image, c)
    &&& forall|c: int|
        0 <= c < 3 ==> grid_vectors_ok(
            #[trigger] f.mbs[c]@,
            ctx.padw[c] as int,
            ctx.padh[c] as int,
            component_range(ctx.me_search_range as int, c),
        )
}

/// `new` is the state of a context in state `old` after it has encoded `image`.
pub open spec fn encoded(old: EncodeContext, new: EncodeContext, image: YUV) -> bool {
    &&& new.same_settings(&old)
    &&& new.reference_frame == old.current_frame
    &&& new.framenum == old.framenum + 1
    &&& new.frames_since_keyframe == if old.next_is_keyframe() {
        1
    } else {
        old.frames_since_keyframe + 1
    }
    &&& new.current_frame matches Some(f) && encoded_frame(*f, old, image)
}

/// `d / 16` rounded up, times `scale`.
fn padded(d: i32, scale: i32) -> (r: i32)
    requires
        0 < d,
        scale == 16 || scale == 8,
        luma_padded(d as int) <= i32::MAX,
    ensures
        r == ((d + 15) / 16) * scale,
{
    let blocks: i32 = if d % 16 != 0 {
        d / 16 + 1
    } else {
        d / 16
    };
    assert(blocks == (d + 15) / 16);
    blocks * scale
}

/// `base` scaled for quality parameter `qp`.
fn scale_quant_table(base: &[u8; 64], qp: u8) -> (r: [u8; 64])
    requires
        10 <= qp,
    ensures
        r@ == scaled_quant_table(base@, qp as int),
{
    let mut r: [u8; 64] = [0; 64];
    let mut i: usize = 0;
    while i < 64
        invariant
            i <= 64,
            10 <= qp,
            r@.len() == 64,
            forall|j: int| 0 <= j < i ==> r@[j] == ((base@[j] as int * 10) / (qp as int)) as u8,
        decreases 64 - i,
    {
        let scaled: u16 = base[i] as u16 * 10 / qp as u16;
        assert(scaled <= 255) by (nonlinear_arith)
            requires
                scaled == (base@[i as int] as int * 10) / (qp as int),
                base@[i as int] <= 255,
                10 <= qp,
        ;
        r.set(i, scaled as u8);
        i = i + 1;
    }
    assert(r@ =~= scaled_quant_table(base@, qp as int));
    r
}

impl EncodeContext {
    /// A context for pictures of `width` by `height` luma samples, with no frame
    /// encoded yet; an error where a dimension is not positive.
    pub fn new(width: i32, height: i32) -> (r: Result<EncodeContext, &'static str>)
        requires
            0 < width && 0 < height ==> dimensions_fit(width as int, height as int),
        ensures
            r is Err <==> (width <= 0 || height <= 0),
            width <= 0 ==> (r matches Err(e) && e@
                == "Invalid width, width must be positive nonzero integer"@),
            0 < width && height <= 0 ==> (r matches Err(e) && e@
                == "Invalid height, height must be positive nonzero integer"@),
            r matches Ok(ctx) ==> {
                &&& ctx.wf()
                &&& ctx.width == width && ctx.height == height
                &&& ctx.ypw == luma_padded(width as int)
                &&& ctx.yph == luma_padded(height as int)
                &&& ctx.upw == chroma_padded(width as int)
                &&& ctx.uph == chroma_padded(height as int)
                &&& ctx.vpw == chroma_padded(width as int)
                &&& ctx.vph == chroma_padded(height as int)
                &&& ctx.padw@ == seq![ctx.ypw, ctx.upw, ctx.vpw]
                &&& ctx.padh@ == seq![ctx.yph, ctx.uph, ctx.vph]
                &&& ctx.mb_cols == ctx.ypw / 8
                &&& ctx.mb_rows == ctx.yph / 8
                &&& ctx.qp == QP
                &&& ctx.me_search_range == ME_SEARCH_RANGE
                &&& ctx.keyframe_interval == KEYFRAME_INTERVAL
                &&& ctx.quanttbl[0]@ == scaled_quant_table(y_quant_default(), QP as int)
                &&& ctx.quanttbl[1]@ == scaled_quant_table(uv_quant_default(), QP as int)
                &&& ctx.quanttbl[2]@ == scaled_quant_table(uv_quant_default(), QP as int)
                &&& ctx.reference_frame is None
                &&& ctx.current_frame is None
                &&& ctx.framenum == 0
                &&& ctx.frames_since_keyframe == 0
            },
    {
        if width <= 0 {
            return Err("Invalid width, width must be positive nonzero integer");
        }
        if height <= 0 {
            return Err("Invalid height, height must be positive nonzero integer");
        }
        assert(0 < (width + 15) / 16 && 0 < (height + 15) / 16);
        assert(luma_padded(width as int) <= i32::MAX && luma_padded(height as int) <= i32::MAX)
            by (nonlinear_arith)
            requires
                0 < (width + 15) / 16,
                0 < (height + 15) / 16,
                luma_padded(width as int) == ((width + 15) / 16) * 16,
                luma_padded(height as int) == ((height + 15) / 16) * 16,
                luma_padded(width as int) * luma_padded(height as int) <= i32::MAX,
        ;
        let ypw: i32 = padded(width, 16);
        let yph: i32 = padded(height, 16);
        let upw: i32 = padded(width, 8);
        let uph: i32 = padded(height, 8);
        let vpw: i32 = padded(width, 8);
        let vph: i32 = padded(height, 8);
        let qp: u8 = QP;
        let qy = scale_quant_table(&y_quant_default_table(), qp);
        let qu = scale_quant_table(&uv_quant_default_table(), qp);
        let qv = scale_quant_table(&uv_quant_default_table(), qp);
        let ctx = EncodeContext {
            width: width,
            height: height,
            ypw: ypw,
            yph: yph,
            upw: upw,
            uph: uph,
            vpw: vpw,
            vph: vph,
            padw: [ypw, upw, vpw],
            padh: [yph, uph, vph],
            mb_cols: ypw / 8,
            mb_rows: yph / 8,
            qp: qp,
            me_search_range: ME_SEARCH_RANGE,
            quanttbl: [qy, qu, qv],
            reference_frame: None,
            current_frame: None,
            framenum: 0,
            keyframe_interval: KEYFRAME_INTERVAL,
            frames_since_keyframe: 0,
        };
        assert(ctx.padw@ =~= seq![ypw, upw, vpw]);
        assert(ctx.padh@ =~= seq![yph, uph, vph]);
        Ok(ctx)
    }
}

/// Encodes one picture: the current frame becomes the reference, a new current frame
/// is made for `image`, and unless it is a keyframe its motion vectors are estimated
/// against the reference's reconstruction.
pub fn encode_image(ctx: &mut EncodeContext, image: YUV)
    requires
        old(ctx).wf(),
        old(ctx).framenum < i32::MAX,
        image.has_size(old(ctx).padw, old(ctx).padh),
    ensures
        final(ctx).wf(),
        encoded(*old(ctx), *final(ctx), image),
{
    let ghost before = *ctx;
    ctx.reference_frame = ctx.current_frame.take();
    let mut keyframe: bool = false;
    if ctx.framenum == 0 || ctx.frames_since_keyframe == ctx.keyframe_interval {
        keyframe = true;
        ctx.frames_since_keyframe = 0;
    }
    assert(ctx.padw[1] * ctx.padh[1] <= ctx.padw[0] * ctx.padh[0]) by (nonlinear_arith)
        requires
            0 < ctx.padw[1] <= ctx.padw[0],
            0 < ctx.padh[1] <= ctx.padh[0],
    ;
    assert(ctx.mb_cols * ctx.mb_rows <= ctx.padw[0] * ctx.padh[0]) by (nonlinear_arith)
        requires
            0 < ctx.mb_cols,
            0 < ctx.mb_rows,
            ctx.padw[0] == 8 * ctx.mb_cols,
            ctx.padh[0] == 8 * ctx.mb_rows,
    ;
    let mut frame = Frame::new(image, &ctx.padw, &ctx.padh, ctx.mb_cols, ctx.mb_rows, keyframe);
    assert(frame.mbs[1]@.len() == grid_len(ctx.padw, ctx.padh, 1));
    assert(frame.has_size(ctx.padw, ctx.padh));
    proof {
        let range = ctx.me_search_range as int;
        lemma_unused_grid_vectors_ok(ctx.padw[0] as int, ctx.padh[0] as int, range);
        lemma_unused_grid_vectors_ok(ctx.padw[1] as int, ctx.padh[1] as int, range / 2);
        assert(component_range(range, 0) == range);
        assert(component_range(range, 1) == range / 2);
        assert(component_range(range, 2) == range / 2);
        assert(frame.mbs[1]@ == unused_grid(grid_len(ctx.padw, ctx.padh, 1)));
        assert(forall|c: int|
            0 <= c < 3 ==> grid_vectors_ok(
                #[trigger] frame.mbs[c]@,
                ctx.padw[c] as int,
                ctx.padh[c] as int,
                component_range(range, c),
            ));
    }
    if !keyframe {
        match &ctx.reference_frame {
            Some(reference) => {
                c63_motion_estimate(
                    &mut frame,
                    reference,
                    ctx.mb_rows,
                    ctx.mb_cols,
                    &ctx.padw,
                    &ctx.padh,
                    ctx.me_search_range,
                );
            },
            None => {},
        }
    }
    ctx.current_frame = Some(Box::new(frame));
    ctx.framenum = ctx.framenum + 1;
    ctx.frames_since_keyframe = ctx.frames_since_keyframe + 1;
    assert(forall|c: int|
        0 <= c < 3 ==> #[trigger] frame.mbs[c]@ == encoded_grid(before, image, c));
}

/// The first picture that a context encodes is a keyframe, and none of its blocks
/// uses a motion vector.
pub proof fn lemma_first_picture_is_keyframe(
    before: EncodeContext,
    after: EncodeContext,
    image: YUV,
)
    requires
        before.wf(),
        before.framenum == 0,
        encoded(before, after, image),
    ensures
        after.current_frame is Some,
        after.current_frame.unwrap().keyframe,
        forall|c: int, k: int|
            0 <= c < 3 && 0 <= k < after.current_frame.unwrap().mbs[c]@.len()
                ==> !(#[trigger] after.current_frame.unwrap().mbs[c]@[k]).use_mv,
{
    let f = after.current_frame.unwrap();
    assert forall|c: int, k: int| 0 <= c < 3 && 0 <= k < f.mbs[c]@.len() implies !(
    #[trigger] after.current_frame.unwrap().mbs[c]@[k]).use_mv by {
        assert(f.mbs[c]@ == encoded_grid(before, image, c));
    }
}

/// After a picture is encoded, every motion vector of the current frame points at a
/// window inside its plane: the frame is one that motion compensation accepts.
pub proof fn lemma_encoded_frame_can_be_compensated(
    before: EncodeContext,
    after: EncodeContext,
    image: YUV,
)
    requires
        encoded(before, after, image),
    ensures
        after.current_frame is Some,
        forall|c: int|
            0 <= c < 3 ==> vectors_in_plane(
                #[trigger] after.current_frame.unwrap().mbs[c]@,
                after.padw[c] as int,
                after.padh[c] as int,
            ),
{
    let f = after.current_frame.unwrap();
    assert forall|c: int| 0 <= c < 3 implies vectors_in_plane(
        #[trigger] after.current_frame.unwrap().mbs[c]@,
        after.padw[c] as int,
        after.padh[c] as int,
    ) by {
        lemma_vectors_ok_in_plane(
            f.mbs[c]@,
            after.padw[c] as int,
            after.padh[c] as int,
            component_range(before.me_search_range as int, c),
        );
    }
}

} // verus!
