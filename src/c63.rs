use vstd::prelude::*;

verus! {

/// Number of colour components of a picture: luma (Y) and two chroma planes (U, V).
pub const COLOR_COMPONENTS: usize = 3;

/// Index of the luma component.
pub const COLOR_COMPONENT_Y: usize = 0;

/// Index of the first chroma component.
pub const COLOR_COMPONENT_U: usize = 1;

/// Index of the second chroma component.
pub const COLOR_COMPONENT_V: usize = 2;

/// Horizontal sampling factor of the luma plane.
pub const COMPONENT_SIZE_YX: u8 = 2;

/// Vertical sampling factor of the luma plane.
pub const COMPONENT_SIZE_YY: u8 = 2;

/// Horizontal sampling factor of the first chroma plane.
pub const COMPONENT_SIZE_UX: u8 = 1;

/// Vertical sampling factor of the first chroma plane.
pub const COMPONENT_SIZE_UY: u8 = 1;

/// Horizontal sampling factor of the second chroma plane.
pub const COMPONENT_SIZE_VX: u8 = 1;

/// Vertical sampling factor of the second chroma plane.
pub const COMPONENT_SIZE_VY: u8 = 1;

/// Huffman symbol for a run of zero AC coefficients.
pub const HUFF_AC_ZERO: u8 = 16;

/// Number of AC coefficient size classes of the Huffman tables.
pub const HUFF_AC_SIZE: u8 = 11;

/// Section tags of the container format. Each section starts with the byte `0xFF`
/// followed by the tag's own byte.
pub enum JPEGMarker {
    DEF,
    SOI,
    DQT,
    SOF,
    DHT,
    SOS,
    EOI,
}

impl JPEGMarker {
    pub open spec fn spec_code(&self) -> u8 {
        match self {
            JPEGMarker::DEF => 0xFF,
            JPEGMarker::SOI => 0xD8,
            JPEGMarker::DQT => 0xDB,
            JPEGMarker::SOF => 0xC0,
            JPEGMarker::DHT => 0xC4,
            JPEGMarker::SOS => 0xDA,
            JPEGMarker::EOI => 0xD9,
        }
    }

    /// The byte that identifies this marker in a stream.
    pub fn code(&self) -> (r: u8)
        ensures
            r == self.spec_code(),
    {
        match self {
            JPEGMarker::DEF => 0xFF,
            JPEGMarker::SOI => 0xD8,
            JPEGMarker::DQT => 0xDB,
            JPEGMarker::SOF => 0xC0,
            JPEGMarker::DHT => 0xC4,
            JPEGMarker::SOS => 0xDA,
            JPEGMarker::EOI => 0xD9,
        }
    }
}

/// A planar picture: one byte plane per colour component.
pub struct YUV {
    pub y: Vec<u8>,
    pub u: Vec<u8>,
    pub v: Vec<u8>,
}

/// A plane of `n` zero samples.
pub open spec fn zero_plane(n: int) -> Seq<u8> {
    Seq::new(n as nat, |i: int| 0u8)
}

/// A plane of `n` zero coefficients.
pub open spec fn zero_coefficients(n: int) -> Seq<i16> {
    Seq::new(n as nat, |i: int| 0i16)
}

fn zeroed_samples(n: usize) -> (r: Vec<u8>)
    ensures
        r@ == zero_plane(n as int),
{
    let mut r: Vec<u8> = Vec::with_capacity(n);
    let mut i: usize = 0;
    while i < n
        invariant
            i <= n,
            r@ == zero_plane(i as int),
        decreases n - i,
    {
        r.push(0);
        i = i + 1;
        assert(r@ =~= zero_plane(i as int));
    }
    r
}

fn zeroed_coefficients(n: usize) -> (r: Vec<i16>)
    ensures
        r@ == zero_coefficients(n as int),
{
    let mut r: Vec<i16> = Vec::with_capacity(n);
    let mut i: usize = 0;
    while i < n
        invariant
            i <= n,
            r@ == zero_coefficients(i as int),
        decreases n - i,
    {
        r.push(0);
        i = i + 1;
        assert(r@ =~= zero_coefficients(i as int));
    }
    r
}

impl YUV {
    /// A picture whose three planes hold the given numbers of zero samples.
    pub fn new(y_size: usize, u_size: usize, v_size: usize) -> (r: YUV)
        ensures
            r.y@ == zero_plane(y_size as int),
            r.u@ == zero_plane(u_size as int),
            r.v@ == zero_plane(v_size as int),
    {
        YUV { y: zeroed_samples(y_size), u: zeroed_samples(u_size), v: zeroed_samples(v_size) }
    }
}

/// Transformed and quantized residual coefficients, one plane per colour component.
pub struct DCT {
    pub y_dct: Vec<i16>,
    pub u_dct: Vec<i16>,
    pub v_dct: Vec<i16>,
}

impl DCT {
    /// Coefficient planes that hold the given numbers of zeros.
    pub fn new(y_size: usize, u_size: usize, v_size: usize) -> (r: DCT)
        ensures
            r.y_dct@ == zero_coefficients(y_size as int),
            r.u_dct@ == zero_coefficients(u_size as int),
            r.v_dct@ == zero_coefficients(v_size as int),
    {
        DCT {
            y_dct: zeroed_coefficients(y_size),
            u_dct: zeroed_coefficients(u_size),
            v_dct: zeroed_coefficients(v_size),
        }
    }
}

/// What is decided for one 8x8 block: whether it is predicted from the reference
/// frame, and from which offset.
#[derive(Clone, Copy, Debug, PartialEq, Eq, Structural)]
pub struct MacroBlock {
    pub use_mv: bool,
    pub mv_x: i8,
    pub mv_y: i8,
}

impl MacroBlock {
    /// A block with no motion vector.
    pub open spec fn unused() -> MacroBlock {
        MacroBlock { use_mv: false, mv_x: 0, mv_y: 0 }
    }
}

impl Default for MacroBlock {
    fn default() -> (r: MacroBlock)
        ensures
            r == MacroBlock::unused(),
    {
        MacroBlock { use_mv: false, mv_x: 0, mv_y: 0 }
    }
}

/// A grid of `n` blocks without motion vectors.
pub open spec fn unused_grid(n: int) -> Seq<MacroBlock> {
    Seq::new(n as nat, |i: int| MacroBlock::unused())
}

fn unused_blocks(n: usize) -> (r: Vec<MacroBlock>)
    ensures
        r@ == unused_grid(n as int),
{
    let mut r: Vec<MacroBlock> = Vec::with_capacity(n);
    let mut i: usize = 0;
    while i < n
        invariant
            i <= n,
            r@ == unused_grid(i as int),
        decreases n - i,
    {
        r.push(MacroBlock { use_mv: false, mv_x: 0, mv_y: 0 });
        i = i + 1;
        assert(r@ =~= unused_grid(i as int));
    }
    r
}

/// Everything the encoder keeps of one picture.
pub struct Frame {
    /// The input picture.
    pub orig: YUV,
    /// The picture as a decoder would rebuild it.
    pub recons: YUV,
    /// The prediction of the picture.
    pub predicted: YUV,
    /// Difference between the input picture and its prediction, transformed.
    pub residuals: DCT,
    /// One grid of blocks per colour component.
    pub mbs: [Vec<MacroBlock>; 3],
    pub keyframe: bool,
}

/// Padded plane dimensions and block grid that agree with each other: the luma plane
/// is a whole number of 16x16 areas, each chroma plane has half its width and height,
/// the luma grid has one block per 8x8 samples, and the luma plane's size fits in `i32`.
pub open spec fn geometry_ok(padw: [i32; 3], padh: [i32; 3], mb_cols: i32, mb_rows: i32) -> bool {
    &&& 0 < mb_cols && 0 < mb_rows
    &&& mb_cols % 2 == 0 && mb_rows % 2 == 0
    &&& padw[0] == 8 * mb_cols && padh[0] == 8 * mb_rows
    &&& padw[1] == 4 * mb_cols && padw[2] == 4 * mb_cols
    &&& padh[1] == 4 * mb_rows && padh[2] == 4 * mb_rows
    &&& padw[0] * padh[0] <= i32::MAX
}

/// Number of samples of plane `c`.
pub open spec fn plane_len(padw: [i32; 3], padh: [i32; 3], c: int) -> int {
    padw[c] * padh[c]
}

/// Number of blocks of the grid of component `c`.
pub open spec fn grid_len(padw: [i32; 3], padh: [i32; 3], c: int) -> int {
    (padw[c] / 8) * (padh[c] / 8)
}

impl YUV {
    /// The planes have the padded sizes.
    pub open spec fn has_size(&self, padw: [i32; 3], padh: [i32; 3]) -> bool {
        &&& self.y@.len() == plane_len(padw, padh, 0)
        &&& self.u@.len() == plane_len(padw, padh, 1)
        &&& self.v@.len() == plane_len(padw, padh, 2)
    }
}

impl Frame {
    /// Planes and grids of this frame have the sizes that the geometry gives.
    pub open spec fn has_size(&self, padw: [i32; 3], padh: [i32; 3]) -> bool {
        &&& self.orig.has_size(padw, padh)
        &&& self.recons.has_size(padw, padh)
        &&& self.predicted.has_size(padw, padh)
        &&& self.residuals.y_dct@.len() == plane_len(padw, padh, 0)
        &&& self.residuals.u_dct@.len() == plane_len(padw, padh, 1)
        &&& self.residuals.v_dct@.len() == plane_len(padw, padh, 2)
        &&& self.mbs[0]@.len() == grid_len(padw, padh, 0)
        &&& self.mbs[1]@.len() == grid_len(padw, padh, 1)
        &&& self.mbs[2]@.len() == grid_len(padw, padh, 2)
    }

    /// A frame for picture `orig`: zero reconstruction, prediction and residuals, a luma
    /// grid of `mb_cols` by `mb_rows` blocks and chroma grids of half as many columns and
    /// rows, none of them with a motion vector.
    pub fn new(
        orig: YUV,
        padw: &[i32; 3],
        padh: &[i32; 3],
        mb_cols: i32,
        mb_rows: i32,
        keyframe: bool,
    ) -> (r: Frame)
        requires
            forall|c: int|
                0 <= c < 3 ==> 0 <= padw[c] && 0 <= padh[c] && #[trigger] plane_len(
                    *padw,
                    *padh,
                    c,
                ) <= i32::MAX,
            0 <= mb_cols,
            0 <= mb_rows,
            mb_cols * mb_rows <= i32::MAX,
        ensures
            r.orig == orig,
            r.recons.y@ == zero_plane(plane_len(*padw, *padh, 0)),
            r.recons.u@ == zero_plane(plane_len(*padw, *padh, 1)),
            r.recons.v@ == zero_plane(plane_len(*padw, *padh, 2)),
            r.predicted.y@ == zero_plane(plane_len(*padw, *padh, 0)),
            r.predicted.u@ == zero_plane(plane_len(*padw, *padh, 1)),
            r.predicted.v@ == zero_plane(plane_len(*padw, *padh, 2)),
            r.residuals.y_dct@ == zero_coefficients(plane_len(*padw, *padh, 0)),
            r.residuals.u_dct@ == zero_coefficients(plane_len(*padw, *padh, 1)),
            r.residuals.v_dct@ == zero_coefficients(plane_len(*padw, *padh, 2)),
            r.mbs[0]@ == unused_grid(mb_cols * mb_rows),
            r.mbs[1]@ == unused_grid((mb_cols / 2) * (mb_rows / 2)),
            r.mbs[2]@ == unused_grid((mb_cols / 2) * (mb_rows / 2)),
            r.keyframe == keyframe,
    {
        assert(plane_len(*padw, *padh, 0) <= i32::MAX);
        assert(plane_len(*padw, *padh, 1) <= i32::MAX);
        assert(plane_len(*padw, *padh, 2) <= i32::MAX);
        let ys: usize = (padw[COLOR_COMPONENT_Y] * padh[COLOR_COMPONENT_Y]) as usize;
        let us: usize = (padw[COLOR_COMPONENT_U] * padh[COLOR_COMPONENT_U]) as usize;
        let vs: usize = (padw[COLOR_COMPONENT_V] * padh[COLOR_COMPONENT_V]) as usize;
        let luma_blocks: usize = (mb_cols * mb_rows) as usize;
        assert((mb_cols / 2) * (mb_rows / 2) <= mb_cols * mb_rows) by (nonlinear_arith)
            requires
                0 <= mb_cols,
                0 <= mb_rows,
        ;
        let chroma_blocks: usize = ((mb_cols / 2) * (mb_rows / 2)) as usize;
        Frame {
            orig: orig,
            recons: YUV::new(ys, us, vs),
            predicted: YUV::new(ys, us, vs),
            residuals: DCT::new(ys, us, vs),
            mbs: [
                unused_blocks(luma_blocks),
                unused_blocks(chroma_blocks),
                unused_blocks(chroma_blocks),
            ],
            keyframe: keyframe,
        }
    }
}

} // verus!
