use vstd::prelude::*;

use vstd::arithmetic::div_mod::{
    lemma_fundamental_div_mod, lemma_fundamental_div_mod_converse, lemma_mod_pos_bound,
};

use crate::c63::{geometry_ok, unused_grid, Frame, MacroBlock, YUV};
use crate::dsp::{block_fits, block_sad, sad_at};

verus! {

/// First candidate offset of a search along one axis: `range` before the anchor, but
/// not before the plane's start.
pub open spec fn window_start(anchor: int, range: int) -> int {
    if anchor - range < 0 {
        0
    } else {
        anchor - range
    }
}

/// One past the last candidate offset along one axis: `range` after the anchor, but no
/// later than the last 8-sample window of a plane of extent `dim`.
pub open spec fn window_end(anchor: int, range: int, dim: int) -> int {
    if anchor + range > dim - 8 {
        dim - 8
    } else {
        anchor + range
    }
}

/// SAD of the anchor block at `(ax, ay)` of the original plane against the candidate
/// at `(x, y)` of the reference plane; both planes have width `w`.
pub open spec fn candidate_sad(
    orig: Seq<u8>,
    refp: Seq<u8>,
    w: int,
    ax: int,
    ay: int,
    x: int,
    y: int,
) -> int {
    block_sad(orig, ay * w + ax, refp, y * w + x, w)
}

/// `(x1, y1)` comes before `(x2, y2)` in raster order.
pub open spec fn raster_before(x1: int, y1: int, x2: int, y2: int) -> bool {
    y1 < y2 || (y1 == y2 && x1 < x2)
}

/// `(bx, by)` is the match that an exhaustive raster scan of the clipped search window
/// keeps for the anchor at `(ax, ay)`: it lies in the window, no candidate has a lower
/// SAD, and every candidate scanned before it has a higher one.
pub open spec fn is_best_match(
    orig: Seq<u8>,
    refp: Seq<u8>,
    w: int,
    h: int,
    ax: int,
    ay: int,
    range: int,
    bx: int,
    by: int,
) -> bool {
    let left = window_start(ax, range);
    let right = window_end(ax, range, w);
    let top = window_start(ay, range);
    let bottom = window_end(ay, range, h);
    &&& left <= bx < right && top <= by < bottom
    &&& forall|x: int, y: int|
        left <= x < right && top <= y < bottom ==> candidate_sad(orig, refp, w, ax, ay, bx, by)
            <= #[trigger] candidate_sad(orig, refp, w, ax, ay, x, y)
    &&& forall|x: int, y: int|
        left <= x < right && top <= y < bottom && raster_before(x, y, bx, by) ==> candidate_sad(
            orig,
            refp,
            w,
            ax,
            ay,
            bx,
            by,
        ) < #[trigger] candidate_sad(orig, refp, w, ax, ay, x, y)
}

/// The block that motion estimation leaves for the grid position `(mb_x, mb_y)`, whose
/// block was `prior` before: a vector to the best match, or the prior vector where the
/// clipped window holds no candidate. Either way the block is marked as predicted.
pub open spec fn estimated_block(
    orig: Seq<u8>,
    refp: Seq<u8>,
    w: int,
    h: int,
    range: int,
    mb_x: int,
    mb_y: int,
    prior: MacroBlock,
) -> MacroBlock {
    let ax = 8 * mb_x;
    let ay = 8 * mb_y;
    if window_start(ax, range) < window_end(ax, range, w) && window_start(ay, range) < window_end(
        ay,
        range,
        h,
    ) {
        let (bx, by) = choose|bx: int, by: int|
            is_best_match(orig, refp, w, h, ax, ay, range, bx, by);
        MacroBlock { use_mv: true, mv_x: (bx - ax) as i8, mv_y: (by - ay) as i8 }
    } else {
        MacroBlock { use_mv: true, mv_x: prior.mv_x, mv_y: prior.mv_y }
    }
}

/// The grid that motion estimation makes of `prior` for a plane of width `w` and
/// height `h`: block `k` sits at column `k % (w / 8)` and row `k / (w / 8)`.
pub open spec fn estimated_grid(
    orig: Seq<u8>,
    refp: Seq<u8>,
    w: int,
    h: int,
    range: int,
    prior: Seq<MacroBlock>,
) -> Seq<MacroBlock> {
    Seq::new(
        prior.len(),
        |k: int| estimated_block(orig, refp, w, h, range, k % (w / 8), k / (w / 8), prior[k]),
    )
}

/// Search range of colour component `c`: halved for the chroma planes.
pub open spec fn component_range(range: int, c: int) -> int {
    if c == 0 {
        range
    } else {
        range / 2
    }
}

/// Plane `c` of a picture.
pub open spec fn plane_of(p: YUV, c: int) -> Seq<u8> {
    if c == 0 {
        p.y@
    } else if c == 1 {
        p.u@
    } else {
        p.v@
    }
}

/// The vector of the block at grid position `(mb_x, mb_y)` of a `w` by `h` plane
/// points at an 8x8 window inside the plane, at most `range` samples from the block
/// along each axis.
pub open spec fn vector_ok(mb: MacroBlock, w: int, h: int, range: int, mb_x: int, mb_y: int) -> bool {
    &&& 0 <= 8 * mb_x + mb.mv_x <= w - 8
    &&& 0 <= 8 * mb_y + mb.mv_y <= h - 8
    &&& -range <= mb.mv_x <= range
    &&& -range <= mb.mv_y <= range
}

/// Every vector of the grid of a `w` by `h` plane is `vector_ok`.
pub open spec fn grid_vectors_ok(mbs: Seq<MacroBlock>, w: int, h: int, range: int) -> bool {
    forall|k: int|
        0 <= k < mbs.len() ==> vector_ok(#[trigger] mbs[k], w, h, range, k % (w / 8), k / (w / 8))
}

/// Two blocks found by the same search are the same.
pub proof fn lemma_best_match_unique(
    orig: Seq<u8>,
    refp: Seq<u8>,
    w: int,
    h: int,
    ax: int,
    ay: int,
    range: int,
    bx1: int,
    by1: int,
    bx2: int,
    by2: int,
)
    requires
        is_best_match(orig, refp, w, h, ax, ay, range, bx1, by1),
        is_best_match(orig, refp, w, h, ax, ay, range, bx2, by2),
    ensures
        bx1 == bx2 && by1 == by2,
{
    let s1 = candidate_sad(orig, refp, w, ax, ay, bx1, by1);
    let s2 = candidate_sad(orig, refp, w, ax, ay, bx2, by2);
    assert(s1 <= s2);
    assert(s2 <= s1);
    if raster_before(bx1, by1, bx2, by2) {
        assert(s2 < s1);
    } else if raster_before(bx2, by2, bx1, by1) {
        assert(s1 < s2);
    }
}

/// Position of candidate `(x, y)` in the raster scan of a window whose top-left
/// candidate is `(left, top)` and whose rows hold `cols` candidates.
pub open spec fn scan_index(x: int, y: int, left: int, top: int, cols: int) -> int {
    (y - top) * cols + (x - left)
}

/// A candidate of the window is fixed by its position in the scan.
proof fn lemma_scan_index_unique(x: int, y: int, left: int, top: int, cols: int)
    requires
        0 <= x - left < cols,
        top <= y,
    ensures
        y - top == scan_index(x, y, left, top, cols) / cols,
        x - left == scan_index(x, y, left, top, cols) % cols,
{
    lemma_fundamental_div_mod_converse(scan_index(x, y, left, top, cols), cols, y - top, x - left);
}

/// Raster order of the candidates of a window is the order of their scan positions.
proof fn lemma_scan_index_order(x1: int, y1: int, x2: int, y2: int, left: int, top: int, cols: int)
    requires
        0 <= x1 - left < cols,
        0 <= x2 - left < cols,
        top <= y1,
        top <= y2,
        raster_before(x1, y1, x2, y2),
    ensures
        scan_index(x1, y1, left, top, cols) < scan_index(x2, y2, left, top, cols),
{
    if y1 < y2 {
        assert((y1 - top) * cols + (x1 - left) < (y2 - top) * cols + (x2 - left))
            by (nonlinear_arith)
            requires
                0 <= x1 - left < cols,
                0 <= x2 - left,
                top <= y1 < y2,
        ;
    }
}

/// The candidate that a raster scan keeps after its first `n` candidates of the window
/// `[left, right) x [top, bottom)`: none of those has a lower SAD, and each one scanned
/// before it has a higher SAD.
proof fn lemma_best_among_first(
    orig: Seq<u8>,
    refp: Seq<u8>,
    w: int,
    ax: int,
    ay: int,
    left: int,
    right: int,
    top: int,
    bottom: int,
    n: int,
) -> (b: (int, int))
    requires
        left < right,
        top < bottom,
        1 <= n <= (right - left) * (bottom - top),
    ensures
        left <= b.0 < right && top <= b.1 < bottom,
        scan_index(b.0, b.1, left, top, right - left) < n,
        forall|x: int, y: int|
            left <= x < right && top <= y < bottom && scan_index(x, y, left, top, right - left)
                < n ==> candidate_sad(orig, refp, w, ax, ay, b.0, b.1)
                <= #[trigger] candidate_sad(orig, refp, w, ax, ay, x, y),
        forall|x: int, y: int|
            left <= x < right && top <= y < bottom && scan_index(x, y, left, top, right - left)
                < n && raster_before(x, y, b.0, b.1) ==> candidate_sad(
                orig,
                refp,
                w,
                ax,
                ay,
                b.0,
                b.1,
            ) < #[trigger] candidate_sad(orig, refp, w, ax, ay, x, y),
    decreases n,
{
    let cols = right - left;
    if n == 1 {
        assert forall|x: int, y: int|
            left <= x < right && top <= y < bottom && scan_index(x, y, left, top, cols) < 1 implies x
            == left && y == top by {
            assert(0 <= (y - top) * cols) by (nonlinear_arith)
                requires
                    top <= y,
                    0 < cols,
            ;
            lemma_scan_index_unique(x, y, left, top, cols);
        }
        assert(scan_index(left, top, left, top, cols) == 0);
        (left, top)
    } else {
        let m = n - 1;
        let b = lemma_best_among_first(orig, refp, w, ax, ay, left, right, top, bottom, m);
        let cx = left + m % cols;
        let cy = top + m / cols;
        assert(0 <= m / cols < bottom - top) by (nonlinear_arith)
            requires
                0 < cols,
                0 <= m < cols * (bottom - top),
        ;
        assert(0 <= m % cols < cols) by (nonlinear_arith)
            requires
                0 < cols,
                0 <= m,
        ;
        lemma_fundamental_div_mod(m, cols);
        assert(scan_index(cx, cy, left, top, cols) == m) by (nonlinear_arith)
            requires
                cx == left + m % cols,
                cy == top + m / cols,
                m == cols * (m / cols) + m % cols,
        ;
        // A candidate at scan position `m` is `(cx, cy)`.
        assert forall|x: int, y: int|
            left <= x < right && top <= y < bottom && scan_index(x, y, left, top, cols)
                == m implies x == cx && y == cy by {
            lemma_scan_index_unique(x, y, left, top, cols);
        }
        let sc = candidate_sad(orig, refp, w, ax, ay, cx, cy);
        let sb = candidate_sad(orig, refp, w, ax, ay, b.0, b.1);
        if sc < sb {
            assert forall|x: int, y: int|
                left <= x < right && top <= y < bottom && scan_index(x, y, left, top, cols) < n
                    && raster_before(x, y, cx, cy) implies sc < #[trigger] candidate_sad(
                orig,
                refp,
                w,
                ax,
                ay,
                x,
                y,
            ) by {
                lemma_scan_index_order(x, y, cx, cy, left, top, cols);
            }
            (cx, cy)
        } else {
            assert(!raster_before(cx, cy, b.0, b.1)) by {
                if raster_before(cx, cy, b.0, b.1) {
                    lemma_scan_index_order(cx, cy, b.0, b.1, left, top, cols);
                }
            }
            b
        }
    }
}

/// Every search window that holds a candidate holds a best match.
pub proof fn lemma_best_match_exists(
    orig: Seq<u8>,
    refp: Seq<u8>,
    w: int,
    h: int,
    ax: int,
    ay: int,
    range: int,
)
    requires
        window_start(ax, range) < window_end(ax, range, w),
        window_start(ay, range) < window_end(ay, range, h),
    ensures
        exists|bx: int, by: int| is_best_match(orig, refp, w, h, ax, ay, range, bx, by),
{
    let left = window_start(ax, range);
    let right = window_end(ax, range, w);
    let top = window_start(ay, range);
    let bottom = window_end(ay, range, h);
    let cols = right - left;
    let rows = bottom - top;
    assert(1 <= cols * rows) by (nonlinear_arith)
        requires
            1 <= cols,
            1 <= rows,
    ;
    let b = lemma_best_among_first(orig, refp, w, ax, ay, left, right, top, bottom, cols * rows);
    assert forall|x: int, y: int| left <= x < right && top <= y < bottom implies scan_index(
        x,
        y,
        left,
        top,
        cols,
    ) < cols * rows by {
        assert((y - top) * cols + (x - left) < cols * rows) by (nonlinear_arith)
            requires
                0 <= x - left < cols,
                0 <= y - top < rows,
        ;
    }
    assert(is_best_match(orig, refp, w, h, ax, ay, range, b.0, b.1));
}

/// Where the search window holds a candidate, the vector that motion estimation leaves
/// points at the best match.
pub proof fn lemma_estimated_block_is_best_match(
    orig: Seq<u8>,
    refp: Seq<u8>,
    w: int,
    h: int,
    range: int,
    mb_x: int,
    mb_y: int,
    prior: MacroBlock,
)
    requires
        0 <= range <= 128,
        window_start(8 * mb_x, range) < window_end(8 * mb_x, range, w),
        window_start(8 * mb_y, range) < window_end(8 * mb_y, range, h),
    ensures
        is_best_match(
            orig,
            refp,
            w,
            h,
            8 * mb_x,
            8 * mb_y,
            range,
            8 * mb_x + estimated_block(orig, refp, w, h, range, mb_x, mb_y, prior).mv_x,
            8 * mb_y + estimated_block(orig, refp, w, h, range, mb_x, mb_y, prior).mv_y,
        ),
{
    lemma_best_match_exists(orig, refp, w, h, 8 * mb_x, 8 * mb_y, range);
}

/// An 8x8 window at `(x, y)` inside a `w` by `h` plane fits in the plane's buffer.
proof fn lemma_block_in_plane(x: int, y: int, w: int, h: int)
    requires
        0 <= x,
        0 <= y,
        x + 8 <= w,
        y + 8 <= h,
    ensures
        block_fits(w * h, y * w + x, w),
{
    assert(y * w + x + 7 * w + 8 <= w * h) by (nonlinear_arith)
        requires
            0 <= x,
            0 <= y,
            x + 8 <= w,
            y + 8 <= h,
    ;
    assert(0 <= y * w) by (nonlinear_arith)
        requires
            0 <= y,
            0 <= w,
    ;
}

/// Exhaustive block search for the grid position `(mb_x, mb_y)` of a `w` by `h` plane.
fn me_block_8x8(
    mb_x: usize,
    mb_y: usize,
    original: &[u8],
    reference: &[u8],
    w: usize,
    h: usize,
    range: usize,
    prior: MacroBlock,
) -> (r: MacroBlock)
    requires
        8 * mb_x + 8 <= w,
        8 * mb_y + 8 <= h,
        original@.len() == w * h,
        reference@.len() == w * h,
        range <= 128,
    ensures
        r == estimated_block(
            original@,
            reference@,
            w as int,
            h as int,
            range as int,
            mb_x as int,
            mb_y as int,
            prior,
        ),
        vector_ok(prior, w as int, h as int, range as int, mb_x as int, mb_y as int) ==> vector_ok(
            r,
            w as int,
            h as int,
            range as int,
            mb_x as int,
            mb_y as int,
        ),
{
    let ghost orig = original@;
    let ghost refp = reference@;
    // The plane's length bounds `w * h`, and so each dimension.
    let samples: usize = original.len();
    assert(samples == w * h);
    assert(8 * w <= w * h && 8 * h <= w * h) by (nonlinear_arith)
        requires
            8 <= w,
            8 <= h,
    ;
    let ax: usize = 8 * mb_x;
    let ay: usize = 8 * mb_y;
    let left: usize = if ax >= range {
        ax - range
    } else {
        0
    };
    let right: usize = if ax + range > w - 8 {
        w - 8
    } else {
        ax + range
    };
    let top: usize = if ay >= range {
        ay - range
    } else {
        0
    };
    let bottom: usize = if ay + range > h - 8 {
        h - 8
    } else {
        ay + range
    };
    assert(left == window_start(ax as int, range as int));
    assert(right == window_end(ax as int, range as int, w as int));
    assert(top == window_start(ay as int, range as int));
    assert(bottom == window_end(ay as int, range as int, h as int));
    proof {
        lemma_block_in_plane(ax as int, ay as int, w as int, h as int);
    }
    let ao: usize = ay * w + ax;
    let mut best_sad: i32 = i32::MAX;
    let mut found: bool = false;
    let mut bx: usize = left;
    let mut by: usize = top;
    let mut y: usize = top;
    while y < bottom
        invariant
            top <= y <= bottom,
            bottom + 8 <= h,
            left <= right,
            right + 8 <= w,
            orig == original@,
            refp == reference@,
            orig.len() == w * h,
            refp.len() == w * h,
            w * h <= usize::MAX,
            ao == ay * w + ax,
            block_fits(w * h, ao as int, w as int),
            found ==> left <= bx < right && top <= by < y && best_sad == candidate_sad(
                orig,
                refp,
                w as int,
                ax as int,
                ay as int,
                bx as int,
                by as int,
            ),
            !found ==> best_sad == i32::MAX,
            found == (top < y && left < right),
            forall|cx: int, cy: int|
                left <= cx < right && top <= cy < y ==> best_sad <= #[trigger] candidate_sad(
                    orig,
                    refp,
                    w as int,
                    ax as int,
                    ay as int,
                    cx,
                    cy,
                ),
            forall|cx: int, cy: int|
                left <= cx < right && top <= cy < y && raster_before(cx, cy, bx as int, by as int)
                    ==> best_sad < #[trigger] candidate_sad(
                    orig,
                    refp,
                    w as int,
                    ax as int,
                    ay as int,
                    cx,
                    cy,
                ),
        decreases bottom - y,
    {
        let mut x: usize = left;
        while x < right
            invariant
                top <= y < bottom,
                bottom + 8 <= h,
                left <= x <= right,
                right + 8 <= w,
                orig == original@,
                refp == reference@,
                orig.len() == w * h,
                refp.len() == w * h,
                w * h <= usize::MAX,
                ao == ay * w + ax,
                block_fits(w * h, ao as int, w as int),
                found ==> left <= bx < right && top <= by <= y && raster_before(
                    bx as int,
                    by as int,
                    x as int,
                    y as int,
                ) && best_sad == candidate_sad(
                    orig,
                    refp,
                    w as int,
                    ax as int,
                    ay as int,
                    bx as int,
                    by as int,
                ),
                !found ==> best_sad == i32::MAX,
                found == ((top < y && left < right) || left < x),
                forall|cx: int, cy: int|
                    left <= cx < right && ((top <= cy < y) || (cy == y && cx < x))
                        ==> best_sad <= #[trigger] candidate_sad(
                        orig,
                        refp,
                        w as int,
                        ax as int,
                        ay as int,
                        cx,
                        cy,
                    ),
                forall|cx: int, cy: int|
                    left <= cx < right && ((top <= cy < y) || (cy == y && cx < x))
                        && raster_before(cx, cy, bx as int, by as int) ==> best_sad
                        < #[trigger] candidate_sad(
                        orig,
                        refp,
                        w as int,
                        ax as int,
                        ay as int,
                        cx,
                        cy,
                    ),
            decreases right - x,
        {
            proof {
                lemma_block_in_plane(x as int, y as int, w as int, h as int);
            }
            let s = sad_at(original, ao, reference, y * w + x, w);
            assert(s == candidate_sad(orig, refp, w as int, ax as int, ay as int, x as int, y as int));
            if s < best_sad {
                best_sad = s;
                bx = x;
                by = y;
                found = true;
            }
            x = x + 1;
        }
        y = y + 1;
    }
    if left < right && top < bottom {
        assert(is_best_match(
            orig,
            refp,
            w as int,
            h as int,
            ax as int,
            ay as int,
            range as int,
            bx as int,
            by as int,
        ));
        proof {
            let (cx, cy) = choose|cx: int, cy: int|
                is_best_match(
                    orig,
                    refp,
                    w as int,
                    h as int,
                    ax as int,
                    ay as int,
                    range as int,
                    cx,
                    cy,
                );
            lemma_best_match_unique(
                orig,
                refp,
                w as int,
                h as int,
                ax as int,
                ay as int,
                range as int,
                bx as int,
                by as int,
                cx,
                cy,
            );
        }
        let mv_x: i16 = if bx >= ax {
            (bx - ax) as i16
        } else {
            -((ax - bx) as i16)
        };
        let mv_y: i16 = if by >= ay {
            (by - ay) as i16
        } else {
            -((ay - by) as i16)
        };
        MacroBlock { use_mv: true, mv_x: mv_x as i8, mv_y: mv_y as i8 }
    } else {
        MacroBlock { use_mv: true, mv_x: prior.mv_x, mv_y: prior.mv_y }
    }
}

/// Grid position of block `k`, counted in raster order over `cols` columns.
proof fn lemma_grid_position(k: int, cols: int, rows: int, mb_x: int, mb_y: int)
    requires
        0 < cols,
        0 <= mb_x < cols,
        0 <= mb_y,
        k == mb_y * cols + mb_x,
        k < cols * rows,
    ensures
        k % cols == mb_x,
        k / cols == mb_y,
        mb_y < rows,
{
    lemma_fundamental_div_mod_converse(k, cols, mb_y, mb_x);
    assert(mb_y < rows) by (nonlinear_arith)
        requires
            0 < cols,
            0 <= mb_x,
            0 <= mb_y,
            k == mb_y * cols + mb_x,
            k < cols * rows,
    ;
}

/// Motion estimation for every block of one plane of width `w` and height `h`.
fn me_plane(
    original: &[u8],
    reference: &[u8],
    w: usize,
    h: usize,
    range: usize,
    prior: &Vec<MacroBlock>,
) -> (r: Vec<MacroBlock>)
    requires
        w % 8 == 0,
        h % 8 == 0,
        original@.len() == w * h,
        reference@.len() == w * h,
        prior@.len() == (w / 8) * (h / 8),
        range <= 128,
    ensures
        r@ == estimated_grid(original@, reference@, w as int, h as int, range as int, prior@),
        grid_vectors_ok(prior@, w as int, h as int, range as int) ==> grid_vectors_ok(
            r@,
            w as int,
            h as int,
            range as int,
        ),
{
    let cols: usize = w / 8;
    let n: usize = prior.len();
    let ghost rows: int = h as int / 8;
    let mut r: Vec<MacroBlock> = Vec::with_capacity(n);
    let mut k: usize = 0;
    let mut mb_x: usize = 0;
    let mut mb_y: usize = 0;
    assert(cols == 0 ==> n == 0) by (nonlinear_arith)
        requires
            n == cols * rows,
    ;
    while k < n
        invariant
            w % 8 == 0,
            h % 8 == 0,
            original@.len() == w * h,
            reference@.len() == w * h,
            range <= 128,
            cols == w / 8,
            rows == h / 8,
            n == prior@.len(),
            n == cols * rows,
            k <= n,
            k == mb_y * cols + mb_x,
            mb_x < cols || n == 0,
            r@.len() == k,
            forall|j: int|
                0 <= j < k ==> #[trigger] r@[j] == estimated_block(
                    original@,
                    reference@,
                    w as int,
                    h as int,
                    range as int,
                    j % (cols as int),
                    j / (cols as int),
                    prior@[j],
                ),
            grid_vectors_ok(prior@, w as int, h as int, range as int) ==> forall|j: int|
                0 <= j < k ==> vector_ok(
                    #[trigger] r@[j],
                    w as int,
                    h as int,
                    range as int,
                    j % (cols as int),
                    j / (cols as int),
                ),
        decreases n - k,
    {
        proof {
            lemma_grid_position(k as int, cols as int, rows, mb_x as int, mb_y as int);
        }
        let mb = me_block_8x8(mb_x, mb_y, original, reference, w, h, range, prior[k]);
        r.push(mb);
        k = k + 1;
        if mb_x + 1 == cols {
            assert(k == (mb_y + 1) * cols) by (nonlinear_arith)
                requires
                    k == mb_y * cols + mb_x + 1,
                    mb_x + 1 == cols,
            ;
            mb_x = 0;
            mb_y = mb_y + 1;
        } else {
            mb_x = mb_x + 1;
        }
    }
    assert(r@ =~= estimated_grid(original@, reference@, w as int, h as int, range as int, prior@));
    assert(grid_vectors_ok(prior@, w as int, h as int, range as int) ==> grid_vectors_ok(
        r@,
        w as int,
        h as int,
        range as int,
    ));
    r
}

/// `new` is what motion estimation makes of `old` against `reference`: each of the
/// three grids is estimated from the matching planes of the original picture and of
/// the reference reconstruction, and nothing else of the frame changes.
pub open spec fn motion_estimated(
    new: Frame,
    old: Frame,
    reference: Frame,
    padw: [i32; 3],
    padh: [i32; 3],
    range: int,
) -> bool {
    &&& forall|c: int|
        0 <= c < 3 ==> #[trigger] new.mbs[c]@ == estimated_grid(
            plane_of(old.orig, c),
            plane_of(reference.recons, c),
            padw[c] as int,
            padh[c] as int,
            component_range(range, c),
            old.mbs[c]@,
        )
    &&& new.orig == old.orig
    &&& new.recons == old.recons
    &&& new.predicted == old.predicted
    &&& new.residuals == old.residuals
    &&& new.keyframe == old.keyframe
}

/// Motion estimation of every block of the three grids of `current_frame` against the
/// reconstruction of `reference_frame`: luma with `me_search_range`, chroma with half of it.
pub fn c63_motion_estimate(
    current_frame: &mut Frame,
    reference_frame: &Frame,
    mb_rows: i32,
    mb_cols: i32,
    padw: &[i32; 3],
    padh: &[i32; 3],
    me_search_range: i32,
)
    requires
        geometry_ok(*padw, *padh, mb_cols, mb_rows),
        old(current_frame).has_size(*padw, *padh),
        reference_frame.has_size(*padw, *padh),
        0 <= me_search_range <= 128,
    ensures
        motion_estimated(
            *final(current_frame),
            *old(current_frame),
            *reference_frame,
            *padw,
            *padh,
            me_search_range as int,
        ),
        forall|c: int|
            0 <= c < 3 && grid_vectors_ok(
                #[trigger] old(current_frame).mbs[c]@,
                padw[c] as int,
                padh[c] as int,
                component_range(me_search_range as int, c),
            ) ==> grid_vectors_ok(
                final(current_frame).mbs[c]@,
                padw[c] as int,
                padh[c] as int,
                component_range(me_search_range as int, c),
            ),
{
    let range: usize = me_search_range as usize;
    let yw: usize = padw[0] as usize;
    let yh: usize = padh[0] as usize;
    let cw: usize = padw[1] as usize;
    let ch: usize = padh[1] as usize;
    assert(padw[1] * padh[1] <= padw[0] * padh[0]) by (nonlinear_arith)
        requires
            0 < padw[1] <= padw[0],
            0 < padh[1] <= padh[0],
    ;
    let ny = me_plane(
        current_frame.orig.y.as_slice(),
        reference_frame.recons.y.as_slice(),
        yw,
        yh,
        range,
        &current_frame.mbs[0],
    );
    let nu = me_plane(
        current_frame.orig.u.as_slice(),
        reference_frame.recons.u.as_slice(),
        cw,
        ch,
        range / 2,
        &current_frame.mbs[1],
    );
    let nv = me_plane(
        current_frame.orig.v.as_slice(),
        reference_frame.recons.v.as_slice(),
        cw,
        ch,
        range / 2,
        &current_frame.mbs[2],
    );
    let ghost before = *current_frame;
    current_frame.mbs = [ny, nu, nv];
    assert(forall|c: int|
        0 <= c < 3 ==> #[trigger] current_frame.mbs[c]@ == estimated_grid(
            plane_of(before.orig, c),
            plane_of(reference_frame.recons, c),
            padw[c] as int,
            padh[c] as int,
            component_range(me_search_range as int, c),
            before.mbs[c]@,
        )) by {
        assert(current_frame.mbs[0]@ == ny@);
        assert(current_frame.mbs[1]@ == nu@);
        assert(current_frame.mbs[2]@ == nv@);
    }
    assert(forall|c: int|
        0 <= c < 3 && grid_vectors_ok(
            #[trigger] before.mbs[c]@,
            padw[c] as int,
            padh[c] as int,
            component_range(me_search_range as int, c),
        ) ==> grid_vectors_ok(
            current_frame.mbs[c]@,
            padw[c] as int,
            padh[c] as int,
            component_range(me_search_range as int, c),
        )) by {
        assert(current_frame.mbs[0]@ == ny@);
        assert(current_frame.mbs[1]@ == nu@);
        assert(current_frame.mbs[2]@ == nv@);
    }
}

/// Sample `p` of a plane of width `w` after motion compensation: taken from the
/// reference at the block's motion vector where its block uses one, kept otherwise.
pub open spec fn compensated_sample(
    pred: Seq<u8>,
    refp: Seq<u8>,
    mbs: Seq<MacroBlock>,
    w: int,
    p: int,
) -> u8 {
    let x = p % w;
    let y = p / w;
    let mb = mbs[(y / 8) * (w / 8) + x / 8];
    if mb.use_mv {
        refp[(y + mb.mv_y) * w + x + mb.mv_x]
    } else {
        pred[p]
    }
}

/// The predicted plane that motion compensation makes of `pred`.
pub open spec fn compensated_plane(
    pred: Seq<u8>,
    refp: Seq<u8>,
    mbs: Seq<MacroBlock>,
    w: int,
) -> Seq<u8> {
    Seq::new(pred.len(), |p: int| compensated_sample(pred, refp, mbs, w, p))
}

/// Every motion vector of the grid of a `w` by `h` plane points at an 8x8 window that
/// lies inside the plane.
pub open spec fn vectors_in_plane(mbs: Seq<MacroBlock>, w: int, h: int) -> bool {
    forall|k: int|
        0 <= k < mbs.len() && (#[trigger] mbs[k]).use_mv ==> {
            &&& 0 <= 8 * (k % (w / 8)) + mbs[k].mv_x <= w - 8
            &&& 0 <= 8 * (k / (w / 8)) + mbs[k].mv_y <= h - 8
        }
}

/// Where sample `(x, y)` of a `w` by `h` plane lies, and which block holds it.
proof fn lemma_sample_position(p: int, w: int, h: int, x: int, y: int)
    requires
        0 < w,
        w % 8 == 0,
        h % 8 == 0,
        0 <= x < w,
        0 <= y,
        p == y * w + x,
        p < w * h,
    ensures
        p % w == x,
        p / w == y,
        y < h,
        0 <= (y / 8) * (w / 8) + x / 8 < (w / 8) * (h / 8),
        ((y / 8) * (w / 8) + x / 8) % (w / 8) == x / 8,
        ((y / 8) * (w / 8) + x / 8) / (w / 8) == y / 8,
{
    lemma_fundamental_div_mod_converse(p, w, y, x);
    assert(y < h) by (nonlinear_arith)
        requires
            0 < w,
            0 <= x,
            0 <= y,
            p == y * w + x,
            p < w * h,
    ;
    let cols = w / 8;
    let rows = h / 8;
    assert(y / 8 < rows);
    assert(x / 8 < cols);
    assert(0 <= (y / 8) * cols + x / 8 < cols * rows) by (nonlinear_arith)
        requires
            0 <= y / 8 < rows,
            0 <= x / 8 < cols,
    ;
    lemma_fundamental_div_mod_converse((y / 8) * cols + x / 8, cols, y / 8, x / 8);
}

/// A sample at `(x, y)` of a `w` by `h` plane has an index below `w * h`.
proof fn lemma_index_in_plane(x: int, y: int, w: int, h: int)
    requires
        0 <= x < w,
        0 <= y < h,
    ensures
        0 <= y * w + x < w * h,
{
    assert(0 <= y * w + x < w * h) by (nonlinear_arith)
        requires
            0 <= x < w,
            0 <= y < h,
    ;
}

/// Motion compensation of one plane of width `w` and height `h`.
fn mc_plane(predicted: &mut Vec<u8>, reference: &[u8], mbs: &[MacroBlock], w: usize, h: usize)
    requires
        0 < w,
        w % 8 == 0,
        h % 8 == 0,
        old(predicted)@.len() == w * h,
        reference@.len() == w * h,
        mbs@.len() == (w / 8) * (h / 8),
        vectors_in_plane(mbs@, w as int, h as int),
    ensures
        final(predicted)@ == compensated_plane(old(predicted)@, reference@, mbs@, w as int),
{
    let ghost pred0 = predicted@;
    let n: usize = predicted.len();
    let cols: usize = w / 8;
    let nb: usize = mbs.len();
    let mut p: usize = 0;
    let mut x: usize = 0;
    let mut y: usize = 0;
    while p < n
        invariant
            0 < w,
            w % 8 == 0,
            h % 8 == 0,
            cols == w / 8,
            n == w * h,
            pred0.len() == n,
            predicted@.len() == n,
            reference@.len() == w * h,
            mbs@.len() == (w / 8) * (h / 8),
            nb == mbs@.len(),
            vectors_in_plane(mbs@, w as int, h as int),
            p <= n,
            x < w,
            p == y * w + x,
            forall|q: int|
                0 <= q < p ==> #[trigger] predicted@[q] == compensated_sample(
                    pred0,
                    reference@,
                    mbs@,
                    w as int,
                    q,
                ),
            forall|q: int| p <= q < n ==> #[trigger] predicted@[q] == pred0[q],
        decreases n - p,
    {
        proof {
            lemma_sample_position(p as int, w as int, h as int, x as int, y as int);
        }
        let k: usize = (y / 8) * cols + x / 8;
        let mb = mbs[k];
        if mb.use_mv {
            assert(0 <= 8 * (k as int % (w as int / 8)) + mb.mv_x <= w - 8);
            assert(0 <= 8 * (k as int / (w as int / 8)) + mb.mv_y <= h - 8);
            let sx: usize = if mb.mv_x >= 0 {
                x + mb.mv_x as usize
            } else {
                x - (-(mb.mv_x as i16)) as usize
            };
            let sy: usize = if mb.mv_y >= 0 {
                y + mb.mv_y as usize
            } else {
                y - (-(mb.mv_y as i16)) as usize
            };
            proof {
                lemma_index_in_plane(sx as int, sy as int, w as int, h as int);
            }
            let sample: u8 = reference[sy * w + sx];
            predicted.set(p, sample);
        }
        p = p + 1;
        if x + 1 == w {
            assert(p == (y + 1) * w) by (nonlinear_arith)
                requires
                    p == y * w + x + 1,
                    x + 1 == w,
            ;
            x = 0;
            y = y + 1;
        } else {
            x = x + 1;
        }
    }
    assert(predicted@ =~= compensated_plane(pred0, reference@, mbs@, w as int));
}

/// Motion compensation leaves every sample of a block without a motion vector as it
/// was before.
pub proof fn lemma_compensation_keeps_unpredicted_blocks(
    pred: Seq<u8>,
    refp: Seq<u8>,
    mbs: Seq<MacroBlock>,
    w: int,
    h: int,
    mb_x: int,
    mb_y: int,
)
    requires
        0 < w,
        w % 8 == 0,
        h % 8 == 0,
        pred.len() == w * h,
        mbs.len() == (w / 8) * (h / 8),
        0 <= mb_x < w / 8,
        0 <= mb_y < h / 8,
        !mbs[mb_y * (w / 8) + mb_x].use_mv,
    ensures
        forall|i: int, j: int|
            0 <= i < 8 && 0 <= j < 8 ==> #[trigger] compensated_plane(pred, refp, mbs, w)[(8
                * mb_y + i) * w + 8 * mb_x + j] == pred[(8 * mb_y + i) * w + 8 * mb_x + j],
{
    assert forall|i: int, j: int| 0 <= i < 8 && 0 <= j < 8 implies #[trigger] compensated_plane(
        pred,
        refp,
        mbs,
        w,
    )[(8 * mb_y + i) * w + 8 * mb_x + j] == pred[(8 * mb_y + i) * w + 8 * mb_x + j] by {
        let x = 8 * mb_x + j;
        let y = 8 * mb_y + i;
        lemma_index_in_plane(x, y, w, h);
        lemma_sample_position(y * w + x, w, h, x, y);
        assert(x / 8 == mb_x);
        assert(y / 8 == mb_y);
    }
}

/// The state of a frame after motion compensation against `reference`: each predicted
/// plane is compensated with the matching grid, and nothing else of the frame changes.
pub open spec fn motion_compensated(new: Frame, old: Frame, reference: Frame, padw: [i32; 3]) -> bool {
    &&& forall|c: int|
        0 <= c < 3 ==> #[trigger] plane_of(new.predicted, c) == compensated_plane(
            plane_of(old.predicted, c),
            plane_of(reference.recons, c),
            old.mbs[c]@,
            padw[c] as int,
        )
    &&& new.orig == old.orig
    &&& new.recons == old.recons
    &&& new.residuals == old.residuals
    &&& new.mbs == old.mbs
    &&& new.keyframe == old.keyframe
}

/// Builds the predicted planes of `current_frame` from the reconstruction of
/// `reference_frame`, block by block, for the blocks that use a motion vector.
pub fn c63_motion_compensate(
    current_frame: &mut Frame,
    reference_frame: &Frame,
    mb_rows: i32,
    mb_cols: i32,
    padw: &[i32; 3],
    padh: &[i32; 3],
)
    requires
        geometry_ok(*padw, *padh, mb_cols, mb_rows),
        old(current_frame).has_size(*padw, *padh),
        reference_frame.has_size(*padw, *padh),
        forall|c: int|
            0 <= c < 3 ==> vectors_in_plane(
                #[trigger] old(current_frame).mbs[c]@,
                padw[c] as int,
                padh[c] as int,
            ),
    ensures
        motion_compensated(*final(current_frame), *old(current_frame), *reference_frame, *padw),
{
    let ghost before = *current_frame;
    let yw: usize = padw[0] as usize;
    let yh: usize = padh[0] as usize;
    let cw: usize = padw[1] as usize;
    let ch: usize = padh[1] as usize;
    assert(padw[1] * padh[1] <= padw[0] * padh[0]) by (nonlinear_arith)
        requires
            0 < padw[1] <= padw[0],
            0 < padh[1] <= padh[0],
    ;
    assert(vectors_in_plane(before.mbs[0]@, padw[0] as int, padh[0] as int));
    assert(vectors_in_plane(before.mbs[1]@, padw[1] as int, padh[1] as int));
    assert(vectors_in_plane(before.mbs[2]@, padw[2] as int, padh[2] as int));
    mc_plane(
        &mut current_frame.predicted.y,
        reference_frame.recons.y.as_slice(),
        current_frame.mbs[0].as_slice(),
        yw,
        yh,
    );
    mc_plane(
        &mut current_frame.predicted.u,
        reference_frame.recons.u.as_slice(),
        current_frame.mbs[1].as_slice(),
        cw,
        ch,
    );
    mc_plane(
        &mut current_frame.predicted.v,
        reference_frame.recons.v.as_slice(),
        current_frame.mbs[2].as_slice(),
        cw,
        ch,
    );
    assert(forall|c: int|
        0 <= c < 3 ==> #[trigger] plane_of(current_frame.predicted, c) == compensated_plane(
            plane_of(before.predicted, c),
            plane_of(reference_frame.recons, c),
            before.mbs[c]@,
            padw[c] as int,
        ));
}

/// A grid without motion vectors has every vector `vector_ok`: each block points at
/// itself.
pub proof fn lemma_unused_grid_vectors_ok(w: int, h: int, range: int)
    requires
        0 < w,
        0 <= h,
        w % 8 == 0,
        h % 8 == 0,
        0 <= range,
    ensures
        grid_vectors_ok(unused_grid((w / 8) * (h / 8)), w, h, range),
{
    let cols = w / 8;
    let rows = h / 8;
    assert(0 <= cols * rows) by (nonlinear_arith)
        requires
            0 < cols,
            0 <= rows,
    ;
    assert(unused_grid(cols * rows).len() == cols * rows);
    assert forall|k: int| 0 <= k < cols * rows implies vector_ok(
        #[trigger] unused_grid(cols * rows)[k],
        w,
        h,
        range,
        k % cols,
        k / cols,
    ) by {
        lemma_fundamental_div_mod(k, cols);
        lemma_mod_pos_bound(k, cols);
        assert(0 <= k / cols < rows) by (nonlinear_arith)
            requires
                0 < cols,
                0 <= k < cols * rows,
                k == cols * (k / cols) + k % cols,
                0 <= k % cols < cols,
        ;
    }
}

/// Vectors that are `vector_ok` are a grid that motion compensation accepts.
pub proof fn lemma_vectors_ok_in_plane(mbs: Seq<MacroBlock>, w: int, h: int, range: int)
    requires
        grid_vectors_ok(mbs, w, h, range),
    ensures
        vectors_in_plane(mbs, w, h),
{
    assert forall|k: int| 0 <= k < mbs.len() && (#[trigger] mbs[k]).use_mv implies {
        &&& 0 <= 8 * (k % (w / 8)) + mbs[k].mv_x <= w - 8
        &&& 0 <= 8 * (k / (w / 8)) + mbs[k].mv_y <= h - 8
    } by {
        assert(vector_ok(mbs[k], w, h, range, k % (w / 8), k / (w / 8)));
    }
}

} // verus!
