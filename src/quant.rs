use vstd::prelude::*;

use vstd::arithmetic::div_mod::{lemma_fundamental_div_mod, lemma_fundamental_div_mod_converse};

use crate::dsp::block_fits;

verus! {

/// A sum brought into the range of a sample.
pub open spec fn clamp_sample(v: int) -> u8 {
    if v < 0 {
        0
    } else if v > 255 {
        255
    } else {
        v as u8
    }
}

/// The residual of plane `in_data` against `prediction`, sample by sample.
pub open spec fn residual_of(in_data: Seq<u8>, prediction: Seq<u8>) -> Seq<i16> {
    Seq::new(in_data.len(), |p: int| (in_data[p] - prediction[p]) as i16)
}

/// The plane rebuilt from `residual` and `prediction`, sample by sample.
pub open spec fn rebuilt_from(residual: Seq<i16>, prediction: Seq<u8>) -> Seq<u8> {
    Seq::new(residual.len(), |p: int| clamp_sample(residual[p] + prediction[p]))
}

/// Rebuilding a plane from its own residual and the same prediction gives the plane
/// back: the clamp never cuts a sum that came from a residual.
pub proof fn lemma_rebuild_inverts_residual(in_data: Seq<u8>, prediction: Seq<u8>)
    requires
        in_data.len() == prediction.len(),
    ensures
        rebuilt_from(residual_of(in_data, prediction), prediction) == in_data,
{
    assert(rebuilt_from(residual_of(in_data, prediction), prediction) =~= in_data);
}

/// The residual of a plane against its prediction, sample by sample.
pub fn residual_plane(in_data: &[u8], prediction: &[u8]) -> (r: Vec<i16>)
    requires
        in_data@.len() == prediction@.len(),
    ensures
        r@ == residual_of(in_data@, prediction@),
{
    let n: usize = in_data.len();
    let mut r: Vec<i16> = Vec::with_capacity(n);
    let mut p: usize = 0;
    while p < n
        invariant
            n == in_data@.len(),
            n == prediction@.len(),
            p <= n,
            r@.len() == p,
            forall|q: int|
                0 <= q < p ==> #[trigger] r@[q] == in_data@[q] as int - prediction@[q] as int,
        decreases n - p,
    {
        r.push(in_data[p] as i16 - prediction[p] as i16);
        p = p + 1;
    }
    assert(r@ =~= residual_of(in_data@, prediction@));
    r
}

/// A plane rebuilt from a residual and its prediction: their sum, clamped to the range
/// of a sample, sample by sample.
pub fn reconstruct_plane(residual: &[i16], prediction: &[u8]) -> (r: Vec<u8>)
    requires
        residual@.len() == prediction@.len(),
    ensures
        r@ == rebuilt_from(residual@, prediction@),
{
    let n: usize = residual.len();
    let mut r: Vec<u8> = Vec::with_capacity(n);
    let mut p: usize = 0;
    while p < n
        invariant
            n == residual@.len(),
            n == prediction@.len(),
            p <= n,
            r@.len() == p,
            forall|q: int|
                0 <= q < p ==> #[trigger] r@[q] == clamp_sample(residual@[q] + prediction@[q]),
        decreases n - p,
    {
        let sum: i32 = residual[p] as i32 + prediction[p] as i32;
        let sample: u8 = if sum < 0 {
            0
        } else if sum > 255 {
            255
        } else {
            sum as u8
        };
        r.push(sample);
        p = p + 1;
    }
    assert(r@ =~= rebuilt_from(residual@, prediction@));
    r
}

/// The 8x8 block at offset `origin` of a plane whose rows are `w` samples apart, in
/// row-major order.
pub fn block_at(plane: &[i16], w: usize, origin: usize) -> (r: [i16; 64])
    requires
        block_fits(plane@.len() as int, origin as int, w as int),
    ensures
        forall|i: int, j: int|
            0 <= i < 8 && 0 <= j < 8 ==> #[trigger] r@[8 * i + j] == plane@[origin + i * w + j],
{
    let len: usize = plane.len();
    let mut r: [i16; 64] = [0; 64];
    let mut i: usize = 0;
    while i < 8
        invariant
            i <= 8,
            len == plane@.len(),
            block_fits(len as int, origin as int, w as int),
            r@.len() == 64,
            forall|a: int, b: int|
                0 <= a < i && 0 <= b < 8 ==> #[trigger] r@[8 * a + b] == plane@[origin + a * w + b],
        decreases 8 - i,
    {
        assert(i * w <= 7 * w) by (nonlinear_arith)
            requires
                i < 8,
        ;
        let row: usize = origin + i * w;
        let mut j: usize = 0;
        while j < 8
            invariant
                i < 8,
                j <= 8,
                len == plane@.len(),
                row == origin + i * w,
                row + 8 <= len,
                r@.len() == 64,
                forall|a: int, b: int|
                    (0 <= a < i && 0 <= b < 8) || (a == i && 0 <= b < j) ==> #[trigger] r@[8 * a
                        + b] == plane@[origin + a * w + b],
            decreases 8 - j,
        {
            r.set(8 * i + j, plane[row + j]);
            j = j + 1;
        }
        i = i + 1;
    }
    r
}

/// Offset of the 64 coefficients of the block whose top-left sample is `(x, y)` in a
/// coefficient plane of width `w`: the blocks of each 8-row band are stored one after
/// the other, 64 coefficients each.
pub open spec fn coefficient_offset(w: int, x: int, y: int) -> int {
    y * w + 8 * x
}

/// The 64 coefficients of the block at `(x, y)`.
pub fn coefficients_at(coeffs: &[i16], w: usize, x: usize, y: usize) -> (r: [i16; 64])
    requires
        coefficient_offset(w as int, x as int, y as int) + 64 <= coeffs@.len(),
    ensures
        r@ == coeffs@.subrange(
            coefficient_offset(w as int, x as int, y as int),
            coefficient_offset(w as int, x as int, y as int) + 64,
        ),
{
    let len: usize = coeffs.len();
    assert(0 <= y * w) by (nonlinear_arith);
    let off: usize = y * w + 8 * x;
    let mut r: [i16; 64] = [0; 64];
    let mut k: usize = 0;
    while k < 64
        invariant
            len == coeffs@.len(),
            off == coefficient_offset(w as int, x as int, y as int),
            off + 64 <= len,
            k <= 64,
            r@.len() == 64,
            forall|q: int| 0 <= q < k ==> r@[q] == coeffs@[off + q],
        decreases 64 - k,
    {
        r.set(k, coeffs[off + k]);
        k = k + 1;
    }
    assert(r@ =~= coeffs@.subrange(off as int, off + 64));
    r
}

/// Stores the 64 coefficients of the block at `(x, y)`, leaving the others as they were.
pub fn store_coefficients(coeffs: &mut Vec<i16>, w: usize, x: usize, y: usize, block: &[i16; 64])
    requires
        coefficient_offset(w as int, x as int, y as int) + 64 <= old(coeffs)@.len(),
    ensures
        final(coeffs)@ == old(coeffs)@.subrange(0, coefficient_offset(w as int, x as int, y as int))
            + block@ + old(coeffs)@.subrange(
            coefficient_offset(w as int, x as int, y as int) + 64,
            old(coeffs)@.len() as int,
        ),
{
    let ghost before = coeffs@;
    let len: usize = coeffs.len();
    assert(0 <= y * w) by (nonlinear_arith);
    let off: usize = y * w + 8 * x;
    let mut k: usize = 0;
    while k < 64
        invariant
            len == coeffs@.len(),
            len == before.len(),
            off == coefficient_offset(w as int, x as int, y as int),
            off + 64 <= len,
            k <= 64,
            forall|q: int|
                0 <= q < len ==> #[trigger] coeffs@[q] == if off <= q < off + k {
                    block@[q - off]
                } else {
                    before[q]
                },
        decreases 64 - k,
    {
        coeffs.set(off + k, block[k]);
        k = k + 1;
    }
    assert(coeffs@ =~= before.subrange(0, off as int) + block@ + before.subrange(
        off + 64,
        len as int,
    ));
}

/// Sample `p` of a plane of width `w` lies in the 8x8 block whose top-left sample is at
/// offset `origin`.
pub open spec fn in_block(p: int, origin: int, w: int) -> bool {
    origin <= p && (p - origin) / w < 8 && (p - origin) % w < 8
}

/// Row-major position, within its block, of sample `p` of the block at `origin`.
pub open spec fn position_in_block(p: int, origin: int, w: int) -> int {
    8 * ((p - origin) / w) + (p - origin) % w
}

/// The plane `plane` with the 8x8 block at `origin` replaced by `block`.
pub open spec fn with_block(plane: Seq<i16>, block: Seq<i16>, origin: int, w: int) -> Seq<i16> {
    Seq::new(
        plane.len(),
        |p: int|
            if in_block(p, origin, w) {
                block[position_in_block(p, origin, w)]
            } else {
                plane[p]
            },
    )
}

/// Writes a block in row-major order into the 8x8 window at offset `origin` of a plane
/// whose rows are `w` samples apart.
pub fn store_block(plane: &mut Vec<i16>, w: usize, origin: usize, block: &[i16; 64])
    requires
        8 <= w,
        block_fits(old(plane)@.len() as int, origin as int, w as int),
    ensures
        final(plane)@ == with_block(old(plane)@, block@, origin as int, w as int),
{
    let ghost before = plane@;
    let len: usize = plane.len();
    let mut k: usize = 0;
    while k < 64
        invariant
            8 <= w,
            len == plane@.len(),
            len == before.len(),
            block_fits(len as int, origin as int, w as int),
            k <= 64,
            forall|p: int|
                0 <= p < len ==> #[trigger] plane@[p] == if in_block(p, origin as int, w as int)
                    && position_in_block(p, origin as int, w as int) < k {
                    block@[position_in_block(p, origin as int, w as int)]
                } else {
                    before[p]
                },
        decreases 64 - k,
    {
        let i: usize = k / 8;
        let j: usize = k % 8;
        assert(i * w <= 7 * w) by (nonlinear_arith)
            requires
                i < 8,
        ;
        let q: usize = origin + i * w + j;
        proof {
            lemma_fundamental_div_mod_converse(q - origin, w as int, i as int, j as int);
        }
        let ghost prev = plane@;
        plane.set(q, block[k]);
        assert forall|p: int| 0 <= p < len implies #[trigger] plane@[p] == if in_block(
            p,
            origin as int,
            w as int,
        ) && position_in_block(p, origin as int, w as int) < k + 1 {
            block@[position_in_block(p, origin as int, w as int)]
        } else {
            before[p]
        } by {
            if p != q && origin <= p {
                lemma_fundamental_div_mod(p - origin, w as int);
                if in_block(p, origin as int, w as int) && position_in_block(
                    p,
                    origin as int,
                    w as int,
                ) == k {
                    let a = (p - origin) / (w as int);
                    let b = (p - origin) % (w as int);
                    lemma_fundamental_div_mod_converse(k as int, 8, a, b);
                    assert(a == i && b == j);
                    assert(p - origin == (w as int) * a + b);
                    assert(p == q) by (nonlinear_arith)
                        requires
                            p - origin == (w as int) * a + b,
                            a == i,
                            b == j,
                            q == origin + i * w + j,
                    ;
                }
            }
        }
        k = k + 1;
    }
    assert(plane@ =~= with_block(before, block@, origin as int, w as int)) by {
        assert forall|p: int| 0 <= p < len implies in_block(p, origin as int, w as int)
            ==> position_in_block(p, origin as int, w as int) < 64 by {}
    }
}

} // verus!
