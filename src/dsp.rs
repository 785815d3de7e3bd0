use vstd::prelude::*;

use crate::tables::{
    lemma_zigzag_tables_inverse, zigzag_natural, zigzag_natural_index, zigzag_position,
    zigzag_position_index,
};

verus! {

/// Absolute difference of two samples, taken over the integers.
pub open spec fn abs_diff(a: u8, b: u8) -> int {
    if a >= b {
        a - b
    } else {
        b - a
    }
}

/// Sum of absolute differences of the first `n` samples from `ao` in `a` and from `bo` in `b`.
pub open spec fn row_sad(a: Seq<u8>, ao: int, b: Seq<u8>, bo: int, n: nat) -> int
    decreases n,
{
    if n == 0 {
        0
    } else {
        row_sad(a, ao, b, bo, (n - 1) as nat) + abs_diff(a[ao + n - 1], b[bo + n - 1])
    }
}

/// Sum of absolute differences over the first `rows` rows (eight samples each) of two
/// windows whose rows lie `stride` samples apart.
pub open spec fn rows_sad(a: Seq<u8>, ao: int, b: Seq<u8>, bo: int, stride: int, rows: nat) -> int
    decreases rows,
{
    if rows == 0 {
        0
    } else {
        rows_sad(a, ao, b, bo, stride, (rows - 1) as nat) + row_sad(
            a,
            ao + (rows - 1) * stride,
            b,
            bo + (rows - 1) * stride,
            8,
        )
    }
}

/// SAD of the 8x8 window at offset `ao` of `a` against the one at offset `bo` of `b`.
pub open spec fn block_sad(a: Seq<u8>, ao: int, b: Seq<u8>, bo: int, stride: int) -> int {
    rows_sad(a, ao, b, bo, stride, 8)
}

/// An 8x8 window at offset `o` with row stride `stride` lies inside a buffer of length `len`.
pub open spec fn block_fits(len: int, o: int, stride: int) -> bool {
    0 <= o && 0 <= stride && o + 7 * stride + 8 <= len
}

proof fn lemma_row_sad_self(a: Seq<u8>, o: int, n: nat)
    ensures
        row_sad(a, o, a, o, n) == 0,
    decreases n,
{
    if n > 0 {
        lemma_row_sad_self(a, o, (n - 1) as nat);
    }
}

proof fn lemma_rows_sad_self(a: Seq<u8>, o: int, stride: int, rows: nat)
    ensures
        rows_sad(a, o, a, o, stride, rows) == 0,
    decreases rows,
{
    if rows > 0 {
        lemma_rows_sad_self(a, o, stride, (rows - 1) as nat);
        lemma_row_sad_self(a, o + (rows - 1) * stride, 8);
    }
}

/// The SAD of any block against itself is zero.
pub proof fn lemma_sad_self_zero(a: Seq<u8>, o: int, stride: int)
    ensures
        block_sad(a, o, a, o, stride) == 0,
{
    lemma_rows_sad_self(a, o, stride, 8);
}

/// SAD of the 8x8 window at `ao` in `a` against the one at `bo` in `b`, both with row
/// stride `stride`.
pub(crate) fn sad_at(a: &[u8], ao: usize, b: &[u8], bo: usize, stride: usize) -> (r: i32)
    requires
        block_fits(a@.len() as int, ao as int, stride as int),
        block_fits(b@.len() as int, bo as int, stride as int),
    ensures
        r == block_sad(a@, ao as int, b@, bo as int, stride as int),
        0 <= r <= 16320,
{
    let alen: usize = a.len();
    let blen: usize = b.len();
    let mut result: i32 = 0;
    let mut v: usize = 0;
    while v < 8
        invariant
            v <= 8,
            alen == a@.len(),
            blen == b@.len(),
            block_fits(a@.len() as int, ao as int, stride as int),
            block_fits(b@.len() as int, bo as int, stride as int),
            result == rows_sad(a@, ao as int, b@, bo as int, stride as int, v as nat),
            0 <= result <= 2040 * v,
        decreases 8 - v,
    {
        assert(v * stride <= 7 * stride) by (nonlinear_arith)
            requires
                v < 8,
                0 <= stride,
        ;
        assert(ao + v * stride + 8 <= alen);
        assert(bo + v * stride + 8 <= blen);
        let ra: usize = ao + v * stride;
        let rb: usize = bo + v * stride;
        let mut u: usize = 0;
        while u < 8
            invariant
                v < 8,
                u <= 8,
                ra == ao + v * stride,
                rb == bo + v * stride,
                alen == a@.len(),
                blen == b@.len(),
                ra + 8 <= alen,
                rb + 8 <= blen,
                result == rows_sad(a@, ao as int, b@, bo as int, stride as int, v as nat) + row_sad(
                    a@,
                    ra as int,
                    b@,
                    rb as int,
                    u as nat,
                ),
                0 <= result <= 2040 * v + 255 * u,
            decreases 8 - u,
        {
            let x: u8 = a[ra + u];
            let y: u8 = b[rb + u];
            if x >= y {
                result = result + (x - y) as i32;
            } else {
                result = result + (y - x) as i32;
            }
            u = u + 1;
        }
        v = v + 1;
    }
    result
}

/// Sum of absolute differences between the 8x8 windows that start each buffer, with rows
/// `stride` samples apart.
pub fn sad_block_8x8(block1: &[u8], block2: &[u8], stride: i32) -> (r: i32)
    requires
        block_fits(block1@.len() as int, 0, stride as int),
        block_fits(block2@.len() as int, 0, stride as int),
    ensures
        r == block_sad(block1@, 0, block2@, 0, stride as int),
        0 <= r <= 16320,
{
    sad_at(block1, 0, block2, 0, stride as usize)
}

/// The 64 coefficients of a block in natural order, reordered into zig-zag order.
pub open spec fn zigzag_scan_spec(a: Seq<i16>) -> Seq<i16> {
    Seq::new(64, |z: int| a[zigzag_natural()[z] as int])
}

/// The 64 coefficients of a block in zig-zag order, put back into natural order.
pub open spec fn zigzag_unscan_spec(a: Seq<i16>) -> Seq<i16> {
    Seq::new(64, |n: int| a[zigzag_position()[n] as int])
}

/// Reorders a block from natural order into zig-zag order.
pub fn zigzag_scan(block: &[i16; 64]) -> (r: [i16; 64])
    ensures
        r@ == zigzag_scan_spec(block@),
{
    let mut out: [i16; 64] = [0; 64];
    let mut z: usize = 0;
    while z < 64
        invariant
            z <= 64,
            out@.len() == 64,
            forall|k: int| 0 <= k < z ==> out@[k] == block@[zigzag_natural()[k] as int],
        decreases 64 - z,
    {
        let n = zigzag_natural_index(z);
        out.set(z, block[n]);
        z = z + 1;
    }
    assert(out@ =~= zigzag_scan_spec(block@));
    out
}

/// Reorders a block from zig-zag order back into natural order.
pub fn zigzag_unscan(block: &[i16; 64]) -> (r: [i16; 64])
    ensures
        r@ == zigzag_unscan_spec(block@),
{
    let mut out: [i16; 64] = [0; 64];
    let mut n: usize = 0;
    while n < 64
        invariant
            n <= 64,
            out@.len() == 64,
            forall|k: int| 0 <= k < n ==> out@[k] == block@[zigzag_position()[k] as int],
        decreases 64 - n,
    {
        let z = zigzag_position_index(n);
        out.set(n, block[z]);
        n = n + 1;
    }
    assert(out@ =~= zigzag_unscan_spec(block@));
    out
}

/// Reordering into zig-zag order and back, in either sequence, gives back any block
/// of 64 coefficients unchanged.
pub proof fn lemma_zigzag_round_trip(a: Seq<i16>)
    requires
        a.len() == 64,
    ensures
        zigzag_unscan_spec(zigzag_scan_spec(a)) == a,
        zigzag_scan_spec(zigzag_unscan_spec(a)) == a,
{
    lemma_zigzag_tables_inverse();
    assert(zigzag_unscan_spec(zigzag_scan_spec(a)) =~= a);
    assert(zigzag_scan_spec(zigzag_unscan_spec(a)) =~= a);
}

} // verus!
