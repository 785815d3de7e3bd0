use vstd::prelude::*;

verus! {

/// Natural (row-major, `v * 8 + u`) index of each position of the zig-zag scan.
pub open spec fn zigzag_natural() -> Seq<usize> {
    seq![
        0usize, 1usize, 8usize, 16usize, 9usize, 2usize, 3usize, 10usize, 17usize,
        24usize, 32usize, 25usize, 18usize, 11usize, 4usize, 5usize, 12usize, 19usize,
        26usize, 33usize, 40usize, 48usize, 41usize, 34usize, 27usize, 20usize, 13usize,
        6usize, 7usize, 14usize, 21usize, 28usize, 35usize, 42usize, 49usize, 56usize,
        57usize, 50usize, 43usize, 36usize, 29usize, 22usize, 15usize, 23usize, 30usize,
        37usize, 44usize, 51usize, 58usize, 59usize, 52usize, 45usize, 38usize, 31usize,
        39usize, 46usize, 53usize, 60usize, 61usize, 54usize, 47usize, 55usize, 62usize,
        63usize,
    ]
}

/// Zig-zag position of each natural (row-major) index.
pub open spec fn zigzag_position() -> Seq<usize> {
    seq![
        0usize, 1usize, 5usize, 6usize, 14usize, 15usize, 27usize, 28usize, 2usize,
        4usize, 7usize, 13usize, 16usize, 26usize, 29usize, 42usize, 3usize, 8usize,
        12usize, 17usize, 25usize, 30usize, 41usize, 43usize, 9usize, 11usize, 18usize,
        24usize, 31usize, 40usize, 44usize, 53usize, 10usize, 19usize, 23usize, 32usize,
        39usize, 45usize, 52usize, 54usize, 20usize, 22usize, 33usize, 38usize, 46usize,
        51usize, 55usize, 60usize, 21usize, 34usize, 37usize, 47usize, 50usize, 56usize,
        59usize, 61usize, 35usize, 36usize, 48usize, 49usize, 57usize, 58usize, 62usize,
        63usize,
    ]
}

/// Default luma quantization table, in zig-zag order.
pub open spec fn y_quant_default() -> Seq<u8> {
    seq![
        16u8, 11u8, 12u8, 14u8, 12u8, 10u8, 16u8, 14u8, 13u8, 14u8, 18u8, 17u8, 16u8,
        19u8, 24u8, 40u8, 26u8, 24u8, 22u8, 22u8, 24u8, 49u8, 35u8, 37u8, 29u8, 40u8,
        58u8, 51u8, 61u8, 60u8, 57u8, 51u8, 56u8, 55u8, 64u8, 72u8, 92u8, 78u8, 64u8,
        68u8, 87u8, 69u8, 55u8, 56u8, 80u8, 109u8, 81u8, 87u8, 95u8, 98u8, 103u8, 104u8,
        103u8, 62u8, 77u8, 113u8, 121u8, 112u8, 100u8, 120u8, 92u8, 101u8, 103u8, 99u8,
    ]
}

/// Default chroma quantization table, in zig-zag order.
pub open spec fn uv_quant_default() -> Seq<u8> {
    seq![
        17u8, 18u8, 18u8, 24u8, 21u8, 24u8, 47u8, 26u8, 26u8, 47u8, 99u8, 66u8, 56u8,
        66u8, 99u8, 99u8, 99u8, 99u8, 99u8, 99u8, 99u8, 99u8, 99u8, 99u8, 99u8, 99u8,
        99u8, 99u8, 99u8, 99u8, 99u8, 99u8, 99u8, 99u8, 99u8, 99u8, 99u8, 99u8, 99u8,
        99u8, 99u8, 99u8, 99u8, 99u8, 99u8, 99u8, 99u8, 99u8, 99u8, 99u8, 99u8, 99u8,
        99u8, 99u8, 99u8, 99u8, 99u8, 99u8, 99u8, 99u8, 99u8, 99u8, 99u8, 99u8,
    ]
}

/// Whether `i` is one of the 64 indices of an 8x8 block, spelled out one by one
/// so that the solver can split a quantified goal on it.
pub open spec fn one_of_block_indices(i: int) -> bool {
    i == 0 || i == 1 || i == 2 || i == 3 || i == 4 || i == 5 || i == 6 || i == 7 || i == 8 || i == 9 || i == 10 || i == 11 || i == 12 || i == 13 || i == 14 || i == 15 || i == 16 || i == 17 || i == 18 || i == 19 || i == 20 || i == 21 || i == 22 || i == 23 || i == 24 || i == 25 || i == 26 || i == 27 || i == 28 || i == 29 || i == 30 || i == 31 || i == 32 || i == 33 || i == 34 || i == 35 || i == 36 || i == 37 || i == 38 || i == 39 || i == 40 || i == 41 || i == 42 || i == 43 || i == 44 || i == 45 || i == 46 || i == 47 || i == 48 || i == 49 || i == 50 || i == 51 || i == 52 || i == 53 || i == 54 || i == 55 || i == 56 || i == 57 || i == 58 || i == 59 || i == 60 || i == 61 || i == 62 || i == 63
}

pub proof fn lemma_block_indices_enumerated(i: int)
    requires
        0 <= i < 64,
    ensures
        one_of_block_indices(i),
{
}

/// The zig-zag tables are inverse permutations of `0..64`.
pub proof fn lemma_zigzag_tables_inverse()
    ensures
        zigzag_natural().len() == 64,
        zigzag_position().len() == 64,
        forall|z: int| 0 <= z < 64 ==> #[trigger] zigzag_natural()[z] < 64,
        forall|n: int| 0 <= n < 64 ==> #[trigger] zigzag_position()[n] < 64,
        forall|z: int|
            0 <= z < 64 ==> zigzag_position()[#[trigger] zigzag_natural()[z] as int] == z,
        forall|n: int|
            0 <= n < 64 ==> zigzag_natural()[#[trigger] zigzag_position()[n] as int] == n,
{
    assert forall|i: int| 0 <= i < 64 implies {
        &&& zigzag_natural()[i] < 64
        &&& zigzag_position()[i] < 64
        &&& zigzag_position()[zigzag_natural()[i] as int] == i
        &&& zigzag_natural()[zigzag_position()[i] as int] == i
    } by {
        lemma_block_indices_enumerated(i);
    }
}

/// Natural index of zig-zag position `z`.
pub fn zigzag_natural_index(z: usize) -> (r: usize)
    requires
        z < 64,
    ensures
        r == zigzag_natural()[z as int],
        r < 64,
{
    let t: [usize; 64] = [
        0, 1, 8, 16, 9, 2, 3, 10, 17, 24, 32, 25, 18, 11, 4, 5, 12, 19, 26, 33, 40, 48,
        41, 34, 27, 20, 13, 6, 7, 14, 21, 28, 35, 42, 49, 56, 57, 50, 43, 36, 29, 22, 15,
        23, 30, 37, 44, 51, 58, 59, 52, 45, 38, 31, 39, 46, 53, 60, 61, 54, 47, 55, 62,
        63,
    ];
    assert(t@ =~= zigzag_natural());
    proof {
        lemma_zigzag_tables_inverse();
    }
    t[z]
}

/// Zig-zag position of natural index `n`.
pub fn zigzag_position_index(n: usize) -> (r: usize)
    requires
        n < 64,
    ensures
        r == zigzag_position()[n as int],
        r < 64,
{
    let t: [usize; 64] = [
        0, 1, 5, 6, 14, 15, 27, 28, 2, 4, 7, 13, 16, 26, 29, 42, 3, 8, 12, 17, 25, 30,
        41, 43, 9, 11, 18, 24, 31, 40, 44, 53, 10, 19, 23, 32, 39, 45, 52, 54, 20, 22,
        33, 38, 46, 51, 55, 60, 21, 34, 37, 47, 50, 56, 59, 61, 35, 36, 48, 49, 57, 58,
        62, 63,
    ];
    assert(t@ =~= zigzag_position());
    proof {
        lemma_zigzag_tables_inverse();
    }
    t[n]
}

/// The default luma quantization table.
pub fn y_quant_default_table() -> (r: [u8; 64])
    ensures
        r@ == y_quant_default(),
{
    let t: [u8; 64] = [
        16, 11, 12, 14, 12, 10, 16, 14, 13, 14, 18, 17, 16, 19, 24, 40, 26, 24, 22, 22,
        24, 49, 35, 37, 29, 40, 58, 51, 61, 60, 57, 51, 56, 55, 64, 72, 92, 78, 64, 68,
        87, 69, 55, 56, 80, 109, 81, 87, 95, 98, 103, 104, 103, 62, 77, 113, 121, 112,
        100, 120, 92, 101, 103, 99,
    ];
    assert(t@ =~= y_quant_default());
    t
}

/// The default chroma quantization table.
pub fn uv_quant_default_table() -> (r: [u8; 64])
    ensures
        r@ == uv_quant_default(),
{
    let t: [u8; 64] = [
        17, 18, 18, 24, 21, 24, 47, 26, 26, 47, 99, 66, 56, 66, 99, 99, 99, 99, 99, 99,
        99, 99, 99, 99, 99, 99, 99, 99, 99, 99, 99, 99, 99, 99, 99, 99, 99, 99, 99, 99,
        99, 99, 99, 99, 99, 99, 99, 99, 99, 99, 99, 99, 99, 99, 99, 99, 99, 99, 99, 99,
        99, 99, 99, 99,
    ];
    assert(t@ =~= uv_quant_default());
    t
}

} // verus!
