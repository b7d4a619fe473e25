//! Packing of integer cell coordinates into a single hash key.
//!
//! A grid cell is addressed by a pair of `i32` coordinates. The pair is
//! packed into one `u64` so the cell table can be keyed by a primitive
//! integer; the packing is proved injective and invertible, so nothing is
//! lost by it.

use vstd::prelude::*;

verus! {

/// The `u64` code of the cell coordinate pair `key`: the x coordinate in
/// the high 32 bits, the y coordinate in the low 32 bits.
pub open spec fn cell_code(key: (i32, i32)) -> u64 {
    (((key.0 as u32) as u64) << 32) | ((key.1 as u32) as u64)
}

/// The x coordinate packed into `code`.
pub open spec fn code_x(code: u64) -> i32 {
    ((code >> 32) as u32) as i32
}

/// The y coordinate packed into `code`.
pub open spec fn code_y(code: u64) -> i32 {
    (code as u32) as i32
}

/// Distinct coordinate pairs receive distinct codes.
pub proof fn lemma_cell_code_injective(a: (i32, i32), b: (i32, i32))
    ensures
        cell_code(a) == cell_code(b) ==> a == b,
{
    let (ax, ay) = a;
    let (bx, by) = b;
    assert(((((ax as u32) as u64) << 32) | ((ay as u32) as u64)) == ((((bx as u32) as u64) << 32)
        | ((by as u32) as u64)) ==> ax == bx && ay == by) by (bit_vector);
}

/// Decoding a packed code recovers both coordinates exactly.
pub proof fn lemma_cell_code_roundtrip(key: (i32, i32))
    ensures
        code_x(cell_code(key)) == key.0,
        code_y(cell_code(key)) == key.1,
{
    let (kx, ky) = key;
    assert((((((((kx as u32) as u64) << 32) | ((ky as u32) as u64)) >> 32) as u32) as i32) == kx)
        by (bit_vector);
    assert(((((((kx as u32) as u64) << 32) | ((ky as u32) as u64)) as u32) as i32) == ky)
        by (bit_vector);
}

/// Packs a cell coordinate pair into its `u64` code.
pub fn encode_cell_key(key: (i32, i32)) -> (code: u64)
    ensures
        code == cell_code(key),
{
    (((key.0 as u32) as u64) << 32) | ((key.1 as u32) as u64)
}

/// Unpacks a `u64` code back into the cell coordinate pair.
pub fn decode_cell_key(code: u64) -> (key: (i32, i32))
    ensures
        key == (code_x(code), code_y(code)),
        cell_code(key) == code,
{
    proof {
        assert((((((((code >> 32) as u32) as i32) as u32) as u64) << 32) | ((((code as u32) as i32)
            as u32) as u64)) == code) by (bit_vector);
    }
    (((code >> 32) as u32) as i32, (code as u32) as i32)
}

} // verus!
