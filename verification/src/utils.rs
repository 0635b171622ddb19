use vstd::prelude::*;

verus! {

/// Converts a row-major buffer index back into pixel coordinates:
/// the column is `index % width`, the row is `index / width`.
pub fn pos_from_index(index: usize, width: usize) -> (r: (usize, usize))
    requires
        width > 0,
    ensures
        r.0 == index as int % width as int,
        r.1 == index as int / width as int,
{
    let y = index / width;
    let x = index % width;
    (x, y)
}

/// Converts pixel coordinates into a row-major buffer index.
pub fn index_from_pos(x: usize, y: usize, width: usize) -> (r: usize)
    requires
        y * width + x <= usize::MAX,
    ensures
        r == y * width + x,
{
    (y * width) + x
}

/// Row-major indexing is a bijection on a grid: a pixel written at
/// `(y * width) + x` is read back at column `x`, row `y`.
pub proof fn lemma_index_pos_round_trip(x: int, y: int, width: int)
    requires
        0 <= x < width,
        0 <= y,
    ensures
        (y * width + x) % width == x,
        (y * width + x) / width == y,
{
    vstd::arithmetic::div_mod::lemma_fundamental_div_mod_converse(y * width + x, width, y, x);
}

} // verus!
