//! Sizing rules: the bounds that every cell count and hash count is clamped to.

use vstd::prelude::*;

verus! {

/// The number of bits in one storage cell.
pub const BITS_PER_CELL: usize = usize::BITS as usize;

/// The smallest number of cells a filter is sized with.
pub const MIN_CELL_COUNT: usize = 1;

/// The largest number of cells a filter is sized with: the number of cells whose bits can all
/// be addressed by an `isize`, rounded down to a multiple of 4096.
pub const MAX_CELL_COUNT: usize = ((isize::MAX as usize) / BITS_PER_CELL) & !0xfff;

/// The smallest number of hash bits per item.
pub const MIN_HASH_COUNT: u8 = 1;

/// The largest number of hash bits per item.
pub const MAX_HASH_COUNT: u8 = 32;

/// [`MAX_CELL_COUNT`] is at least [`MIN_CELL_COUNT`], and the bits of that many cells can all
/// be numbered by an `isize`.
pub proof fn lemma_max_cell_count()
    ensures
        MIN_CELL_COUNT <= MAX_CELL_COUNT,
        MAX_CELL_COUNT * BITS_PER_CELL <= isize::MAX,
{
    let q: usize = (isize::MAX as usize) / BITS_PER_CELL;
    assert(q & !0xfffusize <= q && (q & !0xfffusize) + 0xfff >= q) by (bit_vector);
    assert(q * BITS_PER_CELL <= isize::MAX) by (nonlinear_arith)
        requires
            q == (isize::MAX as usize) / BITS_PER_CELL,
            BITS_PER_CELL > 0,
            isize::MAX >= 0,
    ;
    if usize::BITS == 64 {
        assert(isize::MAX == 0x7fff_ffff_ffff_ffff);
        assert(BITS_PER_CELL == 64);
        assert((isize::MAX as usize) == 0x7fff_ffff_ffff_ffff);
        assert(q == 0x7fff_ffff_ffff_ffffint / 64);
    } else {
        assert(isize::MAX == 0x7fff_ffff);
        assert(BITS_PER_CELL == 32);
        assert((isize::MAX as usize) == 0x7fff_ffff);
        assert(q == 0x7fff_ffffint / 32);
    }
    assert(MAX_CELL_COUNT * BITS_PER_CELL <= q * BITS_PER_CELL) by (nonlinear_arith)
        requires
            MAX_CELL_COUNT <= q,
    ;
}

/// The clamp of `x` to the range `lo ..= hi`, in the order the bounds are tested.
pub open spec fn clamp_spec(x: int, lo: int, hi: int) -> int {
    if x <= lo {
        lo
    } else if x >= hi {
        hi
    } else {
        x
    }
}

/// A clamp leaves a value that lies in the range alone, and moves one outside it to the
/// nearer bound.
pub proof fn law_clamp(x: int, lo: int, hi: int)
    requires
        lo <= hi,
    ensures
        lo <= x <= hi ==> clamp_spec(x, lo, hi) == x,
        x < lo ==> clamp_spec(x, lo, hi) == lo,
        x > hi ==> clamp_spec(x, lo, hi) == hi,
        lo <= clamp_spec(x, lo, hi) <= hi,
{
}

/// Clamps a cell count to `MIN_CELL_COUNT ..= MAX_CELL_COUNT`.
pub fn clamp_cell_count(cell_count: usize) -> (r: usize)
    ensures
        r == clamp_spec(cell_count as int, MIN_CELL_COUNT as int, MAX_CELL_COUNT as int),
        MIN_CELL_COUNT <= r <= MAX_CELL_COUNT,
        r >= 1,
        MIN_CELL_COUNT <= cell_count <= MAX_CELL_COUNT ==> r == cell_count,
        cell_count < MIN_CELL_COUNT ==> r == MIN_CELL_COUNT,
        cell_count > MAX_CELL_COUNT ==> r == MAX_CELL_COUNT,
{
    proof {
        lemma_max_cell_count();
    }
    if cell_count <= MIN_CELL_COUNT {
        MIN_CELL_COUNT
    } else if cell_count >= MAX_CELL_COUNT {
        MAX_CELL_COUNT
    } else {
        cell_count
    }
}

/// Clamps a hash count to `MIN_HASH_COUNT ..= MAX_HASH_COUNT`.
pub fn clamp_hash_count(hash_count: u8) -> (r: u8)
    ensures
        r == clamp_spec(hash_count as int, MIN_HASH_COUNT as int, MAX_HASH_COUNT as int),
        MIN_HASH_COUNT <= r <= MAX_HASH_COUNT,
        r >= 1,
        1 <= hash_count <= 32 ==> r == hash_count,
        hash_count == 0 ==> r == 1,
        hash_count > 32 ==> r == 32,
{
    if hash_count <= MIN_HASH_COUNT {
        MIN_HASH_COUNT
    } else if hash_count >= MAX_HASH_COUNT {
        MAX_HASH_COUNT
    } else {
        hash_count
    }
}

} // verus!
