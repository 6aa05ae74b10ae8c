//! The bit array of a Bloom filter: setting and testing the bits that a list of indices names.

use vstd::prelude::*;

use crate::calc::BITS_PER_CELL;

verus! {

/// Storage of `cells` can be used as a bit array: it has a cell, and all of its bits can be
/// numbered by a `usize`.
pub open spec fn storage_fits(cells: Seq<usize>) -> bool {
    0 < cells.len() && cells.len() * BITS_PER_CELL <= usize::MAX
}

/// The number of bits in `cells`.
pub open spec fn total_bits(cells: Seq<usize>) -> int {
    cells.len() * BITS_PER_CELL
}

/// Bit `b` of `word`, counted from the least significant bit.
pub open spec fn word_bit(word: usize, b: int) -> bool {
    (word >> (b as usize)) & 1usize == 1usize
}

/// Bit `p` of the bit array: bit `p % BITS_PER_CELL` of cell `p / BITS_PER_CELL`.
pub open spec fn is_set(cells: Seq<usize>, p: int) -> bool {
    word_bit(cells[p / (BITS_PER_CELL as int)], p % (BITS_PER_CELL as int))
}

/// The bit that `index` names in `cells`: the index wrapped around the number of bits.
pub open spec fn position(cells: Seq<usize>, index: usize) -> int {
    index as int % total_bits(cells)
}

/// Every bit that `indices` names is set.
pub open spec fn all_set(cells: Seq<usize>, indices: Seq<usize>) -> bool {
    forall|i: int| 0 <= i < indices.len() ==> #[trigger] is_set(cells, position(cells, indices[i]))
}

/// `cells` with bit `p` set.
pub open spec fn set_bit(cells: Seq<usize>, p: int) -> Seq<usize> {
    let c = p / (BITS_PER_CELL as int);
    let b = p % (BITS_PER_CELL as int);
    cells.update(c, cells[c] | (1usize << (b as usize)))
}

/// `cells` with the bits that `indices` name set, one after the other.
pub open spec fn set_all(cells: Seq<usize>, indices: Seq<usize>) -> Seq<usize>
    decreases indices.len(),
{
    if indices.len() == 0 {
        cells
    } else {
        set_bit(set_all(cells, indices.drop_last()), position(cells, indices.last()))
    }
}

/// Some index of `indices` names bit `p`.
pub open spec fn named(cells: Seq<usize>, indices: Seq<usize>, p: int) -> bool {
    exists|i: int| 0 <= i < indices.len() && #[trigger] position(cells, indices[i]) == p
}

/// Every index names a bit of the array.
pub proof fn lemma_position(cells: Seq<usize>, index: usize)
    requires
        storage_fits(cells),
    ensures
        0 <= position(cells, index) < total_bits(cells),
{
    assert(total_bits(cells) > 0) by (nonlinear_arith)
        requires
            cells.len() > 0,
            BITS_PER_CELL > 0,
            total_bits(cells) == cells.len() * BITS_PER_CELL,
    ;
}

proof fn lemma_word_or_bit(w: usize, b: usize, c: usize)
    requires
        b < usize::BITS,
        c < usize::BITS,
    ensures
        ((w | (1usize << b)) >> c) & 1usize == 1usize <==> ((w >> c) & 1usize == 1usize || b == c),
{
    assert(((w | (1usize << b)) >> c) & 1usize == 1usize <==> ((w >> c) & 1usize == 1usize || b
        == c)) by (bit_vector)
        requires
            b < usize::BITS,
            c < usize::BITS,
    ;
}

proof fn lemma_word_mask(w: usize, b: usize)
    requires
        b < usize::BITS,
    ensures
        (w & (1usize << b)) != 0usize <==> (w >> b) & 1usize == 1usize,
{
    assert((w & (1usize << b)) != 0usize <==> (w >> b) & 1usize == 1usize) by (bit_vector)
        requires
            b < usize::BITS,
    ;
}

/// Setting bit `q` sets bit `q` and leaves every other bit as it was.
pub proof fn lemma_set_bit(cells: Seq<usize>, q: int, p: int)
    requires
        0 <= q < total_bits(cells),
        0 <= p < total_bits(cells),
    ensures
        set_bit(cells, q).len() == cells.len(),
        is_set(set_bit(cells, q), p) <==> (is_set(cells, p) || p == q),
{
    let bits = BITS_PER_CELL as int;
    assert(bits == usize::BITS);
    assert(0 <= q / bits < cells.len()) by (nonlinear_arith)
        requires
            0 <= q < cells.len() * bits,
            bits > 0,
    ;
    assert(0 <= p / bits < cells.len()) by (nonlinear_arith)
        requires
            0 <= p < cells.len() * bits,
            bits > 0,
    ;
    if p / bits == q / bits {
        lemma_word_or_bit(cells[q / bits], (q % bits) as usize, (p % bits) as usize);
        assert(p == q <==> p % bits == q % bits) by (nonlinear_arith)
            requires
                p / bits == q / bits,
                bits > 0,
        ;
    } else {
        assert(p != q);
    }
}

/// After the bits that `indices` name are set, a bit is set exactly when it was set before or
/// some index names it.
pub proof fn lemma_set_all(cells: Seq<usize>, indices: Seq<usize>, p: int)
    requires
        storage_fits(cells),
        0 <= p < total_bits(cells),
    ensures
        set_all(cells, indices).len() == cells.len(),
        is_set(set_all(cells, indices), p) <==> (is_set(cells, p) || named(cells, indices, p)),
    decreases indices.len(),
{
    if indices.len() > 0 {
        let prefix = indices.drop_last();
        let q = position(cells, indices.last());
        lemma_set_all(cells, prefix, p);
        lemma_set_all(cells, prefix, q);
        lemma_set_bit(set_all(cells, prefix), q, p);
        if named(cells, prefix, p) {
            let i = choose|i: int| 0 <= i < prefix.len() && #[trigger] position(cells, prefix[i]) == p;
            assert(indices[i] == prefix[i]);
        }
        if named(cells, indices, p) && p != q {
            let i = choose|i: int| 0 <= i < indices.len() && #[trigger] position(cells, indices[i]) == p;
            assert(i != indices.len() - 1);
            assert(prefix[i] == indices[i]);
        }
        if p == q {
            assert(position(cells, indices[indices.len() - 1]) == p);
        }
    }
}


/// The bits that `indices` name in cell `k` of a bit array of `bit_count` bits, as a mask.
pub open spec fn cell_mask(bit_count: int, indices: Seq<usize>, k: int) -> usize
    decreases indices.len(),
{
    if indices.len() == 0 {
        0usize
    } else {
        let p = indices.last() as int % bit_count;
        let m = cell_mask(bit_count, indices.drop_last(), k);
        if p / (BITS_PER_CELL as int) == k {
            m | (1usize << ((p % (BITS_PER_CELL as int)) as usize))
        } else {
            m
        }
    }
}

proof fn lemma_or_assoc(x: usize, m: usize, b: usize)
    ensures
        (x | m) | b == x | (m | b),
{
    assert((x | m) | b == x | (m | b)) by (bit_vector);
}

proof fn lemma_or_swap(x: usize, a: usize, b: usize)
    ensures
        (x | a) | b == (x | b) | a,
{
    assert((x | a) | b == (x | b) | a) by (bit_vector);
}

proof fn lemma_or_set_bit_noop(w: usize, b: usize)
    requires
        b < usize::BITS,
        (w >> b) & 1usize == 1usize,
    ensures
        w | (1usize << b) == w,
{
    assert(w | (1usize << b) == w) by (bit_vector)
        requires
            b < usize::BITS,
            (w >> b) & 1usize == 1usize,
    ;
}

/// Each cell after the bits that `indices` name are set is the cell before, or-ed with the mask
/// of the bits that `indices` name in it.
pub proof fn lemma_set_all_cells(cells: Seq<usize>, indices: Seq<usize>)
    requires
        storage_fits(cells),
    ensures
        set_all(cells, indices).len() == cells.len(),
        forall|k: int|
            0 <= k < cells.len() ==> #[trigger] set_all(cells, indices)[k] == cells[k] | cell_mask(
                total_bits(cells),
                indices,
                k,
            ),
    decreases indices.len(),
{
    if indices.len() == 0 {
        assert forall|k: int| 0 <= k < cells.len() implies #[trigger] set_all(cells, indices)[k]
            == cells[k] | cell_mask(total_bits(cells), indices, k) by {
            assert(cells[k] | 0usize == cells[k]) by (bit_vector);
        }
    } else {
        let prefix = indices.drop_last();
        lemma_set_all_cells(cells, prefix);
        let q = position(cells, indices.last());
        let bits = BITS_PER_CELL as int;
        lemma_position(cells, indices.last());
        assert(0 <= q / bits < cells.len()) by (nonlinear_arith)
            requires
                0 <= q < cells.len() * bits,
                bits > 0,
        ;
        assert forall|k: int| 0 <= k < cells.len() implies #[trigger] set_all(cells, indices)[k]
            == cells[k] | cell_mask(total_bits(cells), indices, k) by {
            if q / bits == k {
                lemma_or_assoc(
                    cells[k],
                    cell_mask(total_bits(cells), prefix, k),
                    1usize << ((q % bits) as usize),
                );
            }
        }
    }
}

/// Bits that are set stay set when more bits are set.
pub proof fn lemma_set_all_keeps(cells: Seq<usize>, indices: Seq<usize>, more: Seq<usize>)
    requires
        storage_fits(cells),
        all_set(cells, indices),
    ensures
        all_set(set_all(cells, more), indices),
{
    let after = set_all(cells, more);
    assert forall|i: int| 0 <= i < indices.len() implies #[trigger] is_set(
        after,
        position(after, indices[i]),
    ) by {
        let p = position(cells, indices[i]);
        assert(is_set(cells, p));
        lemma_position(cells, indices[i]);
        lemma_set_all(cells, more, p);
    }
}

/// After the bits that `indices` name are set, all of them are set.
pub proof fn lemma_set_all_sets(cells: Seq<usize>, indices: Seq<usize>)
    requires
        storage_fits(cells),
    ensures
        all_set(set_all(cells, indices), indices),
{
    let after = set_all(cells, indices);
    assert forall|i: int| 0 <= i < indices.len() implies #[trigger] is_set(
        after,
        position(after, indices[i]),
    ) by {
        let p = position(cells, indices[i]);
        lemma_position(cells, indices[i]);
        lemma_set_all(cells, indices, p);
        assert(named(cells, indices, p));
    }
}

/// Setting bits that are all set already changes nothing, and setting bits of which one is
/// clear changes something.
pub proof fn lemma_set_all_unchanged(cells: Seq<usize>, indices: Seq<usize>)
    requires
        storage_fits(cells),
    ensures
        set_all(cells, indices) == cells <==> all_set(cells, indices),
    decreases indices.len(),
{
    if all_set(cells, indices) {
        if indices.len() > 0 {
            let prefix = indices.drop_last();
            assert forall|i: int| 0 <= i < prefix.len() implies #[trigger] is_set(
                cells,
                position(cells, prefix[i]),
            ) by {
                assert(prefix[i] == indices[i]);
            }
            lemma_set_all_unchanged(cells, prefix);
            let q = position(cells, indices.last());
            let bits = BITS_PER_CELL as int;
            lemma_position(cells, indices.last());
            assert(is_set(cells, position(cells, indices[indices.len() - 1])));
            assert(0 <= q / bits < cells.len()) by (nonlinear_arith)
                requires
                    0 <= q < cells.len() * bits,
                    bits > 0,
            ;
            lemma_or_set_bit_noop(cells[q / bits], (q % bits) as usize);
            assert(set_bit(cells, q) =~= cells);
        }
    } else {
        let i = choose|i: int|
            0 <= i < indices.len() && !#[trigger] is_set(cells, position(cells, indices[i]));
        let p = position(cells, indices[i]);
        lemma_position(cells, indices[i]);
        lemma_set_all(cells, indices, p);
        assert(named(cells, indices, p));
        assert(is_set(set_all(cells, indices), p));
    }
}

/// Setting two lists of bits gives the same bit array in either order.
pub proof fn lemma_set_all_commutes(cells: Seq<usize>, a: Seq<usize>, b: Seq<usize>)
    requires
        storage_fits(cells),
    ensures
        set_all(set_all(cells, a), b) == set_all(set_all(cells, b), a),
{
    let ca = set_all(cells, a);
    let cb = set_all(cells, b);
    lemma_set_all_cells(cells, a);
    lemma_set_all_cells(cells, b);
    lemma_set_all_cells(ca, b);
    lemma_set_all_cells(cb, a);
    assert(total_bits(ca) == total_bits(cells) && total_bits(cb) == total_bits(cells));
    let ab = set_all(ca, b);
    let ba = set_all(cb, a);
    assert forall|k: int| 0 <= k < cells.len() implies #[trigger] ab[k] == ba[k] by {
        let ma = cell_mask(total_bits(cells), a, k);
        let mb = cell_mask(total_bits(cells), b, k);
        assert(ab[k] == ca[k] | cell_mask(total_bits(ca), b, k));
        assert(ba[k] == cb[k] | cell_mask(total_bits(cb), a, k));
        lemma_or_swap(cells[k], ma, mb);
    }
    assert(ab =~= ba);
}

/// The cell and the mask of the bit that `index` names, for a bit array of `total_bits` bits.
fn locate(index: usize, bit_count: usize, cells: Ghost<Seq<usize>>) -> (r: (usize, usize))
    requires
        storage_fits(cells@),
        bit_count == total_bits(cells@),
    ensures
        r.0 == position(cells@, index) / (BITS_PER_CELL as int),
        r.0 < cells@.len(),
        r.1 == 1usize << ((position(cells@, index) % (BITS_PER_CELL as int)) as usize),
        (position(cells@, index) % (BITS_PER_CELL as int)) < usize::BITS,
        0 <= position(cells@, index) < total_bits(cells@),
{
    assert(bit_count > 0) by (nonlinear_arith)
        requires
            bit_count == cells@.len() * BITS_PER_CELL,
            cells@.len() > 0,
            BITS_PER_CELL > 0,
    ;
    let idx = index % bit_count;
    let cell = idx / BITS_PER_CELL;
    let shift = idx % BITS_PER_CELL;
    assert(cell < cells@.len()) by (nonlinear_arith)
        requires
            idx < cells@.len() * BITS_PER_CELL,
            cell == idx / BITS_PER_CELL,
            BITS_PER_CELL > 0,
    ;
    (cell, 1usize << shift)
}

/// Sets the bits that `indices` name, and tells whether all of them were set already.
pub fn insert(storage: &mut [usize], indices: &[usize]) -> (r: bool)
    requires
        storage_fits(old(storage)@),
    ensures
        final(storage)@ == set_all(old(storage)@, indices@),
        r == all_set(old(storage)@, indices@),
{
    let ghost cells0 = storage@;
    let bit_count = storage.len() * BITS_PER_CELL;
    let mut result = true;
    let mut i: usize = 0;
    assert(indices@.take(0) =~= Seq::<usize>::empty());
    while i < indices.len()
        invariant
            storage_fits(cells0),
            bit_count == total_bits(cells0),
            i <= indices@.len(),
            storage@ == set_all(cells0, indices@.take(i as int)),
            result == all_set(cells0, indices@.take(i as int)),
        decreases indices@.len() - i,
    {
        let index = indices[i];
        let (cell, mask) = locate(index, bit_count, Ghost(cells0));
        let ghost p = position(cells0, index);
        let ghost prefix = indices@.take(i as int);
        proof {
            lemma_set_all(cells0, prefix, p);
        }
        let prev = storage[cell];
        storage[cell] = prev | mask;
        let was_set = (prev & mask) != 0;
        proof {
            let bits = BITS_PER_CELL as int;
            lemma_word_mask(prev, (p % bits) as usize);
            let next = indices@.take(i + 1);
            assert(next.drop_last() =~= prefix);
            assert(next.last() == index);
            assert(storage@ =~= set_bit(set_all(cells0, prefix), p));
            assert(storage@ == set_all(cells0, next));
            // the bit was set before exactly when it was set at the start or an earlier index
            // named it; in the latter case that earlier index already decided `result`
            assert(was_set == is_set(set_all(cells0, prefix), p));
            if named(cells0, prefix, p) {
                let j = choose|j: int| 0 <= j < prefix.len() && #[trigger] position(cells0, prefix[j]) == p;
                assert(result ==> is_set(cells0, position(cells0, prefix[j])));
            }
            assert(next[i as int] == index);
            if result && was_set {
                assert forall|j: int| 0 <= j < next.len() implies #[trigger] is_set(cells0, position(cells0, next[j])) by {
                    if j < i {
                        assert(next[j] == prefix[j]);
                    }
                }
            }
            if all_set(cells0, next) {
                assert forall|j: int| 0 <= j < prefix.len() implies #[trigger] is_set(cells0, position(cells0, prefix[j])) by {
                    assert(next[j] == prefix[j]);
                }
                assert(is_set(cells0, position(cells0, next[i as int])));
            }
        }
        result = result && was_set;
        i = i + 1;
    }
    assert(indices@.take(indices@.len() as int) =~= indices@);
    result
}

/// Tells whether all the bits that `indices` name are set.
pub fn contains(storage: &[usize], indices: &[usize]) -> (r: bool)
    requires
        storage_fits(storage@),
    ensures
        r == all_set(storage@, indices@),
{
    let bit_count = storage.len() * BITS_PER_CELL;
    let mut i: usize = 0;
    while i < indices.len()
        invariant
            storage_fits(storage@),
            bit_count == total_bits(storage@),
            i <= indices@.len(),
            forall|j: int| 0 <= j < i ==> #[trigger] is_set(storage@, position(storage@, indices@[j])),
        decreases indices@.len() - i,
    {
        let index = indices[i];
        let (cell, mask) = locate(index, bit_count, Ghost(storage@));
        proof {
            lemma_word_mask(storage@[cell as int], (position(storage@, index) % (BITS_PER_CELL as int)) as usize);
        }
        if (storage[cell] & mask) == 0 {
            assert(!is_set(storage@, position(storage@, indices@[i as int])));
            return false;
        }
        i = i + 1;
    }
    true
}

} // verus!
