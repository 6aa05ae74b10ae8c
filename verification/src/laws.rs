//! What holds of every filter: the promises of a Bloom filter, stated over the bit array.

use vstd::prelude::*;

use crate::bloom::{
    holds_item, index_count, indices_for, insert_item, insert_items, CustomBloom, SliceBloom,
};
use crate::calc::BITS_PER_CELL;
use crate::xof::Hasher;
use crate::filter::{
    lemma_set_all_cells, lemma_set_all_commutes, lemma_set_all_keeps, lemma_set_all_sets,
    lemma_set_all_unchanged, lemma_set_all_sets as lemma_sets, storage_fits, all_set, set_all,
    position, lemma_position,
};

verus! {

/// Inserting an item keeps the number of cells, so a bit array that can be used stays usable.
pub proof fn law_insert_keeps_storage<H: Hasher>(cells: Seq<usize>, key: Seq<u8>, hash_count: u8, value: Seq<u8>)
    requires
        storage_fits(cells),
    ensures
        insert_item::<H>(cells, key, hash_count, value).len() == cells.len(),
        storage_fits(insert_item::<H>(cells, key, hash_count, value)),
{
    lemma_set_all_cells(cells, indices_for::<H>(key, value, hash_count));
}

/// An item that is held stays held, whatever is inserted after it.
pub proof fn law_held_stays_held<H: Hasher>(
    cells: Seq<usize>,
    key: Seq<u8>,
    hash_count: u8,
    value: Seq<u8>,
    other: Seq<u8>,
)
    requires
        storage_fits(cells),
        holds_item::<H>(cells, key, hash_count, value),
    ensures
        holds_item::<H>(insert_item::<H>(cells, key, hash_count, other), key, hash_count, value),
{
    lemma_set_all_keeps(
        cells,
        indices_for::<H>(key, value, hash_count),
        indices_for::<H>(key, other, hash_count),
    );
}

/// No false negatives: after a list of items is inserted, every one of them is held.
pub proof fn law_inserted_items_are_held<H: Hasher>(
    cells: Seq<usize>,
    key: Seq<u8>,
    hash_count: u8,
    values: Seq<Seq<u8>>,
    i: int,
)
    requires
        storage_fits(cells),
        0 <= i < values.len(),
    ensures
        holds_item::<H>(insert_items::<H>(cells, key, hash_count, values), key, hash_count, values[i]),
    decreases values.len(),
{
    let prefix = values.drop_last();
    let before = insert_items::<H>(cells, key, hash_count, prefix);
    lemma_insert_items_keeps_storage::<H>(cells, key, hash_count, prefix);
    if i == values.len() - 1 {
        lemma_set_all_sets(before, indices_for::<H>(key, values[i], hash_count));
    } else {
        law_inserted_items_are_held::<H>(cells, key, hash_count, prefix, i);
        assert(prefix[i] == values[i]);
        law_held_stays_held::<H>(before, key, hash_count, values[i], values.last());
    }
}

proof fn lemma_insert_items_keeps_storage<H: Hasher>(
    cells: Seq<usize>,
    key: Seq<u8>,
    hash_count: u8,
    values: Seq<Seq<u8>>,
)
    requires
        storage_fits(cells),
    ensures
        insert_items::<H>(cells, key, hash_count, values).len() == cells.len(),
    decreases values.len(),
{
    if values.len() > 0 {
        lemma_insert_items_keeps_storage::<H>(cells, key, hash_count, values.drop_last());
        law_insert_keeps_storage::<H>(
            insert_items::<H>(cells, key, hash_count, values.drop_last()),
            key,
            hash_count,
            values.last(),
        );
    }
}

/// An item is held exactly when inserting it changes no bit; so the answer of an insertion is
/// whether the filter was left as it was.
pub proof fn law_insert_changes_nothing_iff_held<H: Hasher>(
    cells: Seq<usize>,
    key: Seq<u8>,
    hash_count: u8,
    value: Seq<u8>,
)
    requires
        storage_fits(cells),
    ensures
        insert_item::<H>(cells, key, hash_count, value) == cells <==> holds_item::<H>(
            cells,
            key,
            hash_count,
            value,
        ),
{
    lemma_set_all_unchanged(cells, indices_for::<H>(key, value, hash_count));
}

/// Inserting an item twice is the same as inserting it once.
pub proof fn law_insert_idempotent<H: Hasher>(cells: Seq<usize>, key: Seq<u8>, hash_count: u8, value: Seq<u8>)
    requires
        storage_fits(cells),
    ensures
        insert_item::<H>(insert_item::<H>(cells, key, hash_count, value), key, hash_count, value)
            == insert_item::<H>(cells, key, hash_count, value),
{
    let once = insert_item::<H>(cells, key, hash_count, value);
    law_insert_keeps_storage::<H>(cells, key, hash_count, value);
    lemma_set_all_sets(cells, indices_for::<H>(key, value, hash_count));
    law_insert_changes_nothing_iff_held::<H>(once, key, hash_count, value);
}

/// The order in which two items are inserted does not matter.
pub proof fn law_insert_order_irrelevant<H: Hasher>(
    cells: Seq<usize>,
    key: Seq<u8>,
    hash_count: u8,
    value: Seq<u8>,
    other: Seq<u8>,
)
    requires
        storage_fits(cells),
    ensures
        insert_item::<H>(insert_item::<H>(cells, key, hash_count, value), key, hash_count, other)
            == insert_item::<H>(insert_item::<H>(cells, key, hash_count, other), key, hash_count, value),
{
    lemma_set_all_commutes(
        cells,
        indices_for::<H>(key, value, hash_count),
        indices_for::<H>(key, other, hash_count),
    );
}

/// A filter holds an item exactly when every bit that the item's indices name is set, the
/// indices being those of its own key and its own hash count.
pub proof fn law_holds_is_membership<H: Hasher>(f: CustomBloom<H>, value: Seq<u8>)
    ensures
        f.holds(value) == all_set(f.cells(), indices_for::<H>(f.key(), value, f.hash_count())),
        f.holds(value) == (forall|i: int|
            0 <= i < indices_for::<H>(f.key(), value, f.hash_count()).len() ==> #[trigger]
            crate::filter::is_set(
                f.cells(),
                position(f.cells(), indices_for::<H>(f.key(), value, f.hash_count())[i]),
            )),
{
}

/// No false negatives for a filter: when `after` is `before` with `value` inserted (what
/// `CustomBloom::insert` leaves), `after` holds `value`, so `contains` answers `true` and a
/// second insertion answers `true`.
pub proof fn law_insert_then_contains<H: Hasher>(
    before: CustomBloom<H>,
    after: CustomBloom<H>,
    value: Seq<u8>,
)
    requires
        storage_fits(before.cells()),
        after.cells() == insert_item::<H>(before.cells(), before.key(), before.hash_count(), value),
        after.key() == before.key(),
        after.hash_count() == before.hash_count(),
    ensures
        after.holds(value),
        all_set(after.cells(), indices_for::<H>(after.key(), value, after.hash_count())),
{
    lemma_sets(before.cells(), indices_for::<H>(before.key(), value, before.hash_count()));
}

/// A shared view over the same storage, key and hash count holds exactly what the filter holds.
pub proof fn law_share_agrees<H: Hasher>(f: CustomBloom<H>, s: SliceBloom<'_, H>, value: Seq<u8>)
    requires
        s.cells() == f.cells(),
        s.key() == f.key(),
        s.hash_count() == f.hash_count(),
    ensures
        s.holds(value) == f.holds(value),
        s.holds(value) == all_set(s.cells(), indices_for::<H>(s.key(), value, s.hash_count())),
{
}

/// An item is hashed to `min(hash_count, 32)` bit indices.
pub proof fn law_index_count<H: Hasher>(key: Seq<u8>, value: Seq<u8>, hash_count: u8)
    ensures
        indices_for::<H>(key, value, hash_count).len() == if hash_count <= 32 {
            hash_count as int
        } else {
            32
        },
        index_count(hash_count) == if hash_count <= 32 {
            hash_count as int
        } else {
            32
        },
{
}

/// An index names the bit `index % (number of cells · bits per cell)`, and every bit of every
/// cell is named by some index (its own number).
pub proof fn law_position(cells: Seq<usize>, index: usize, p: int)
    requires
        storage_fits(cells),
    ensures
        position(cells, index) == index as int % (cells.len() * BITS_PER_CELL),
        0 <= position(cells, index) < cells.len() * BITS_PER_CELL,
        0 <= p < cells.len() * BITS_PER_CELL ==> position(cells, p as usize) == p,
{
    lemma_position(cells, index);
    if 0 <= p < cells.len() * BITS_PER_CELL {
        vstd::arithmetic::div_mod::lemma_small_mod(p as nat, (cells.len() * BITS_PER_CELL) as nat);
    }
}

/// Inserting one index sets bit `p % BITS_PER_CELL` of cell `p / BITS_PER_CELL`, where
/// `p = index % (number of cells · bits per cell)`, and leaves every other cell as it was.
pub proof fn law_insert_one_index(cells: Seq<usize>, index: usize)
    requires
        storage_fits(cells),
    ensures
        ({
            let p = index as int % (cells.len() * BITS_PER_CELL);
            let c = p / (BITS_PER_CELL as int);
            let b = p % (BITS_PER_CELL as int);
            set_all(cells, seq![index]) == cells.update(c, cells[c] | (1usize << (b as usize)))
        }),
{
    let idx = seq![index];
    assert(idx.drop_last() =~= Seq::<usize>::empty());
    assert(idx.last() == index);
    assert(set_all(cells, idx.drop_last()) == cells);
}

/// One index is held exactly when bit `p % BITS_PER_CELL` of cell `p / BITS_PER_CELL` is set,
/// where `p = index % (number of cells · bits per cell)`.
pub proof fn law_contains_one_index(cells: Seq<usize>, index: usize)
    requires
        storage_fits(cells),
    ensures
        ({
            let p = index as int % (cells.len() * BITS_PER_CELL);
            let c = p / (BITS_PER_CELL as int);
            let b = p % (BITS_PER_CELL as int);
            all_set(cells, seq![index]) == ((cells[c] >> (b as usize)) & 1usize == 1usize)
        }),
{
    let idx = seq![index];
    assert(idx[0] == index);
    let q = position(cells, idx[0]);
    if all_set(cells, idx) {
        assert(crate::filter::is_set(cells, q));
    }
    if crate::filter::is_set(cells, q) {
        assert forall|i: int| 0 <= i < idx.len() implies #[trigger] crate::filter::is_set(
            cells,
            position(cells, idx[i]),
        ) by {
            assert(i == 0);
        }
    }
}

} // verus!
