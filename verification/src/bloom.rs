//! The Bloom filter: a bit array, a seeded hasher and the number of bits per item.

use vstd::prelude::*;

use crate::calc::{clamp_hash_count, clamp_spec, BITS_PER_CELL, MAX_HASH_COUNT, MIN_HASH_COUNT};
use crate::filter;
use crate::filter::{all_set, set_all, storage_fits};
use crate::xof::{words_as_bytes_mut, words_from_ne_bytes, Hasher, WORD_BYTES};

verus! {

/// How many bit positions an item is hashed to: the hash count, at most `MAX_HASH_COUNT`.
pub open spec fn index_count(hash_count: u8) -> nat {
    if hash_count < MAX_HASH_COUNT {
        hash_count as nat
    } else {
        MAX_HASH_COUNT as nat
    }
}

/// The bit indices of the item whose hashed bytes are `value`, for a hasher that has absorbed
/// `key`: the extendable output of `key + value`, read as `index_count(hash_count)` words.
pub open spec fn indices_for<H: Hasher>(key: Seq<u8>, value: Seq<u8>, hash_count: u8) -> Seq<usize> {
    words_from_ne_bytes(
        H::output(key + value, index_count(hash_count) * (WORD_BYTES as nat)),
        index_count(hash_count),
    )
}

/// The item whose hashed bytes are `value` is (probably) held by the bit array `cells` of a
/// filter whose hasher absorbed `key` and which sets `hash_count` bits per item.
pub open spec fn holds_item<H: Hasher>(cells: Seq<usize>, key: Seq<u8>, hash_count: u8, value: Seq<u8>) -> bool {
    all_set(cells, indices_for::<H>(key, value, hash_count))
}

/// The bit array `cells` after the item whose hashed bytes are `value` is inserted.
pub open spec fn insert_item<H: Hasher>(cells: Seq<usize>, key: Seq<u8>, hash_count: u8, value: Seq<u8>) -> Seq<
    usize,
> {
    set_all(cells, indices_for::<H>(key, value, hash_count))
}

/// The bit array `cells` after the items `values` are inserted, first to last.
pub open spec fn insert_items<H: Hasher>(
    cells: Seq<usize>,
    key: Seq<u8>,
    hash_count: u8,
    values: Seq<Seq<u8>>,
) -> Seq<usize>
    decreases values.len(),
{
    if values.len() == 0 {
        cells
    } else {
        insert_item::<H>(
            insert_items::<H>(cells, key, hash_count, values.drop_last()),
            key,
            hash_count,
            values.last(),
        )
    }
}

/// `index_count(hash_count)` zeroed words.
fn zero_indices(hash_count: u8) -> (r: Vec<usize>)
    ensures
        r@ == Seq::new(index_count(hash_count), |i: int| 0usize),
{
    let n: u8 = if hash_count < MAX_HASH_COUNT {
        hash_count
    } else {
        MAX_HASH_COUNT
    };
    let mut indices: Vec<usize> = Vec::new();
    let mut i: u8 = 0;
    while i < n
        invariant
            i <= n,
            n == index_count(hash_count),
            indices@ == Seq::new(i as nat, |j: int| 0usize),
        decreases n - i,
    {
        indices.push(0);
        i = i + 1;
    }
    indices
}

/// The bit indices of the item whose hashed bytes are `value`.
pub fn calc_indices<H: Hasher>(value: &[u8], hasher: &H, hash_count: u8) -> (r: Vec<usize>)
    ensures
        r@ == indices_for::<H>(hasher.absorbed(), value@, hash_count),
        r@.len() == if hash_count < 32 {
            hash_count as int
        } else {
            32
        },
{
    let mut indices = zero_indices(hash_count);
    let mut h = hasher.duplicate();
    h.update(value);
    let bytes = words_as_bytes_mut(indices.as_mut_slice());
    h.finalize_xof_into(bytes);
    indices
}

/// Storage that a filter can be made over: `size` cells, all bits clear.
pub trait BuildableStorage: Sized {
    /// The cells of the storage.
    spec fn cell_values(&self) -> Seq<usize>;

    /// Storage of `size` cells, all zero.
    fn new_storage(size: usize) -> (s: Self)
        requires
            size >= 1,
        ensures
            s.cell_values() == Seq::new(size as nat, |i: int| 0usize),
    ;
}

impl BuildableStorage for Vec<usize> {
    open spec fn cell_values(&self) -> Seq<usize> {
        self@
    }

    fn new_storage(size: usize) -> (s: Self) {
        let mut storage: Vec<usize> = Vec::with_capacity(size);
        let mut i: usize = 0;
        while i < size
            invariant
                i <= size,
                storage@ == Seq::new(i as nat, |j: int| 0usize),
            decreases size - i,
        {
            storage.push(0);
            i = i + 1;
        }
        storage
    }
}

/// A Bloom filter over a bit array of `usize` cells, whose bit positions come from the
/// extendable output of a seeded hasher (BLAKE3 by default).
pub struct CustomBloom<H> {
    storage: Vec<usize>,
    hasher: H,
    hash_count: u8,
}

impl<H> CustomBloom<H> {
    /// A filter hashes every item to at least one bit.
    #[verifier::type_invariant]
    spec fn hash_count_is_positive(self) -> bool {
        self.hash_count >= 1
    }

}

impl<H: Hasher> CustomBloom<H> {
    /// The cells of the bit array.
    pub closed spec fn cells(&self) -> Seq<usize> {
        self.storage@
    }

    /// The bytes the hasher absorbed before any item: its seed.
    pub closed spec fn key(&self) -> Seq<u8> {
        self.hasher.absorbed()
    }

    /// The number of bits per item that the filter was made with.
    pub closed spec fn hash_count(&self) -> u8 {
        self.hash_count
    }

    /// The filter (probably) holds the item whose hashed bytes are `value`.
    pub open spec fn holds(&self, value: Seq<u8>) -> bool {
        holds_item::<H>(self.cells(), self.key(), self.hash_count(), value)
    }

    /// A filter over `storage` that hashes with `hasher` and sets `hash_count` bits per item.
    pub fn new_with_hash_count(hash_count: u8, storage: Vec<usize>, hasher: H) -> (r: Self)
        requires
            hash_count >= 1,
        ensures
            r.hash_count() == hash_count,
            r.cells() == storage@,
            r.key() == hasher.absorbed(),
    {
        CustomBloom { storage, hasher, hash_count }
    }

    /// A filter over `storage` that hashes with `hasher`, for the estimated number of bits per
    /// item `hash_estimate` (the rounded-up optimum for the storage size and the expected item
    /// count), clamped to `MIN_HASH_COUNT ..= MAX_HASH_COUNT`.
    pub fn new_with_storage(storage: Vec<usize>, hasher: H, hash_estimate: u8) -> (r: Self)
        ensures
            r.hash_count() == clamp_spec(
                hash_estimate as int,
                MIN_HASH_COUNT as int,
                MAX_HASH_COUNT as int,
            ),
            1 <= hash_estimate <= 32 ==> r.hash_count() == hash_estimate,
            hash_estimate == 0 ==> r.hash_count() == 1,
            hash_estimate > 32 ==> r.hash_count() == 32,
            r.cells() == storage@,
            r.key() == hasher.absorbed(),
    {
        let hash_count = clamp_hash_count(hash_estimate);
        Self::new_with_hash_count(hash_count, storage, hasher)
    }

    /// The hash count, the storage and the hasher, taken apart.
    pub fn deconstruct(self) -> (r: (u8, Vec<usize>, H))
        ensures
            r.0 == self.hash_count(),
            r.0 >= 1,
            r.1@ == self.cells(),
            r.2.absorbed() == self.key(),
    {
        proof {
            use_type_invariant(&self);
        }
        let CustomBloom { storage, hasher, hash_count } = self;
        (hash_count, storage, hasher)
    }

    /// Inserts the item whose hashed bytes are `value`, and tells whether it was (probably)
    /// held already.
    pub fn insert(&mut self, value: &[u8]) -> (r: bool)
        requires
            storage_fits(old(self).cells()),
        ensures
            r == old(self).holds(value@),
            r == all_set(
                old(self).cells(),
                indices_for::<H>(old(self).key(), value@, old(self).hash_count()),
            ),
            final(self).cells() == insert_item::<H>(
                old(self).cells(),
                old(self).key(),
                old(self).hash_count(),
                value@,
            ),
            final(self).key() == old(self).key(),
            final(self).hash_count() == old(self).hash_count(),
    {
        proof {
            use_type_invariant(&*self);
        }
        let indices = calc_indices(value, &self.hasher, self.hash_count);
        let mut storage: Vec<usize> = Vec::new();
        std::mem::swap(&mut storage, &mut self.storage);
        let r = filter::insert(storage.as_mut_slice(), indices.as_slice());
        self.storage = storage;
        r
    }

    /// Tells whether the storage can be used as a bit array: it has a cell, and all its bits can
    /// be numbered by a `usize`.
    pub fn is_usable(&self) -> (r: bool)
        ensures
            r == storage_fits(self.cells()),
    {
        let n = self.storage.len();
        proof {
            assert(n <= usize::MAX / BITS_PER_CELL <==> n * BITS_PER_CELL <= usize::MAX)
                by (nonlinear_arith)
                requires
                    BITS_PER_CELL > 0,
            ;
        }
        n > 0 && n <= usize::MAX / BITS_PER_CELL
    }

    /// Tells whether the item whose hashed bytes are `value` is (probably) held.
    pub fn contains(&self, value: &[u8]) -> (r: bool)
        requires
            storage_fits(self.cells()),
        ensures
            r == self.holds(value@),
            r == all_set(self.cells(), indices_for::<H>(self.key(), value@, self.hash_count())),
    {
        let indices = calc_indices(value, &self.hasher, self.hash_count);
        filter::contains(self.storage.as_slice(), indices.as_slice())
    }

    /// A filter that reads the same storage, with a copy of the hasher.
    pub fn share(&self) -> (r: SliceBloom<'_, H>)
        ensures
            r.cells() == self.cells(),
            r.key() == self.key(),
            r.hash_count() == self.hash_count(),
    {
        proof {
            use_type_invariant(self);
        }
        SliceBloom {
            storage: self.storage.as_slice(),
            hasher: self.hasher.duplicate(),
            hash_count: self.hash_count,
        }
    }
}

impl<H: Hasher> Clone for CustomBloom<H> {
    /// A filter with a copy of the storage and of the hasher.
    fn clone(&self) -> (r: Self)
        ensures
            r.cells() == self.cells(),
            r.key() == self.key(),
            r.hash_count() == self.hash_count(),
    {
        proof {
            use_type_invariant(self);
        }
        CustomBloom {
            storage: self.storage.clone(),
            hasher: self.hasher.duplicate(),
            hash_count: self.hash_count,
        }
    }
}

/// A Bloom filter that reads storage it borrows.
pub struct SliceBloom<'a, H> {
    storage: &'a [usize],
    hasher: H,
    hash_count: u8,
}

impl<'a, H> SliceBloom<'a, H> {
    /// A filter hashes every item to at least one bit.
    #[verifier::type_invariant]
    spec fn hash_count_is_positive(self) -> bool {
        self.hash_count >= 1
    }

}

impl<'a, H: Hasher> SliceBloom<'a, H> {
    /// The cells of the bit array.
    pub closed spec fn cells(&self) -> Seq<usize> {
        self.storage@
    }

    /// The bytes the hasher absorbed before any item: its seed.
    pub closed spec fn key(&self) -> Seq<u8> {
        self.hasher.absorbed()
    }

    /// The number of bits per item that the filter was made with.
    pub closed spec fn hash_count(&self) -> u8 {
        self.hash_count
    }

    /// The filter (probably) holds the item whose hashed bytes are `value`.
    pub open spec fn holds(&self, value: Seq<u8>) -> bool {
        holds_item::<H>(self.cells(), self.key(), self.hash_count(), value)
    }

    /// Tells whether the storage can be used as a bit array: it has a cell, and all its bits can
    /// be numbered by a `usize`.
    pub fn is_usable(&self) -> (r: bool)
        ensures
            r == storage_fits(self.cells()),
    {
        let n = self.storage.len();
        proof {
            assert(n <= usize::MAX / BITS_PER_CELL <==> n * BITS_PER_CELL <= usize::MAX)
                by (nonlinear_arith)
                requires
                    BITS_PER_CELL > 0,
            ;
        }
        n > 0 && n <= usize::MAX / BITS_PER_CELL
    }

    /// Tells whether the item whose hashed bytes are `value` is (probably) held.
    pub fn contains(&self, value: &[u8]) -> (r: bool)
        requires
            storage_fits(self.cells()),
        ensures
            r == self.holds(value@),
            r == all_set(self.cells(), indices_for::<H>(self.key(), value@, self.hash_count())),
    {
        let indices = calc_indices(value, &self.hasher, self.hash_count);
        filter::contains(self.storage, indices.as_slice())
    }
}

impl<'a, H: Hasher> Clone for SliceBloom<'a, H> {
    /// A filter over the same storage, with a copy of the hasher.
    fn clone(&self) -> (r: Self)
        ensures
            r.cells() == self.cells(),
            r.key() == self.key(),
            r.hash_count() == self.hash_count(),
    {
        proof {
            use_type_invariant(self);
        }
        SliceBloom { storage: self.storage, hasher: self.hasher.duplicate(), hash_count: self.hash_count }
    }
}

} // verus!
