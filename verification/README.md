# xofbloom

A Bloom filter whose bit positions come from the extendable output of BLAKE3, verified with
Verus.

- `src/calc.rs`: the bounds that cell counts and hash counts are clamped to.
- `src/xof.rs`: the `Hasher` interface, BLAKE3 as its implementation, and the reading of
  output bytes as machine words.
- `src/filter.rs`: the bit array: setting and testing the bits that a list of indices names.
- `src/bloom.rs`: `CustomBloom`, `SliceBloom`, `BuildableStorage` and the computation of an
  item's bit indices.
- `src/laws.rs`: what holds of every filter: no false negatives, held items stay held, an
  insertion changes nothing exactly when the item was held, insertion is idempotent and its
  order does not matter.
- `app/`: the floating-point sizing formulas, hashing of Rust values through `Hash`, random
  seeding, and memory-mapped storage.
