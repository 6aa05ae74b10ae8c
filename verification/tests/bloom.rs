use xofbloom::bloom::{calc_indices, BuildableStorage, CustomBloom};
use xofbloom::calc::{MAX_CELL_COUNT, MAX_HASH_COUNT, MIN_CELL_COUNT, MIN_HASH_COUNT};
use xofbloom::filter;
use xofbloom::{clamp_cell_count, clamp_hash_count, Blake3, Hasher};

const WORD: usize = (usize::BITS / 8) as usize;

fn seeded(seed: &[u8]) -> Blake3 {
    let mut hasher = Blake3::new();
    hasher.update(seed);
    hasher
}

fn filter_with(cells: usize, hash_count: u8, seed: &[u8]) -> CustomBloom<Blake3> {
    CustomBloom::new_with_hash_count(hash_count, Vec::<usize>::new_storage(cells), seeded(seed))
}

fn reference_indices(seed: &[u8], value: &[u8], count: usize) -> Vec<usize> {
    let mut hasher = blake3::Hasher::new();
    hasher.update(seed);
    hasher.update(value);
    let mut bytes = vec![0u8; count * WORD];
    hasher.finalize_xof().fill(&mut bytes);
    bytes
        .chunks(WORD)
        .map(|chunk| {
            let mut word = [0u8; (usize::BITS / 8) as usize];
            word.copy_from_slice(chunk);
            usize::from_ne_bytes(word)
        })
        .collect()
}

#[test]
fn clamp_hash_count_bounds() {
    assert_eq!(clamp_hash_count(0), MIN_HASH_COUNT);
    assert_eq!(clamp_hash_count(1), 1);
    assert_eq!(clamp_hash_count(7), 7);
    assert_eq!(clamp_hash_count(31), 31);
    assert_eq!(clamp_hash_count(32), MAX_HASH_COUNT);
    assert_eq!(clamp_hash_count(200), 32);
    assert_eq!(clamp_hash_count(u8::MAX), 32);
}

#[test]
fn clamp_cell_count_bounds() {
    assert_eq!(clamp_cell_count(0), MIN_CELL_COUNT);
    assert_eq!(clamp_cell_count(1), 1);
    assert_eq!(clamp_cell_count(12345), 12345);
    assert_eq!(clamp_cell_count(usize::MAX), MAX_CELL_COUNT);
    assert_eq!(MAX_CELL_COUNT % 4096, 0);
    assert!(MAX_CELL_COUNT.checked_mul(usize::BITS as usize).unwrap() <= isize::MAX as usize);
    if usize::BITS == 64 {
        assert_eq!(MAX_CELL_COUNT, 0x1ff_ffff_ffff_f000);
    }
}

#[test]
fn new_storage_is_zeroed() {
    let storage = Vec::<usize>::new_storage(5);
    assert_eq!(storage, vec![0usize; 5]);
}

#[test]
fn indices_match_blake3_output() {
    let hasher = seeded(b"seed");
    let indices = calc_indices(b"hello", &hasher, 7);
    assert_eq!(indices, reference_indices(b"seed", b"hello", 7));
    assert!(indices.iter().any(|&i| i != 0));
}

#[test]
fn indices_are_capped_at_max_hash_count() {
    let hasher = seeded(b"");
    assert_eq!(calc_indices(b"x", &hasher, 1).len(), 1);
    assert_eq!(calc_indices(b"x", &hasher, 32).len(), 32);
    assert_eq!(calc_indices(b"x", &hasher, 33).len(), 32);
    assert_eq!(calc_indices(b"x", &hasher, 255).len(), 32);
    assert_eq!(calc_indices(b"x", &hasher, 255), reference_indices(b"", b"x", 32));
}

#[test]
fn indices_depend_on_seed_and_value() {
    let a = calc_indices(b"value", &seeded(b"one"), 4);
    let b = calc_indices(b"value", &seeded(b"two"), 4);
    let c = calc_indices(b"other", &seeded(b"one"), 4);
    assert_ne!(a, b);
    assert_ne!(a, c);
    assert_eq!(a, calc_indices(b"value", &seeded(b"one"), 4));
}

#[test]
fn seed_fed_in_pieces_is_the_same_seed() {
    let mut hasher = Blake3::new();
    hasher.update(b"se");
    hasher.update(b"ed");
    assert_eq!(calc_indices(b"v", &hasher, 5), calc_indices(b"v", &seeded(b"seed"), 5));
}

#[test]
fn filter_insert_sets_named_bits() {
    let bits = usize::BITS as usize;
    let mut storage = vec![0usize; 2];
    let was_held = filter::insert(&mut storage, &[0, bits + 1, 3]);
    assert!(!was_held);
    assert_eq!(storage, vec![0b1001, 0b10]);
    assert!(filter::insert(&mut storage, &[3, 0]));
    assert_eq!(storage, vec![0b1001, 0b10]);
}

#[test]
fn filter_indices_wrap_around() {
    let bits = usize::BITS as usize;
    let mut storage = vec![0usize; 2];
    assert!(!filter::insert(&mut storage, &[2 * bits + 5]));
    assert_eq!(storage, vec![1 << 5, 0]);
    assert!(filter::contains(&storage, &[5]));
    assert!(filter::contains(&storage, &[4 * bits + 5]));
    assert!(!filter::contains(&storage, &[6]));
}

#[test]
fn filter_insert_reports_duplicate_indices_once() {
    let mut storage = vec![0usize; 1];
    assert!(!filter::insert(&mut storage, &[7, 7]));
    assert_eq!(storage, vec![1 << 7]);
}

#[test]
fn filter_contains_of_no_indices() {
    let storage = vec![0usize; 1];
    assert!(filter::contains(&storage, &[]));
    assert!(!filter::contains(&storage, &[0]));
}

#[test]
fn filter_top_bit_of_a_cell() {
    let bits = usize::BITS as usize;
    let mut storage = vec![0usize; 1];
    assert!(!filter::insert(&mut storage, &[bits - 1]));
    assert_eq!(storage, vec![1usize << (bits - 1)]);
    assert!(filter::contains(&storage, &[bits - 1]));
}

#[test]
fn insert_then_contains() {
    let mut bloom = filter_with(16, 7, b"seed");
    assert!(!bloom.contains(b"hello"));
    assert!(!bloom.insert(b"hello"));
    assert!(bloom.contains(b"hello"));
    assert!(bloom.insert(b"hello"));
}

#[test]
fn insert_sets_the_bits_of_its_indices() {
    let mut bloom = filter_with(3, 4, b"k");
    bloom.insert(b"item");
    let (hash_count, storage, _) = bloom.deconstruct();
    assert_eq!(hash_count, 4);
    let mut expected = vec![0usize; 3];
    filter::insert(&mut expected, &reference_indices(b"k", b"item", 4));
    assert_eq!(storage, expected);
}

#[test]
fn every_inserted_item_is_held() {
    let mut bloom = filter_with(64, 5, b"words");
    let items: Vec<Vec<u8>> = (0..500u32).map(|i| format!("item-{i}").into_bytes()).collect();
    for item in &items {
        bloom.insert(item);
    }
    for item in &items {
        assert!(bloom.contains(item));
    }
}

#[test]
fn inserting_a_held_item_changes_nothing() {
    let mut bloom = filter_with(8, 3, b"s");
    bloom.insert(b"a");
    let before = bloom.clone().deconstruct().1;
    assert!(bloom.insert(b"a"));
    assert_eq!(bloom.deconstruct().1, before);
}

#[test]
fn insertion_order_does_not_matter() {
    let mut one = filter_with(4, 6, b"order");
    let mut two = filter_with(4, 6, b"order");
    one.insert(b"x");
    one.insert(b"y");
    two.insert(b"y");
    two.insert(b"x");
    assert_eq!(one.deconstruct().1, two.deconstruct().1);
}

#[test]
fn new_with_storage_clamps_the_estimate() {
    let bloom = CustomBloom::new_with_storage(vec![0usize; 2], seeded(b""), 0);
    assert_eq!(bloom.deconstruct().0, 1);
    let bloom = CustomBloom::new_with_storage(vec![0usize; 2], seeded(b""), 10);
    assert_eq!(bloom.deconstruct().0, 10);
    let bloom = CustomBloom::new_with_storage(vec![0usize; 2], seeded(b""), 99);
    assert_eq!(bloom.deconstruct().0, 32);
}

#[test]
fn deconstruct_gives_back_the_parts() {
    let storage = vec![1usize, 2, 3];
    let bloom = CustomBloom::new_with_hash_count(9, storage.clone(), seeded(b"seed"));
    let (hash_count, back, hasher) = bloom.deconstruct();
    assert_eq!(hash_count, 9);
    assert_eq!(back, storage);
    assert_eq!(calc_indices(b"v", &hasher, 3), calc_indices(b"v", &seeded(b"seed"), 3));
}

#[test]
fn shared_filter_answers_the_same() {
    let mut bloom = filter_with(8, 4, b"share");
    bloom.insert(b"in");
    let shared = bloom.share();
    assert!(shared.contains(b"in"));
    assert_eq!(shared.contains(b"out"), bloom.contains(b"out"));
    let copy = shared.clone();
    assert!(copy.contains(b"in"));
}

#[test]
fn few_false_positives() {
    let items = 1000usize;
    let mut bloom = filter_with(items * 10 / usize::BITS as usize + 1, 7, b"fp");
    for i in 0..items {
        bloom.insert(format!("in-{i}").as_bytes());
    }
    let false_positives = (0..items)
        .filter(|i| bloom.contains(format!("out-{i}").as_bytes()))
        .count();
    assert!(false_positives < items / 20);
}
