use valkey_cuckoo::error::CuckooError;
use valkey_cuckoo::filter::{CuckooFilter, FilterTable};
use valkey_cuckoo::limits::{CUCKOO_BUCKET_SIZE_DEFAULT, CUCKOO_MAX_KICKS_DEFAULT};
use valkey_cuckoo::object::{Attempt, CuckooObject};

const DEFAULT_BUCKET_SIZE: usize = CUCKOO_BUCKET_SIZE_DEFAULT;
const DEFAULT_MAX_KICKS: u32 = CUCKOO_MAX_KICKS_DEFAULT as u32;

/// A fresh table of `slots` empty slots, as the filter engine creates one.
fn fresh_table(slots: usize) -> FilterTable {
    FilterTable { buckets: vec![100; slots], len: 0, rng_word_pos: 0 }
}

fn reserved(capacity: i64, bucket_size: usize, max_kicks: u32, expansion: u32, slots: usize) -> CuckooObject {
    CuckooObject::new_reserved(capacity, bucket_size, max_kicks, expansion, false, 0, Some(slots), &fresh_table)
        .unwrap()
}

/// A reservation whose request the checks see first; the engine refuses
/// these configurations, so it names no allocation.
fn reserve(capacity: i64, bucket_size: usize) -> Result<CuckooObject, CuckooError> {
    CuckooObject::new_reserved(capacity, bucket_size, DEFAULT_MAX_KICKS, 0, false, 0, None, &fresh_table)
}

#[test]
fn test_bad_bucket_size() {
    let result = reserve(1000, 0);
    assert_eq!(result.err(), Some(CuckooError::BadBucketSize));

    let result = reserve(1000, 256);
    assert_eq!(result.err(), Some(CuckooError::BadBucketSize));
}

#[test]
fn test_bad_capacity() {
    let result = reserve(0, DEFAULT_BUCKET_SIZE);
    assert_eq!(result.err(), Some(CuckooError::BadCapacity));

    let result = reserve(-1, DEFAULT_BUCKET_SIZE);
    assert_eq!(result.err(), Some(CuckooError::BadCapacity));
}

#[test]
fn test_cuckoo_object_capacity_and_memory() {
    let co = reserved(1000, DEFAULT_BUCKET_SIZE, DEFAULT_MAX_KICKS, 2, 1024);

    assert_eq!(co.capacity(), 1000);
    assert_eq!(co.num_filters(), 1);
    assert!(co.memory_usage() > 0);
}

#[test]
fn size_overflow_is_rejected_even_when_local_limits_are_bypassed() {
    let object = reserved(32, 4, 20, 2, 32);
    // The engine refuses each of these configurations, so no allocation size exists.
    for (capacity, _bucket_size) in [(32_i64, 0_usize), (i64::MAX, 1), (-1, 4)] {
        assert_eq!(CuckooFilter::compute_size(capacity, None), usize::MAX);
        for validate_limit in [false, true] {
            assert!(CuckooObject::check_new_reserved(capacity, 4, 20, 2, validate_limit, usize::MAX, None)
                .is_err());
            assert_eq!(
                object.check_growth(capacity, None, validate_limit, usize::MAX),
                Err(CuckooError::ExceedsMaxSize)
            );
        }
    }
}

#[test]
fn capacity_ceiling_preserves_failed_insertion_state() {
    // A full subfilter whose requested capacity is modelled independently of
    // its four slots of backing storage.
    let filter = CuckooFilter::new(
        (1_i64 << 31) + 1,
        4,
        FilterTable { buckets: vec![7; 4], len: 4, rng_word_pos: 0 },
    );
    let object = CuckooObject::from_existing(2, 4, 20, vec![Box::new(filter)], 0);
    let before = object.encode_object();
    // No subfilter has a free slot, so growth decides; the arithmetic ceiling
    // applies whatever the local memory limit.
    assert!(object.insertion_plan().is_empty());
    assert_eq!(object.growth_capacity(), Err(CuckooError::MaxScalingCapacity));
    assert_eq!(object.encode_object(), before);
    assert_eq!(
        CuckooError::MaxScalingCapacity.as_str(),
        "ERR cuckoo object reached max capacity"
    );
}

#[test]
fn insertion_tries_free_slots_newest_first_then_evicts_in_newest() {
    let old = CuckooFilter::new(64, 4, fresh_table(64));
    let full = CuckooFilter::new(128, 4, FilterTable { buckets: vec![7; 128], len: 128, rng_word_pos: 0 });
    let newest = CuckooFilter::new(256, 4, fresh_table(256));
    let object = CuckooObject::from_existing(2, 4, 20, vec![Box::new(old), Box::new(full), Box::new(newest)], 0);
    assert_eq!(
        object.insertion_plan(),
        vec![Attempt::Direct(2), Attempt::Direct(0), Attempt::Evict(2)]
    );
    assert_eq!(object.deletion_plan(), vec![2, 1, 0]);
}

#[test]
fn full_newest_filter_gets_no_eviction_attempt() {
    let old = CuckooFilter::new(64, 4, fresh_table(64));
    let full = CuckooFilter::new(128, 4, FilterTable { buckets: vec![7; 128], len: 128, rng_word_pos: 5 });
    let object = CuckooObject::from_existing(2, 4, 20, vec![Box::new(old), Box::new(full)], 0);
    assert_eq!(object.insertion_plan(), vec![Attempt::Direct(0)]);
}

#[test]
fn successful_insertion_replaces_one_table() {
    let mut object = reserved(64, 4, 20, 2, 64);
    let mut buckets = vec![100; 64];
    buckets[5] = 42;
    object.apply_insert(0, FilterTable { buckets: buckets.clone(), len: 1, rng_word_pos: 3 });
    assert_eq!(object.num_items(), 1);
    assert_eq!(object.filters()[0].as_bytes(), buckets.as_slice());
    assert_eq!(object.filters()[0].snapshot_header(), [64, 1, 3, 0, 64]);
}

#[test]
fn growth_multiplies_newest_capacity_and_respects_limits() {
    let mut object = reserved(64, 4, 20, 2, 64);
    assert_eq!(object.growth_capacity(), Ok(128));
    let memory = object.memory_usage();
    assert_eq!(object.check_growth(128, Some(128), true, memory), Err(CuckooError::ExceedsMaxSize));
    assert_eq!(object.check_growth(128, Some(128), false, 0), Ok(()));
    object.push_filter(128, FilterTable { buckets: vec![100; 128], len: 1, rng_word_pos: 0 });
    assert_eq!(object.num_filters(), 2);
    assert_eq!(object.capacity(), 64 + 128);
    assert_eq!(object.num_items(), 1);
    assert_eq!(object.starting_capacity(), 64);
    assert_eq!(object.growth_capacity(), Ok(256));

    let fixed = reserved(64, 4, 20, 0, 64);
    assert_eq!(fixed.growth_capacity(), Err(CuckooError::NonScalingFilterFull));
}

#[test]
fn filter_count_limit_stops_growth() {
    let mut filters = Vec::new();
    for _ in 0..1024 {
        filters.push(Box::new(CuckooFilter::new(64, 4, fresh_table(64))));
    }
    let object = CuckooObject::from_existing(2, 4, 1, filters, 0);
    assert_eq!(object.growth_capacity(), Err(CuckooError::MaxNumScalingFilters));
    assert_eq!(object.free_effort(), 1024);
}

#[test]
fn deletion_count_saturates() {
    let filter = CuckooFilter::new(32, 4, FilterTable { buckets: vec![9; 32], len: 2, rng_word_pos: 0 });
    let mut object = CuckooObject::from_existing(2, 4, 20, vec![Box::new(filter)], i64::MAX as u64 - 1);
    assert_eq!(object.finish_delete(None), 0);
    assert_eq!(object.num_deleted(), i64::MAX - 1);
    let table = FilterTable { buckets: vec![9; 32], len: 1, rng_word_pos: 0 };
    assert_eq!(object.finish_delete(Some((0, table))), 1);
    assert_eq!(object.num_deleted(), i64::MAX);
    let table = FilterTable { buckets: vec![9; 32], len: 0, rng_word_pos: 0 };
    assert_eq!(object.finish_delete(Some((0, table))), 1);
    assert_eq!(object.num_deleted(), i64::MAX);
    assert_eq!(object.num_items(), 0);
}

#[test]
fn copy_keeps_every_subfilter_and_the_deletion_count() {
    let filter = CuckooFilter::new(32, 4, FilterTable { buckets: vec![3; 32], len: 7, rng_word_pos: 291 });
    let object = CuckooObject::from_existing(2, 4, 20, vec![Box::new(filter)], 1);
    let copy = CuckooObject::create_copy_from(&object);
    assert_eq!(copy.encode_object(), object.encode_object());
    assert_eq!(copy.num_deleted(), 1);
    assert_eq!(copy.num_items(), object.num_items());
    assert_eq!(copy.capacity(), object.capacity());
}

#[test]
fn counts_and_membership_combine_subfilter_reports() {
    let a = CuckooFilter::new(32, 4, FilterTable { buckets: vec![3; 32], len: 5, rng_word_pos: 0 });
    let b = CuckooFilter::new(64, 4, FilterTable { buckets: vec![3; 64], len: 9, rng_word_pos: 0 });
    let object = CuckooObject::from_existing(2, 4, 20, vec![Box::new(a), Box::new(b)], 0);
    assert_eq!(object.count_item_from(&vec![2, 3]), 5);
    assert_eq!(object.count_item_from(&vec![0, 0]), 0);
    assert!(object.item_exists_from(&vec![false, true]));
    assert!(!object.item_exists_from(&vec![false, false]));
}

#[test]
fn realloc_buckets_keeps_every_subfilter() {
    let mut filter = CuckooFilter::new(64, 2, FilterTable { buckets: vec![3, 100, 5, 100], len: 2, rng_word_pos: 9 });
    filter.realloc_buckets(|buckets: Vec<u8>| buckets.iter().copied().collect());
    assert_eq!(filter.as_bytes(), &[3, 100, 5, 100]);
    assert_eq!(filter.num_items(), 2);
    assert_eq!(filter.table().rng_word_pos, 9);

    let mut object = reserved(64, 2, 20, 2, 4);
    object.push_filter(128, FilterTable { buckets: vec![1, 100, 100, 100, 100, 100, 100, 100], len: 1, rng_word_pos: 3 });
    let before = object.encode_object();
    object.realloc_buckets(&|buckets: Vec<u8>| buckets.to_vec());
    assert_eq!(object.encode_object(), before);
    assert_eq!(object.num_filters(), 2);
}

#[test]
fn memory_limit_is_inclusive() {
    assert!(CuckooObject::validate_size(1024, 1024));
    assert!(CuckooObject::validate_size(0, 0));
    assert!(!CuckooObject::validate_size(1025, 1024));
}

#[test]
fn freed_slot_is_tried_directly_after_deletion() {
    // Two full subfilters: nothing can be stored without growing.
    let old = CuckooFilter::new(4, 2, FilterTable { buckets: vec![1, 2, 3, 4], len: 4, rng_word_pos: 0 });
    let new = CuckooFilter::new(8, 2, FilterTable { buckets: vec![5; 8], len: 8, rng_word_pos: 2 });
    let mut object = CuckooObject::from_existing(2, 2, 20, vec![Box::new(old), Box::new(new)], 0);
    assert!(object.insertion_plan().is_empty());
    // Deleting from the older subfilter frees one of its slots.
    let freed = FilterTable { buckets: vec![1, 100, 3, 4], len: 3, rng_word_pos: 0 };
    assert_eq!(object.finish_delete(Some((0, freed))), 1);
    assert_eq!(object.insertion_plan(), vec![Attempt::Direct(0)]);
    assert_eq!(object.num_deleted(), 1);
    assert_eq!(object.num_items(), 11);
}

/// Stand-in for the engine's insertion: the fingerprint goes to the first
/// empty slot; the eviction walk never finds room.
fn place(filter: &CuckooFilter, fingerprint: u8, evict: bool) -> Option<FilterTable> {
    if evict {
        return None;
    }
    let table = filter.table();
    let slot = table.buckets.iter().position(|&b| b == 100)?;
    let mut buckets = table.buckets.clone();
    buckets[slot] = fingerprint;
    Some(FilterTable { buckets, len: table.len + 1, rng_word_pos: table.rng_word_pos })
}

fn fresh_with(fingerprint: u8, bytes: usize) -> Option<FilterTable> {
    let mut buckets = vec![100; bytes];
    buckets[0] = fingerprint;
    Some(FilterTable { buckets, len: 1, rng_word_pos: 0 })
}

#[test]
fn batch_stops_at_the_first_error_and_keeps_earlier_items() {
    let mut object = reserved(4, 2, 20, 0, 4);
    let results = object.insert_batch(
        6,
        false,
        &|_: usize, _: &CuckooObject| false,
        &|i: usize, f: &CuckooFilter, e: bool| place(f, i as u8 + 1, e),
        &|c: i64| Some(c as usize),
        &|i: usize, _: i64, a: usize| fresh_with(i as u8 + 1, a),
        false,
        0,
    );
    assert_eq!(results, vec![Ok(1), Ok(1), Ok(1), Ok(1), Err(CuckooError::NonScalingFilterFull)]);
    assert_eq!(object.num_items(), 4);
    assert_eq!(object.filters()[0].as_bytes(), &[1, 2, 3, 4]);
}

#[test]
fn failed_insertion_leaves_the_object_unchanged() {
    let mut object = reserved(4, 2, 20, 0, 4);
    for i in 0..4 {
        let r = object.insert_with(
            0,
            &|_: usize, f: &CuckooFilter, e: bool| place(f, i + 1, e),
            &|c: i64| Some(c as usize),
            &|_: usize, _: i64, a: usize| fresh_with(i + 1, a),
            false,
            0,
        );
        assert_eq!(r, Ok(1));
    }
    let before = object.encode_object();
    let result = object.insert_with(
        0,
        &|_: usize, f: &CuckooFilter, e: bool| place(f, 9, e),
        &|c: i64| Some(c as usize),
        &|_: usize, _: i64, a: usize| fresh_with(9, a),
        false,
        0,
    );
    assert_eq!(result, Err(CuckooError::NonScalingFilterFull));
    assert_eq!(object.encode_object(), before);
}

#[test]
fn full_object_grows_by_one_subfilter_and_nx_skips_present_items() {
    let mut object = reserved(4, 2, 20, 2, 4);
    let results = object.insert_batch(
        6,
        true,
        &|i: usize, _: &CuckooObject| i == 1,
        &|i: usize, f: &CuckooFilter, e: bool| place(f, i as u8 + 1, e),
        &|c: i64| Some(c as usize),
        &|i: usize, _: i64, a: usize| fresh_with(i as u8 + 1, a),
        false,
        0,
    );
    assert_eq!(results, vec![Ok(1), Ok(0), Ok(1), Ok(1), Ok(1), Ok(1)]);
    assert_eq!(object.num_filters(), 2);
    assert_eq!(object.filters()[1].capacity(), 8);
    assert_eq!(object.filters()[1].as_bytes()[0], 6);
    assert_eq!(object.num_items(), 5);
}

#[test]
fn growth_respects_the_memory_limit() {
    let mut object = reserved(4, 2, 20, 2, 4);
    for i in 0..4 {
        let r = object.insert_with(
            0,
            &|_: usize, f: &CuckooFilter, e: bool| place(f, i + 1, e),
            &|c: i64| Some(c as usize),
            &|_: usize, _: i64, a: usize| fresh_with(i + 1, a),
            true,
            usize::MAX,
        );
        assert_eq!(r, Ok(1));
    }
    let limit = object.memory_usage();
    let result = object.insert_with(
        0,
        &|_: usize, f: &CuckooFilter, e: bool| place(f, 7, e),
        &|c: i64| Some(c as usize),
        &|_: usize, _: i64, a: usize| fresh_with(7, a),
        true,
        limit,
    );
    assert_eq!(result, Err(CuckooError::ExceedsMaxSize));
    assert_eq!(object.num_filters(), 1);
}

#[test]
fn reservation_is_empty_and_within_the_limit() {
    let object = CuckooObject::new_reserved(1000, 4, 20, 2, true, usize::MAX, Some(1024), &fresh_table).unwrap();
    assert_eq!(object.num_items(), 0);
    assert_eq!(object.capacity(), 1000);
    assert_eq!(object.num_deleted(), 0);
    let exact = object.memory_usage();
    assert!(CuckooObject::new_reserved(1000, 4, 20, 2, true, exact, Some(1024), &fresh_table).is_ok());
    assert_eq!(
        CuckooObject::new_reserved(1000, 4, 20, 2, true, exact - 1, Some(1024), &fresh_table).err(),
        Some(CuckooError::ExceedsMaxSize)
    );
    assert!(CuckooObject::new_reserved(1000, 4, 20, 2, false, 0, Some(1024), &fresh_table).is_ok());
}

/// Stand-in for the engine's deletion: removes the first slot holding the
/// fingerprint.
fn remove(filter: &CuckooFilter, fingerprint: u8) -> Option<FilterTable> {
    let table = filter.table();
    let slot = table.buckets.iter().position(|&b| b == fingerprint)?;
    let mut buckets = table.buckets.clone();
    buckets[slot] = 100;
    Some(FilterTable { buckets, len: table.len - 1, rng_word_pos: table.rng_word_pos })
}

#[test]
fn deletion_takes_the_newest_match_only() {
    let old = CuckooFilter::new(4, 2, FilterTable { buckets: vec![7, 100, 100, 100], len: 1, rng_word_pos: 0 });
    let new = CuckooFilter::new(8, 2, FilterTable { buckets: vec![5, 7, 100, 100, 100, 100, 100, 100], len: 2, rng_word_pos: 0 });
    let mut object = CuckooObject::from_existing(2, 2, 20, vec![Box::new(old), Box::new(new)], 0);
    assert_eq!(object.delete_with(&|f: &CuckooFilter| remove(f, 7)), 1);
    assert_eq!(object.filters()[1].as_bytes()[1], 100);
    assert_eq!(object.filters()[0].as_bytes()[0], 7);
    assert_eq!(object.num_deleted(), 1);
    assert_eq!(object.delete_with(&|f: &CuckooFilter| remove(f, 7)), 1);
    assert_eq!(object.filters()[0].as_bytes()[0], 100);
    let before = object.encode_object();
    assert_eq!(object.delete_with(&|f: &CuckooFilter| remove(f, 7)), 0);
    assert_eq!(object.encode_object(), before);
    assert_eq!(object.num_deleted(), 2);
}

#[test]
fn loaded_subfilters_are_checked_before_building_the_object() {
    let filter = || CuckooFilter::new(4, 2, FilterTable { buckets: vec![3, 100, 100, 100], len: 1, rng_word_pos: 5 });
    let object = CuckooObject::checked_from_existing(2, 2, 20, vec![Box::new(filter()), Box::new(filter())], 1).unwrap();
    assert_eq!(object.num_items(), 2);
    assert_eq!(object.num_deleted(), 1);
    // Another bucket size, no subfilter, or a count beyond its storage is refused.
    assert!(CuckooObject::checked_from_existing(2, 4, 20, vec![Box::new(filter())], 0).is_none());
    assert!(CuckooObject::checked_from_existing(2, 2, 20, vec![], 0).is_none());
    let overfull = CuckooFilter::new(4, 2, FilterTable { buckets: vec![3; 4], len: 5, rng_word_pos: 0 });
    assert!(CuckooObject::checked_from_existing(2, 2, 20, vec![Box::new(overfull)], 0).is_none());
    assert!(CuckooObject::checked_from_existing(2, 2, 20, vec![Box::new(filter())], i64::MAX as u64 + 1).is_none());
}
