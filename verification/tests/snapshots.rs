use valkey_cuckoo::error::CuckooError;
use valkey_cuckoo::filter::{CuckooFilter, FilterTable};
use valkey_cuckoo::object::CuckooObject;
use valkey_cuckoo::snapshot::{parse_snapshot, SnapshotLayout, CUCKOO_OBJECT_VERSION};

fn fresh_table(slots: usize) -> FilterTable {
    FilterTable { buckets: vec![100; slots], len: 0, rng_word_pos: 0 }
}

fn sample_object() -> CuckooObject {
    let mut buckets = vec![100; 32];
    buckets[3] = 17;
    buckets[30] = 200;
    let old = CuckooFilter::new(32, 4, FilterTable { buckets, len: 2, rng_word_pos: (3_u128 << 64) | 291 });
    let newest = CuckooFilter::new(64, 4, fresh_table(64));
    CuckooObject::from_existing(2, 4, 20, vec![Box::new(old), Box::new(newest)], 5)
}

/// Stand-in for the filter engine's bucket-byte length: every header
/// declares the length its table really has.
fn allocations(layout: &SnapshotLayout) -> Vec<Option<usize>> {
    layout.filter_headers().iter().map(|h| Some(h[4] as usize)).collect()
}

/// Stand-in for the filter engine's verdict on a table: the slots that hold
/// a fingerprint (anything but the empty marker 100) number `len`.
fn engine_accepts(buckets: &[u8], len: u64) -> bool {
    buckets.iter().filter(|&&b| b != 100).count() as u64 == len
}

fn verdicts(bytes: &[u8], layout: &SnapshotLayout) -> Vec<bool> {
    layout
        .filter_headers()
        .iter()
        .zip(layout.filter_offsets())
        .map(|(h, &offset)| engine_accepts(&bytes[offset..offset + h[4] as usize], h[1]))
        .collect()
}

/// The whole decoding path: outline, engine answers, decoding.
fn decode_with(
    bytes: &[u8],
    allocation: impl Fn(u64) -> Option<usize>,
    validate: bool,
    limit: usize,
) -> Result<CuckooObject, CuckooError> {
    let (allocs, accepted) = match parse_snapshot(bytes) {
        Ok(layout) => (
            layout.filter_headers().iter().map(|h| allocation(h[0])).collect(),
            verdicts(bytes, &layout),
        ),
        Err(_) => (Vec::new(), Vec::new()),
    };
    CuckooObject::decode_snapshot(bytes, &allocs, &accepted, validate, limit)
}

fn decode(bytes: &[u8], validate: bool, limit: usize) -> Result<CuckooObject, CuckooError> {
    let layout = parse_snapshot(bytes)?;
    let allocs = allocations(&layout);
    let accepted = verdicts(bytes, &layout);
    CuckooObject::decode_object(bytes, &layout, &allocs, &accepted, validate, limit)
}

#[test]
fn encoding_is_version_header_then_records() {
    let object = sample_object();
    let bytes = object.encode_object();
    assert_eq!(bytes[0], CUCKOO_OBJECT_VERSION);
    assert_eq!(bytes.len(), 1 + 40 + (40 + 32) + (40 + 64));
    let word = |offset: usize| u64::from_le_bytes(bytes[offset..offset + 8].try_into().unwrap());
    assert_eq!([word(1), word(9), word(17), word(25), word(33)], [2, 4, 20, 2, 5]);
    assert_eq!([word(41), word(49), word(57), word(65), word(73)], [32, 2, 291, 3, 32]);
    assert_eq!(bytes[81 + 3], 17);
}

#[test]
fn decoding_restores_contents_rng_and_deletions() {
    let object = sample_object();
    let bytes = object.encode_object();
    let restored = decode(&bytes, false, 0).unwrap();
    assert_eq!(restored.encode_object(), bytes);
    assert_eq!(restored.num_deleted(), 5);
    assert_eq!(restored.expansion(), object.expansion());
    assert_eq!(restored.bucket_size(), object.bucket_size());
    assert_eq!(restored.max_kicks(), object.max_kicks());
    assert_eq!(restored.capacity(), object.capacity());
    assert_eq!(restored.num_items(), 2);
    assert_eq!(restored.filters()[0].snapshot_header(), [32, 2, 291, 3, 32]);
}

#[test]
fn every_truncation_and_trailing_byte_is_refused() {
    let bytes = sample_object().encode_object();
    for end in 0..bytes.len() {
        assert!(parse_snapshot(&bytes[..end]).is_err(), "end {end}");
    }
    let mut trailing = bytes.clone();
    trailing.push(0);
    assert_eq!(parse_snapshot(&trailing).err(), Some(CuckooError::DecodeFilterFailed));
}

#[test]
fn corrupt_words_are_refused_with_their_errors() {
    let bytes = sample_object().encode_object();
    for (offset, value, expected) in [
        (1, u64::MAX, CuckooError::BadExpansion),
        (9, 0, CuckooError::BadBucketSize),
        (9, 256, CuckooError::BadBucketSize),
        (17, 0, CuckooError::BadMaxKicks),
        (25, 0, CuckooError::DecodeFilterFailed),
        (25, 1025, CuckooError::DecodeFilterFailed),
        (33, u64::MAX, CuckooError::DecodeFilterFailed),
        (41, 0, CuckooError::DecodeFilterFailed),
        (49, 33, CuckooError::DecodeFilterFailed),
        (65, 16, CuckooError::DecodeFilterFailed),
        (73, 1, CuckooError::DecodeFilterFailed),
        (73, 31, CuckooError::DecodeFilterFailed),
        (73, u64::MAX, CuckooError::DecodeFilterFailed),
    ] {
        let mut invalid = bytes.clone();
        invalid[offset..offset + 8].copy_from_slice(&u64::to_le_bytes(value));
        assert_eq!(parse_snapshot(&invalid).err(), Some(expected), "offset {offset}");
    }
    for version in [0, 2, 3, 4, 5, 255] {
        let mut invalid = bytes.clone();
        invalid[0] = version;
        assert_eq!(parse_snapshot(&invalid).err(), Some(CuckooError::DecodeUnsupportedVersion));
    }
    assert_eq!(parse_snapshot(&[]).err(), Some(CuckooError::DecodeFilterFailed));
}

#[test]
fn engine_allocation_mismatch_is_refused() {
    let bytes = sample_object().encode_object();
    let layout = parse_snapshot(&bytes).unwrap();
    let mut allocs = allocations(&layout);
    allocs[1] = Some(128);
    assert_eq!(
        CuckooObject::decode_object(&bytes, &layout, &allocs, &verdicts(&bytes, &layout), false, 0).err(),
        Some(CuckooError::DecodeFilterFailed)
    );
    allocs[1] = None;
    assert_eq!(
        CuckooObject::decode_object(&bytes, &layout, &allocs, &verdicts(&bytes, &layout), false, 0).err(),
        Some(CuckooError::DecodeFilterFailed)
    );
}

#[test]
fn memory_limit_is_checked_before_decoding_buckets() {
    let bytes = sample_object().encode_object();
    let layout = parse_snapshot(&bytes).unwrap();
    let exact = layout.memory();
    assert_eq!(decode(&bytes, true, exact - 1).err(), Some(CuckooError::ExceedsMaxSize));
    let restored = decode(&bytes, true, exact).unwrap();
    assert_eq!(restored.memory_usage(), exact);
    assert!(decode(&bytes, false, 0).is_ok());
}

#[test]
fn object_header_validation_reports_first_failure() {
    assert_eq!(CuckooObject::validate_snapshot_header([2, 4, 20, 1, 0]), Ok(()));
    assert_eq!(
        CuckooObject::validate_snapshot_header([40000, 0, 0, 0, 0]),
        Err(CuckooError::BadBucketSize)
    );
    assert_eq!(
        CuckooObject::validate_snapshot_header([40000, 4, 0, 0, 0]),
        Err(CuckooError::BadMaxKicks)
    );
    assert_eq!(
        CuckooObject::validate_snapshot_header([40000, 4, 20, 0, 0]),
        Err(CuckooError::BadExpansion)
    );
    assert_eq!(
        CuckooObject::validate_snapshot_header([2, 4, 20, 1, i64::MAX as u64 + 1]),
        Err(CuckooError::DecodeFilterFailed)
    );
}

#[test]
fn validated_header_still_rejects_mismatched_bucket_storage() {
    for values in [vec![100; 31], vec![100; 33], vec![7; 32]] {
        let header = CuckooFilter::validate_snapshot_header([32, 0, 0, 0, 32], 4, Some(32)).unwrap();
        let accepted = engine_accepts(&values, 0);
        assert!(matches!(
            CuckooFilter::from_snapshot(header, values, accepted),
            Err(CuckooError::DecodeFilterFailed)
        ));
    }
    assert!(CuckooFilter::validate_snapshot_header([32, 0, 0, 0, 32], 4, Some(64)).is_err());
    assert!(CuckooFilter::validate_snapshot_header([32, 33, 0, 0, 32], 4, Some(32)).is_err());
}

#[test]
fn reject_corrupt_snapshots() {
    let object = CuckooObject::new_reserved(32, 4, 20, 2, false, 0, Some(32), &fresh_table).unwrap();
    let bytes = object.encode_object();
    // The engine allocates 32 bucket bytes for capacity 32 at bucket size 4.
    let allocation = |capacity: u64| (capacity == 32).then_some(32);
    assert!(decode_with(&bytes, allocation, false, 0).is_ok());
    for end in 0..bytes.len() {
        assert!(decode_with(&bytes[..end], allocation, false, 0).is_err());
    }
    let mut trailing = bytes.clone();
    trailing.push(0);
    assert!(decode_with(&trailing, allocation, false, 0).is_err());
    // Corrupt each metadata field independently, including length/occupied-slot mismatch.
    for (offset, value) in [
        (1, u64::MAX),
        (9, 0),
        (17, 0),
        (25, 0),
        (25, 1025),
        (33, u64::MAX),
        (41, 0),
        (49, 1),
        (65, 16),
        (73, 1),
        (73, 31),
        (73, u64::MAX),
    ] {
        let mut invalid = bytes.clone();
        invalid[offset..offset + 8].copy_from_slice(&value.to_le_bytes());
        assert!(decode_with(&invalid, allocation, false, 0).is_err(), "offset {offset}");
    }
    for version in [0, 2, 3, 4, 5, 255] {
        let mut invalid = bytes.clone();
        invalid[0] = version;
        assert!(matches!(
            decode_with(&invalid, allocation, false, 0),
            Err(CuckooError::DecodeUnsupportedVersion)
        ));
    }
}

#[test]
fn occupied_slots_must_match_the_count() {
    let bytes = sample_object().encode_object();
    let mut invalid = bytes.clone();
    invalid[49..57].copy_from_slice(&1_u64.to_le_bytes());
    // The outline is fine; only the engine refuses the table.
    let layout = parse_snapshot(&invalid).unwrap();
    let allocs = allocations(&layout);
    assert_eq!(CuckooObject::check_snapshot_outline(&invalid, &layout, &allocs, false, 0), Ok(()));
    assert_eq!(verdicts(&invalid, &layout), vec![false, true]);
    assert_eq!(decode(&invalid, false, 0).err(), Some(CuckooError::DecodeFilterFailed));
    // The memory limit is checked before the engine's verdicts.
    assert_eq!(decode(&invalid, true, 0).err(), Some(CuckooError::ExceedsMaxSize));
}

#[test]
fn decoded_snapshots_encode_back_unchanged() {
    let bytes = sample_object().encode_object();
    let restored = decode_with(&bytes, |capacity| Some(capacity as usize), false, 0).unwrap();
    assert_eq!(restored.encode_object(), bytes);
    let copy = CuckooObject::create_copy_from(&restored);
    assert_eq!(copy.encode_object(), bytes);
}
