use valkey_cuckoo::commands::{
    any_inserted, check_bucket_size_arg, check_capacity_arg, check_max_kicks_arg, info_field_index,
    info_field_name, keyword, parse_insert_options, parse_reserve_args, replicated_items,
    InsertOptions, Keyword, ReserveParams,
};
use valkey_cuckoo::error::{self, CuckooError};
use valkey_cuckoo::text::parse_i64;

fn args(words: &[&str]) -> Vec<Vec<char>> {
    words.iter().map(|w| w.chars().collect()).collect()
}

fn chars(s: &str) -> Vec<char> {
    s.chars().collect()
}

#[test]
fn integers_parse_as_the_standard_library_does() {
    for text in ["0", "42", "-17", "+5", "0007", "9223372036854775807", "-9223372036854775808"] {
        assert_eq!(parse_i64(&chars(text)), text.parse::<i64>().ok(), "{text}");
    }
    for text in ["", "-", "+", " 1", "1 ", "1.5", "9223372036854775808", "-9223372036854775809", "12a", "99999999999999999999999"] {
        assert_eq!(parse_i64(&chars(text)), None, "{text}");
    }
}

#[test]
fn keywords_match_in_any_case() {
    assert_eq!(keyword(&chars("capacity")), Some(Keyword::Capacity));
    assert_eq!(keyword(&chars("BucketSize")), Some(Keyword::BucketSize));
    assert_eq!(keyword(&chars("maxiterations")), Some(Keyword::MaxIterations));
    assert_eq!(keyword(&chars("nocreate")), Some(Keyword::NoCreate));
    assert_eq!(keyword(&chars("items")), Some(Keyword::Items));
    assert_eq!(keyword(&chars("Expansion")), Some(Keyword::Expansion));
    assert_eq!(keyword(&chars("capacities")), None);
}

#[test]
fn argument_ranges_have_their_messages() {
    assert_eq!(check_capacity_arg(0), Err(error::CAPACITY_MUST_BE_LARGER_THAN_ZERO));
    assert_eq!(check_capacity_arg(-3), Err(error::CAPACITY_OUT_OF_RANGE));
    assert_eq!(check_capacity_arg(1 << 33), Err(error::CAPACITY_OUT_OF_RANGE));
    assert_eq!(check_capacity_arg(1000), Ok(()));
    assert_eq!(check_bucket_size_arg(256), Err(error::BUCKET_SIZE_OUT_OF_RANGE));
    assert_eq!(check_bucket_size_arg(-1), Err(error::BUCKET_SIZE_OUT_OF_RANGE));
    assert_eq!(check_bucket_size_arg(4), Ok(()));
    assert_eq!(check_max_kicks_arg(0), Err(error::MAX_KICKS_OUT_OF_RANGE));
    assert_eq!(check_max_kicks_arg(1 << 40), Err(error::MAX_KICKS_OUT_OF_RANGE));
    assert_eq!(check_max_kicks_arg(500), Ok(()));
}

#[test]
fn insert_options_read_up_to_items() {
    let a = args(&["CF.INSERT", "key", "capacity", "1000", "NOCREATE", "ITEMS", "a", "b"]);
    let (options, index) = parse_insert_options(&a, 2).unwrap();
    assert_eq!(
        options,
        InsertOptions { capacity: Some(1000), bucket_size: None, max_kicks: None, nocreate: true }
    );
    assert_eq!(index, 6);
    let a = args(&["CF.INSERT", "key", "BUCKETSIZE", "4", "MAXITERATIONS", "50", "ITEMS"]);
    let (options, index) = parse_insert_options(&a, 2).unwrap();
    assert_eq!(options.bucket_size, Some(4));
    assert_eq!(options.max_kicks, Some(50));
    assert_eq!(index, 7);
}

#[test]
fn insert_option_errors() {
    for (words, expected) in [
        (&["CF.INSERT", "key", "a", "b"][..], error::UNKNOWN_OPTION_OR_MISSING_ITEMS),
        (&["CF.INSERT", "key", "NOCREATE"][..], error::ITEMS_KEYWORD_REQUIRED),
        (&["CF.INSERT", "key", "CAPACITY"][..], error::CAPACITY_ARG_REQUIRED),
        (&["CF.INSERT", "key", "CAPACITY", "x", "ITEMS", "a"][..], error::BAD_CAPACITY),
        (&["CF.INSERT", "key", "CAPACITY", "0", "ITEMS", "a"][..], error::CAPACITY_MUST_BE_LARGER_THAN_ZERO),
        (&["CF.INSERT", "key", "BUCKETSIZE"][..], error::BUCKET_SIZE_ARG_REQUIRED),
        (&["CF.INSERT", "key", "BUCKETSIZE", "1.5", "ITEMS", "a"][..], error::BAD_BUCKET_SIZE),
        (&["CF.INSERT", "key", "BUCKETSIZE", "300", "ITEMS", "a"][..], error::BUCKET_SIZE_OUT_OF_RANGE),
        (&["CF.INSERT", "key", "MAXITERATIONS"][..], error::MAX_ITERATIONS_ARG_REQUIRED),
        (&["CF.INSERT", "key", "MAXITERATIONS", "-"][..], error::BAD_MAX_ITERATIONS),
        (&["CF.INSERT", "key", "MAXITERATIONS", "0", "ITEMS"][..], error::MAX_KICKS_OUT_OF_RANGE),
        (&["CF.INSERT", "key", "EXPANSION", "2", "ITEMS", "a"][..], error::UNKNOWN_OPTION_OR_MISSING_ITEMS),
    ] {
        assert_eq!(parse_insert_options(&args(words), 2), Err(expected), "{words:?}");
    }
}

#[test]
fn reserve_arguments_override_defaults() {
    let a = args(&["CF.RESERVE", "key", "1000"]);
    assert_eq!(
        parse_reserve_args(&a, 2, 20, 1),
        Ok(ReserveParams { capacity: 1000, bucket_size: 2, max_kicks: 20, expansion: 1 })
    );
    let a = args(&["CF.RESERVE", "key", "64", "bucketsize", "4", "MAXITERATIONS", "500", "EXPANSION", "0"]);
    assert_eq!(
        parse_reserve_args(&a, 2, 20, 1),
        Ok(ReserveParams { capacity: 64, bucket_size: 4, max_kicks: 500, expansion: 0 })
    );
}

#[test]
fn reserve_argument_errors() {
    for (words, expected) in [
        (&["CF.RESERVE", "key", "abc"][..], error::BAD_CAPACITY),
        (&["CF.RESERVE", "key", "0"][..], error::CAPACITY_MUST_BE_LARGER_THAN_ZERO),
        (&["CF.RESERVE", "key", "5000000000"][..], error::CAPACITY_OUT_OF_RANGE),
        (&["CF.RESERVE", "key", "10", "ITEMS"][..], error::UNKNOWN_OPTION),
        (&["CF.RESERVE", "key", "10", "EXPANSION"][..], error::EXPANSION_ARG_REQUIRED),
        (&["CF.RESERVE", "key", "10", "EXPANSION", "40000"][..], error::BAD_EXPANSION),
        (&["CF.RESERVE", "key", "10", "EXPANSION", "-1"][..], error::BAD_EXPANSION),
        (&["CF.RESERVE", "key", "10", "BUCKETSIZE", "0"][..], error::BUCKET_SIZE_OUT_OF_RANGE),
        (&["CF.RESERVE", "key", "10", "MAXITERATIONS", "x"][..], error::BAD_MAX_ITERATIONS),
    ] {
        assert_eq!(parse_reserve_args(&args(words), 2, 20, 1), Err(expected), "{words:?}");
    }
}

#[test]
fn info_fields_are_found_ignoring_ascii_case() {
    assert_eq!(info_field_index(&chars("size")), Some(0));
    assert_eq!(info_field_index(&chars("NUMBER OF BUCKETS")), Some(1));
    assert_eq!(info_field_index(&chars("number of items deleted")), Some(3));
    assert_eq!(info_field_index(&chars("Expansion rate")), Some(7));
    assert_eq!(info_field_index(&chars("Expansion")), None);
    let label: String = info_field_name(6).into_iter().collect();
    assert_eq!(label, "Max iterations");
}

#[test]
fn only_stored_items_are_replicated() {
    let results = vec![Ok(1), Ok(0), Ok(1), Err(CuckooError::FilterFull)];
    assert_eq!(replicated_items(&results), vec![0, 2]);
    assert!(any_inserted(&results));
    let skipped: Vec<Result<i64, CuckooError>> = vec![Ok(0), Err(CuckooError::NonScalingFilterFull)];
    assert!(replicated_items(&skipped).is_empty());
    assert!(!any_inserted(&skipped));
}
