use vstd::prelude::*;

verus! {

pub const FILTER_FULL: &'static str = "ERR cuckoo filter is full";
pub const NON_SCALING_FILTER_FULL: &'static str = "ERR non scaling cuckoo filter is full";
pub const NOT_FOUND: &'static str = "ERR not found";
pub const ITEM_EXISTS: &'static str = "ERR item exists";
pub const BAD_EXPANSION: &'static str = "ERR bad expansion";
pub const BAD_CAPACITY: &'static str = "ERR bad capacity";
pub const BAD_BUCKET_SIZE: &'static str = "ERR bad bucket size";
pub const BAD_MAX_KICKS: &'static str = "ERR bad max kicks";
pub const BAD_MAX_ITERATIONS: &'static str = "ERR bad max iterations";
pub const CAPACITY_OUT_OF_RANGE: &'static str = "ERR capacity must be between min and max";
pub const CAPACITY_MUST_BE_LARGER_THAN_ZERO: &'static str = "ERR capacity must be larger than 0";
pub const BUCKET_SIZE_OUT_OF_RANGE: &'static str = "ERR bucket size must be between min and max";
pub const MAX_KICKS_OUT_OF_RANGE: &'static str = "ERR max kicks must be between min and max";
pub const CAPACITY_ARG_REQUIRED: &'static str = "ERR CAPACITY requires an argument";
pub const BUCKET_SIZE_ARG_REQUIRED: &'static str = "ERR BUCKETSIZE requires an argument";
pub const MAX_ITERATIONS_ARG_REQUIRED: &'static str = "ERR MAXITERATIONS requires an argument";
pub const EXPANSION_ARG_REQUIRED: &'static str = "ERR EXPANSION requires an argument";
pub const ITEMS_KEYWORD_REQUIRED: &'static str = "ERR ITEMS keyword required";
pub const UNKNOWN_OPTION_OR_MISSING_ITEMS: &'static str = "ERR unknown option or missing ITEMS keyword";
pub const UNKNOWN_OPTION: &'static str = "ERR unknown option";
pub const EXCEEDS_MAX_CUCKOO_SIZE: &'static str = "ERR operation exceeds cuckoo object memory limit";
pub const MAX_SCALING_CAPACITY: &'static str = "ERR cuckoo object reached max capacity";
pub const MAX_NUM_SCALING_FILTERS: &'static str = "ERR cuckoo object reached max number of filters";
pub const DECODE_CUCKOO_OBJECT_FAILED: &'static str = "ERR cuckoo object decoding failed";
pub const DECODE_UNSUPPORTED_VERSION: &'static str = "ERR cuckoo object decoding failed. Unsupported version";
pub const NO_ITEMS_SPECIFIED: &'static str = "ERR no items specified";
pub const FAILED_TO_SET_FILTER: &'static str = "ERR failed to set cuckoo filter";

/// Why an operation on a cuckoo object was refused.
#[derive(Debug, Clone, Copy, PartialEq, Eq, Structural)]
pub enum CuckooError {
    FilterFull,
    ExceedsMaxSize,
    MaxNumScalingFilters,
    MaxScalingCapacity,
    BadCapacity,
    BadBucketSize,
    BadMaxKicks,
    BadExpansion,
    NonScalingFilterFull,
    DecodeFilterFailed,
    DecodeUnsupportedVersion,
}

impl CuckooError {
    /// The client-facing message of each error.
    pub open spec fn message(self) -> &'static str {
        match self {
            CuckooError::FilterFull => FILTER_FULL,
            CuckooError::ExceedsMaxSize => EXCEEDS_MAX_CUCKOO_SIZE,
            CuckooError::MaxNumScalingFilters => MAX_NUM_SCALING_FILTERS,
            CuckooError::MaxScalingCapacity => MAX_SCALING_CAPACITY,
            CuckooError::BadCapacity => BAD_CAPACITY,
            CuckooError::BadBucketSize => BAD_BUCKET_SIZE,
            CuckooError::BadMaxKicks => BAD_MAX_KICKS,
            CuckooError::BadExpansion => BAD_EXPANSION,
            CuckooError::NonScalingFilterFull => NON_SCALING_FILTER_FULL,
            CuckooError::DecodeFilterFailed => DECODE_CUCKOO_OBJECT_FAILED,
            CuckooError::DecodeUnsupportedVersion => DECODE_UNSUPPORTED_VERSION,
        }
    }

    pub fn as_str(&self) -> (s: &'static str)
        ensures
            s == self.message(),
    {
        match self {
            CuckooError::FilterFull => FILTER_FULL,
            CuckooError::ExceedsMaxSize => EXCEEDS_MAX_CUCKOO_SIZE,
            CuckooError::MaxNumScalingFilters => MAX_NUM_SCALING_FILTERS,
            CuckooError::MaxScalingCapacity => MAX_SCALING_CAPACITY,
            CuckooError::BadCapacity => BAD_CAPACITY,
            CuckooError::BadBucketSize => BAD_BUCKET_SIZE,
            CuckooError::BadMaxKicks => BAD_MAX_KICKS,
            CuckooError::BadExpansion => BAD_EXPANSION,
            CuckooError::NonScalingFilterFull => NON_SCALING_FILTER_FULL,
            CuckooError::DecodeFilterFailed => DECODE_CUCKOO_OBJECT_FAILED,
            CuckooError::DecodeUnsupportedVersion => DECODE_UNSUPPORTED_VERSION,
        }
    }
}

} // verus!
