use vstd::prelude::*;
use crate::error::CuckooError;

verus! {

/// Smallest capacity a subfilter may be requested with.
pub const CUCKOO_CAPACITY_MIN: i64 = 1;
/// Largest capacity a subfilter may be requested with (2^32).
pub const CUCKOO_CAPACITY_MAX: i64 = 4294967296;
/// Default capacity of a filter created by an insertion.
pub const CUCKOO_CAPACITY_DEFAULT: i64 = 1024;
pub const MIN_BUCKET_SIZE: usize = 1;
pub const MAX_BUCKET_SIZE: usize = 255;
pub const CUCKOO_BUCKET_SIZE_DEFAULT: usize = 2;
pub const CUCKOO_MAX_KICKS_MIN: i64 = 1;
pub const CUCKOO_MAX_KICKS_MAX: i64 = 65535;
pub const CUCKOO_MAX_KICKS_DEFAULT: i64 = 20;
pub const CUCKOO_EXPANSION_MIN: i64 = 0;
pub const CUCKOO_EXPANSION_MAX: u32 = 32768;
pub const CUCKOO_EXPANSION_DEFAULT: u32 = 1;
/// Max number of filters allowed within a cuckoo object.
pub const CUCKOO_NUM_FILTERS_PER_OBJECT_LIMIT_MAX: i32 = 1024;

pub open spec fn capacity_in_range(capacity: int) -> bool {
    CUCKOO_CAPACITY_MIN <= capacity <= CUCKOO_CAPACITY_MAX
}

pub open spec fn bucket_size_in_range(bucket_size: int) -> bool {
    MIN_BUCKET_SIZE <= bucket_size <= MAX_BUCKET_SIZE
}

pub open spec fn max_kicks_in_range(max_kicks: int) -> bool {
    CUCKOO_MAX_KICKS_MIN <= max_kicks <= CUCKOO_MAX_KICKS_MAX
}

pub open spec fn expansion_in_range(expansion: int) -> bool {
    0 <= expansion <= CUCKOO_EXPANSION_MAX
}

pub fn validate_capacity(capacity: i64) -> (r: Result<(), CuckooError>)
    ensures
        r is Ok <==> capacity_in_range(capacity as int),
        r is Err ==> r == Err::<(), CuckooError>(CuckooError::BadCapacity),
{
    if CUCKOO_CAPACITY_MIN <= capacity && capacity <= CUCKOO_CAPACITY_MAX {
        Ok(())
    } else {
        Err(CuckooError::BadCapacity)
    }
}

pub fn validate_bucket_size(bucket_size: usize) -> (r: Result<(), CuckooError>)
    ensures
        r is Ok <==> bucket_size_in_range(bucket_size as int),
        r is Err ==> r == Err::<(), CuckooError>(CuckooError::BadBucketSize),
{
    if MIN_BUCKET_SIZE <= bucket_size && bucket_size <= MAX_BUCKET_SIZE {
        Ok(())
    } else {
        Err(CuckooError::BadBucketSize)
    }
}

pub fn validate_max_kicks(max_kicks: u32) -> (r: Result<(), CuckooError>)
    ensures
        r is Ok <==> max_kicks_in_range(max_kicks as int),
        r is Err ==> r == Err::<(), CuckooError>(CuckooError::BadMaxKicks),
{
    if 1 <= max_kicks && max_kicks <= 65535 {
        Ok(())
    } else {
        Err(CuckooError::BadMaxKicks)
    }
}

} // verus!
