use vstd::prelude::*;
use crate::error::CuckooError;
use crate::limits::{capacity_in_range, CUCKOO_CAPACITY_MAX, CUCKOO_CAPACITY_MIN};

verus! {

/// 2^64, the weight of the high word of an RNG word position.
pub open spec fn word_base() -> int {
    0x1_0000_0000_0000_0000
}

/// A snapshot stores the RNG word position as two words, the high one below 16.
pub open spec fn rng_position_bound() -> int {
    16 * word_base()
}

/// Fingerprint storage of one subfilter as the filter engine produces and
/// consumes it: the raw bucket bytes (one byte per slot), the number of stored
/// fingerprints and the word position of the eviction RNG stream.
pub struct FilterTable {
    pub buckets: Vec<u8>,
    pub len: usize,
    pub rng_word_pos: u128,
}

impl FilterTable {
    pub open spec fn wf(&self) -> bool {
        &&& self.len <= self.buckets@.len()
        &&& self.buckets@.len() <= isize::MAX
        &&& self.rng_word_pos < rng_position_bound()
    }
}

/// What a subfilter holds, as mathematical values.
pub struct FilterView {
    pub capacity: int,
    pub bucket_size: nat,
    pub len: nat,
    pub rng_word_pos: nat,
    pub buckets: Seq<u8>,
}

impl FilterView {
    pub open spec fn wf(self) -> bool {
        &&& capacity_in_range(self.capacity)
        &&& self.capacity <= usize::MAX
        &&& self.bucket_size <= usize::MAX
        &&& self.len <= self.buckets.len()
        &&& self.buckets.len() <= isize::MAX
        &&& self.rng_word_pos < rng_position_bound()
        &&& filter_struct_bytes() + self.buckets.len() <= usize::MAX
    }

    /// Every slot holds a fingerprint: no insertion can succeed.
    pub open spec fn is_full(self) -> bool {
        self.len == self.buckets.len()
    }

    /// Bytes the subfilter accounts for: its own structure and its buckets.
    pub open spec fn memory(self) -> int {
        filter_struct_bytes() + self.buckets.len()
    }

    /// The five snapshot words: capacity, fingerprint count, low and high RNG
    /// word position, bucket-byte length.
    pub open spec fn header(self) -> Seq<u64> {
        seq![
            self.capacity as u64,
            self.len as u64,
            (self.rng_word_pos as int % word_base()) as u64,
            (self.rng_word_pos as int / word_base()) as u64,
            self.buckets.len() as u64,
        ]
    }
}

pub open spec fn filter_struct_bytes() -> int {
    vstd::layout::size_of::<CuckooFilter>() as int
}

/// One subfilter: its requested capacity, bucket size and fingerprint table.
pub struct CuckooFilter {
    capacity: i64,
    bucket_size: usize,
    table: FilterTable,
}

impl View for CuckooFilter {
    type V = FilterView;

    closed spec fn view(&self) -> FilterView {
        FilterView {
            capacity: self.capacity as int,
            bucket_size: self.bucket_size as nat,
            len: self.table.len as nat,
            rng_word_pos: self.table.rng_word_pos as nat,
            buckets: self.table.buckets@,
        }
    }
}

/// The validity of five snapshot words of a subfilter, given the bucket-byte
/// length that the filter engine allocates for its capacity and bucket size.
pub open spec fn filter_header_valid(fields: Seq<u64>, allocation: Option<usize>) -> bool {
    &&& CUCKOO_CAPACITY_MIN <= fields[0] <= CUCKOO_CAPACITY_MAX
    &&& fields[3] < 16
    &&& fields[1] <= fields[4]
    &&& fields[4] <= usize::MAX
    &&& fields[0] <= usize::MAX
    &&& allocation == Some(fields[4] as usize)
}

/// Snapshot words of a subfilter that passed validation; only the header
/// validator constructs this value.
pub struct ValidatedCuckooFilterHeader {
    fields: [u64; 5],
    bucket_size: usize,
    bucket_bytes: usize,
}

impl ValidatedCuckooFilterHeader {
    #[verifier::type_invariant]
    spec fn inv(self) -> bool {
        &&& CUCKOO_CAPACITY_MIN <= self.fields[0] <= CUCKOO_CAPACITY_MAX
        &&& self.fields[3] < 16
        &&& self.fields[1] <= self.fields[4]
        &&& self.fields[4] == self.bucket_bytes
        &&& self.fields[0] <= usize::MAX
    }

    pub closed spec fn fields_spec(self) -> Seq<u64> {
        self.fields@
    }

    pub closed spec fn bucket_size_spec(self) -> usize {
        self.bucket_size
    }

    pub closed spec fn bucket_bytes_spec(self) -> usize {
        self.bucket_bytes
    }

    pub fn bucket_bytes(&self) -> (r: usize)
        ensures
            r == self.bucket_bytes_spec(),
            r == self.fields_spec()[4],
    {
        proof {
            use_type_invariant(self);
        }
        self.bucket_bytes
    }
}

impl CuckooFilter {
    /// A subfilter over a fresh table that the filter engine created for the
    /// capacity and bucket size.
    pub fn new(capacity: i64, bucket_size: usize, table: FilterTable) -> (r: Self)
        requires
            capacity_in_range(capacity as int),
            capacity <= usize::MAX,
            table.wf(),
            filter_struct_bytes() + table.buckets@.len() <= usize::MAX,
        ensures
            r@.wf(),
            r@ == (FilterView {
                capacity: capacity as int,
                bucket_size: bucket_size as nat,
                len: table.len as nat,
                rng_word_pos: table.rng_word_pos as nat,
                buckets: table.buckets@,
            }),
    {
        CuckooFilter { capacity, bucket_size, table }
    }

    pub fn snapshot_header(&self) -> (r: [u64; 5])
        requires
            self@.wf(),
        ensures
            r@ == self@.header(),
    {
        let position = self.table.rng_word_pos;
        let low = (position % 0x1_0000_0000_0000_0000u128) as u64;
        let high = (position / 0x1_0000_0000_0000_0000u128) as u64;
        let r = [
            self.capacity as u64,
            self.table.len as u64,
            low,
            high,
            self.table.buckets.len() as u64,
        ];
        assert(r@ =~= self@.header());
        r
    }

    /// Check five snapshot words of a subfilter. `allocation` is the
    /// bucket-byte length the filter engine allocates for `fields[0]` slots of
    /// requested capacity and `bucket_size`, or `None` where the engine refuses
    /// that configuration.
    pub fn validate_snapshot_header(
        fields: [u64; 5],
        bucket_size: usize,
        allocation: Option<usize>,
    ) -> (r: Result<ValidatedCuckooFilterHeader, CuckooError>)
        ensures
            r is Ok <==> filter_header_valid(fields@, allocation),
            r is Err ==> r == Err::<ValidatedCuckooFilterHeader, CuckooError>(
                CuckooError::DecodeFilterFailed,
            ),
            r matches Ok(h) ==> h.fields_spec() == fields@ && h.bucket_size_spec() == bucket_size
                && h.bucket_bytes_spec() == fields[4],
    {
        let capacity = fields[0];
        let length = fields[1];
        let high = fields[3];
        let size = fields[4];
        if !(1 <= capacity && capacity <= 4294967296) || high >= 16 || length > size {
            return Err(CuckooError::DecodeFilterFailed);
        }
        if size > usize::MAX as u64 || capacity > usize::MAX as u64 {
            return Err(CuckooError::DecodeFilterFailed);
        }
        let size = size as usize;
        match allocation {
            Some(expected) => {
                if expected != size {
                    return Err(CuckooError::DecodeFilterFailed);
                }
            },
            None => {
                return Err(CuckooError::DecodeFilterFailed);
            },
        }
        Ok(ValidatedCuckooFilterHeader { fields, bucket_size, bucket_bytes: size })
    }

    /// Rebuild a subfilter from validated snapshot words and its bucket bytes.
    /// `engine_accepts` is the filter engine's verdict on the table these
    /// bytes, the fingerprint count and the RNG position make (it refuses,
    /// among others, a count that differs from the occupied slots). The
    /// bucket length is checked first, then the verdict; either failure
    /// refuses the subfilter.
    pub fn from_snapshot(
        header: ValidatedCuckooFilterHeader,
        values: Vec<u8>,
        engine_accepts: bool,
    ) -> (r: Result<Self, CuckooError>)
        requires
            filter_struct_bytes() + values@.len() <= usize::MAX,
            values@.len() <= isize::MAX,
        ensures
            r is Ok <==> header.bucket_bytes_spec() == values@.len() && engine_accepts,
            r is Err ==> r == Err::<Self, CuckooError>(CuckooError::DecodeFilterFailed),
            r matches Ok(f) ==> f@.wf() && f@.header() == header.fields_spec() && f@ == (
            FilterView {
                capacity: header.fields_spec()[0] as int,
                bucket_size: header.bucket_size_spec() as nat,
                len: header.fields_spec()[1] as nat,
                rng_word_pos: (header.fields_spec()[2] + header.fields_spec()[3] * word_base()) as nat,
                buckets: values@,
            }),
    {
        proof {
            use_type_invariant(&header);
        }
        if header.bucket_bytes != values.len() || !engine_accepts {
            return Err(CuckooError::DecodeFilterFailed);
        }
        let capacity = header.fields[0];
        let length = header.fields[1];
        let low = header.fields[2];
        let high = header.fields[3];
        let position = (low as u128) + (high as u128) * 0x1_0000_0000_0000_0000u128;
        let r = CuckooFilter {
            capacity: capacity as i64,
            bucket_size: header.bucket_size,
            table: FilterTable { buckets: values, len: length as usize, rng_word_pos: position },
        };
        assert(r@.header() =~= header.fields_spec());
        Ok(r)
    }

    pub fn table(&self) -> (r: &FilterTable)
        ensures
            r.buckets@ == self@.buckets,
            r.len == self@.len,
            r.rng_word_pos == self@.rng_word_pos,
    {
        &self.table
    }

    pub fn as_bytes(&self) -> (r: &[u8])
        ensures
            r@ == self@.buckets,
    {
        self.table.buckets.as_slice()
    }

    /// Install the table the filter engine produced by an operation on this
    /// subfilter; the bucket storage keeps its length.
    pub fn set_table(&mut self, table: FilterTable)
        requires
            old(self)@.wf(),
            table.wf(),
            table.buckets@.len() == old(self)@.buckets.len(),
        ensures
            final(self)@.wf(),
            final(self)@ == (FilterView {
                len: table.len as nat,
                rng_word_pos: table.rng_word_pos as nat,
                buckets: table.buckets@,
                ..old(self)@
            }),
    {
        self.table = table;
    }

    /// The bucket storage itself, as the value a reallocation hands over.
    pub closed spec fn bucket_storage(&self) -> Vec<u8> {
        self.table.buckets
    }

    /// Hand the bucket storage to `f`, which must give the same bytes back
    /// (a defragmenting allocator moves them to a new allocation); the
    /// subfilter keeps the storage `f` returned and is otherwise unchanged.
    pub fn realloc_buckets<F: FnOnce(Vec<u8>) -> Vec<u8>>(&mut self, f: F)
        requires
            forall|b: Vec<u8>| call_requires(f, (b,)),
            forall|b: Vec<u8>, r: Vec<u8>| call_ensures(f, (b,), r) ==> r@ == b@,
        ensures
            final(self)@ == old(self)@,
            call_ensures(f, (old(self).bucket_storage(),), final(self).bucket_storage()),
    {
        let mut buckets: Vec<u8> = Vec::new();
        core::mem::swap(&mut buckets, &mut self.table.buckets);
        self.table.buckets = f(buckets);
    }

    /// Whether the subfilter satisfies `FilterView::wf`.
    pub fn is_well_formed(&self) -> (r: bool)
        ensures
            r == self@.wf(),
    {
        let n = self.table.buckets.len();
        CUCKOO_CAPACITY_MIN <= self.capacity && self.capacity <= CUCKOO_CAPACITY_MAX
            && self.capacity as u64 <= usize::MAX as u64 && self.table.len <= n && n
            <= isize::MAX as usize && self.table.rng_word_pos < 0x10_0000_0000_0000_0000u128
            && n <= usize::MAX - core::mem::size_of::<CuckooFilter>()
    }

    pub fn number_of_bytes(&self) -> (r: usize)
        requires
            self@.wf(),
        ensures
            r == self@.memory(),
    {
        core::mem::size_of::<CuckooFilter>() + self.table.buckets.len()
    }

    /// Bytes a new subfilter would account for, or `usize::MAX` where the
    /// capacity is negative, the engine refuses the configuration
    /// (`allocation` is `None`) or the sum overflows.
    pub fn compute_size(capacity: i64, allocation: Option<usize>) -> (r: usize)
        ensures
            r == filter_size_spec(capacity as int, allocation),
    {
        match Self::filter_bytes(capacity, allocation) {
            Some(n) => n,
            None => usize::MAX,
        }
    }

    /// Bytes a new subfilter would account for, where they can be computed.
    pub fn filter_bytes(capacity: i64, allocation: Option<usize>) -> (r: Option<usize>)
        ensures
            r == filter_bytes_spec(capacity as int, allocation),
    {
        if capacity < 0 || capacity as u64 > usize::MAX as u64 {
            return None;
        }
        match allocation {
            Some(bytes) => bytes.checked_add(core::mem::size_of::<CuckooFilter>()),
            None => None,
        }
    }

    pub fn create_copy_from(from: &Self) -> (r: Self)
        ensures
            r@ == from@,
    {
        CuckooFilter {
            capacity: from.capacity,
            bucket_size: from.bucket_size,
            table: FilterTable {
                buckets: from.table.buckets.clone(),
                len: from.table.len,
                rng_word_pos: from.table.rng_word_pos,
            },
        }
    }

    pub fn capacity(&self) -> (r: i64)
        ensures
            r == self@.capacity,
    {
        self.capacity
    }

    pub fn num_items(&self) -> (r: i64)
        requires
            self@.wf(),
        ensures
            r == self@.len,
    {
        self.table.len as i64
    }

    pub fn bucket_size(&self) -> (r: usize)
        ensures
            r == self@.bucket_size,
    {
        self.bucket_size
    }
}

pub open spec fn filter_bytes_spec(capacity: int, allocation: Option<usize>) -> Option<usize> {
    if capacity < 0 || capacity > usize::MAX {
        None
    } else {
        match allocation {
            Some(bytes) => if bytes + filter_struct_bytes() <= usize::MAX {
                Some((bytes + filter_struct_bytes()) as usize)
            } else {
                None
            },
            None => None,
        }
    }
}

/// The accounted size of a new subfilter, with `usize::MAX` standing for
/// a size that cannot be computed.
pub open spec fn filter_size_spec(capacity: int, allocation: Option<usize>) -> usize {
    match filter_bytes_spec(capacity, allocation) {
        Some(n) => n,
        None => usize::MAX,
    }
}

} // verus!
