use vstd::prelude::*;
use vstd::bytes::{
    lemma_auto_spec_u64_to_from_le_bytes, spec_u64_from_le_bytes, spec_u64_to_le_bytes,
    u64_from_le_bytes, u64_to_le_bytes,
};
use crate::error::CuckooError;
use crate::filter::{filter_header_valid, filter_struct_bytes, word_base, CuckooFilter, FilterView};
use crate::limits::{CUCKOO_CAPACITY_MAX, CUCKOO_CAPACITY_MIN};
use crate::object::{max_filters, object_base_bytes, pointer_bytes, object_struct_bytes, CuckooObject, ObjectView};
use crate::sums::{
    hnonneg, hsum, items_of, lemma_hsum_cons, lemma_hsum_ge_each, lemma_hsum_mono,
    lemma_hsum_nonneg, lemma_hsum_prefix_le, lemma_hsum_push, lemma_sum_of_headers, memory_of,
    sum_of,
};

verus! {

/// The snapshot format version this library reads and writes.
pub const CUCKOO_OBJECT_VERSION: u8 = 1;

/// Five little-endian words.
pub open spec fn header_bytes(h: Seq<u64>) -> Seq<u8> {
    spec_u64_to_le_bytes(h[0]) + spec_u64_to_le_bytes(h[1]) + spec_u64_to_le_bytes(h[2])
        + spec_u64_to_le_bytes(h[3]) + spec_u64_to_le_bytes(h[4])
}

/// One subfilter record: its five words, then its bucket bytes.
pub open spec fn filter_record(f: FilterView) -> Seq<u8> {
    header_bytes(f.header()) + f.buckets
}

pub open spec fn records(fs: Seq<FilterView>) -> Seq<u8>
    decreases fs.len(),
{
    if fs.len() == 0 {
        seq![]
    } else {
        filter_record(fs[0]) + records(fs.drop_first())
    }
}

/// The snapshot of an object: the version byte, the object's five words, then
/// every subfilter record, oldest first.
pub open spec fn encode_spec(o: ObjectView) -> Seq<u8> {
    seq![CUCKOO_OBJECT_VERSION] + header_bytes(o.header()) + records(o.filters)
}

/// The little-endian word at `p`.
pub open spec fn word_at(b: Seq<u8>, p: int) -> u64 {
    spec_u64_from_le_bytes(b.subrange(p, p + 8))
}

pub open spec fn header_at(b: Seq<u8>, p: int) -> Seq<u64> {
    seq![word_at(b, p), word_at(b, p + 8), word_at(b, p + 16), word_at(b, p + 24), word_at(b, p + 32)]
}

/// The first refused word of an object header, in the order they are checked.
pub open spec fn object_header_error(h: Seq<u64>) -> Option<CuckooError> {
    if !(1 <= h[1] <= 255) {
        Some(CuckooError::BadBucketSize)
    } else if !(1 <= h[2] <= 65535) {
        Some(CuckooError::BadMaxKicks)
    } else if h[0] > 32768 {
        Some(CuckooError::BadExpansion)
    } else if h[3] == 0 || h[3] > 1024 || h[4] > i64::MAX {
        Some(CuckooError::DecodeFilterFailed)
    } else {
        None
    }
}

/// A subfilter header whose words are in range; whether its bucket-byte
/// length matches the engine's allocation is checked when decoding.
pub open spec fn filter_header_shape_ok(h: Seq<u64>) -> bool {
    &&& CUCKOO_CAPACITY_MIN <= h[0] <= CUCKOO_CAPACITY_MAX
    &&& h[3] < 16
    &&& h[1] <= h[4]
    &&& h[4] <= usize::MAX
    &&& h[0] <= usize::MAX
}

/// Read `k` subfilter records from `pos`: their headers, the offsets of their
/// bucket bytes and the position after the last one.
pub open spec fn parse_records(b: Seq<u8>, pos: int, k: nat) -> Option<
    (Seq<Seq<u64>>, Seq<int>, int),
>
    decreases k,
{
    if k == 0 {
        Some((seq![], seq![], pos))
    } else if pos < 0 || pos + 40 > b.len() {
        None
    } else {
        let h = header_at(b, pos);
        if !filter_header_shape_ok(h) || pos + 40 + h[4] > b.len() {
            None
        } else {
            match parse_records(b, pos + 40 + h[4], (k - 1) as nat) {
                None => None,
                Some(r) => Some((seq![h] + r.0, seq![pos + 40] + r.1, r.2)),
            }
        }
    }
}

/// Accounted bytes of a subfilter described by a header.
pub open spec fn record_terms() -> spec_fn(Seq<u64>) -> int {
    |h: Seq<u64>| filter_struct_bytes() + h[4]
}

pub open spec fn terms_sum(hs: Seq<Seq<u64>>) -> int {
    hsum(hs, record_terms())
}

pub open spec fn next_pow2(n: nat) -> nat
    decreases n,
{
    if n <= 1 {
        1
    } else {
        2 * next_pow2(((n + 1) / 2) as nat)
    }
}

/// Filter-list slots a decoded object reserves: what growing one subfilter at
/// a time would have reserved.
pub open spec fn vector_capacity(count: nat) -> nat {
    if count == 1 {
        1
    } else if next_pow2(count) >= 4 {
        next_pow2(count)
    } else {
        4
    }
}

/// The outline of a snapshot: the object words, each subfilter's words and
/// bucket offset, the filter-list reservation and the bytes the decoded
/// object would account for.
pub struct LayoutView {
    pub header: Seq<u64>,
    pub filters: Seq<Seq<u64>>,
    pub offsets: Seq<int>,
    pub vector_capacity: nat,
    pub memory: int,
}

/// What reading a snapshot's outline yields, before any bucket storage is
/// allocated.
pub open spec fn parse_spec(b: Seq<u8>) -> Result<LayoutView, CuckooError> {
    if b.len() == 0 {
        Err(CuckooError::DecodeFilterFailed)
    } else if b[0] != CUCKOO_OBJECT_VERSION {
        Err(CuckooError::DecodeUnsupportedVersion)
    } else if b.len() < 41 {
        Err(CuckooError::DecodeFilterFailed)
    } else {
        let h = header_at(b, 1);
        match object_header_error(h) {
            Some(e) => Err(e),
            None => match parse_records(b, 41, h[3] as nat) {
                None => Err(CuckooError::DecodeFilterFailed),
                Some(r) => {
                    let vc = vector_capacity(h[3] as nat);
                    let m = object_base_bytes(vc as int) + terms_sum(r.0);
                    if r.2 != b.len() || object_base_bytes(vc as int) > usize::MAX || m
                        > usize::MAX {
                        Err(CuckooError::DecodeFilterFailed)
                    } else {
                        Ok(
                            LayoutView {
                                header: h,
                                filters: r.0,
                                offsets: r.1,
                                vector_capacity: vc,
                                memory: m,
                            },
                        )
                    }
                },
            },
        }
    }
}

/// The outline of a snapshot, see `parse_snapshot`.
pub struct SnapshotLayout {
    header: [u64; 5],
    filters: Vec<[u64; 5]>,
    offsets: Vec<usize>,
    vector_capacity: usize,
    memory: usize,
}

impl View for SnapshotLayout {
    type V = LayoutView;

    closed spec fn view(&self) -> LayoutView {
        LayoutView {
            header: self.header@,
            filters: self.filters@.map_values(|h: [u64; 5]| h@),
            offsets: self.offsets@.map_values(|o: usize| o as int),
            vector_capacity: self.vector_capacity as nat,
            memory: self.memory as int,
        }
    }
}

impl SnapshotLayout {
    /// The subfilter headers, oldest first.
    pub fn filter_headers(&self) -> (r: &Vec<[u64; 5]>)
        ensures
            r@.map_values(|h: [u64; 5]| h@) == self@.filters,
    {
        &self.filters
    }

    /// Where each subfilter's bucket bytes start in the snapshot, oldest
    /// first.
    pub fn filter_offsets(&self) -> (r: &Vec<usize>)
        ensures
            r@.map_values(|o: usize| o as int) == self@.offsets,
    {
        &self.offsets
    }

    pub fn object_header(&self) -> (r: [u64; 5])
        ensures
            r@ == self@.header,
    {
        self.header
    }

    /// Bytes the decoded object would account for.
    pub fn memory(&self) -> (r: usize)
        ensures
            r == self@.memory,
    {
        self.memory
    }
}

fn read_word(bytes: &[u8], pos: usize) -> (r: u64)
    requires
        pos + 8 <= bytes@.len(),
    ensures
        r == word_at(bytes@, pos as int),
{
    let n = bytes.len();
    assert(n == bytes@.len());
    u64_from_le_bytes(vstd::slice::slice_subrange(bytes, pos, pos + 8))
}

fn read_header(bytes: &[u8], pos: usize) -> (r: [u64; 5])
    requires
        pos + 40 <= bytes@.len(),
    ensures
        r@ == header_at(bytes@, pos as int),
{
    let n = bytes.len();
    assert(n == bytes@.len());
    let r = [
        read_word(bytes, pos),
        read_word(bytes, pos + 8),
        read_word(bytes, pos + 16),
        read_word(bytes, pos + 24),
        read_word(bytes, pos + 32),
    ];
    assert(r@ =~= header_at(bytes@, pos as int));
    r
}

fn push_header(out: &mut Vec<u8>, h: [u64; 5])
    ensures
        final(out)@ == old(out)@ + header_bytes(h@),
{
    let mut i: usize = 0;
    let ghost start = out@;
    while i < 5
        invariant
            0 <= i <= 5,
            out@ == start + header_bytes_prefix(h@, i as int),
        decreases 5 - i,
    {
        let mut word = u64_to_le_bytes(h[i]);
        let ghost before = out@;
        out.append(&mut word);
        assert(header_bytes_prefix(h@, i + 1) =~= header_bytes_prefix(h@, i as int)
            + spec_u64_to_le_bytes(h@[i as int]));
        assert(out@ =~= start + header_bytes_prefix(h@, i + 1));
        i = i + 1;
    }
    assert(header_bytes_prefix(h@, 5) =~= header_bytes(h@)) by {
        reveal_with_fuel(header_bytes_prefix, 6);
    }
}

/// The first `i` of five words, little-endian.
pub open spec fn header_bytes_prefix(h: Seq<u64>, i: int) -> Seq<u8>
    decreases i,
{
    if i <= 0 {
        seq![]
    } else {
        header_bytes_prefix(h, i - 1) + spec_u64_to_le_bytes(h[i - 1])
    }
}

pub proof fn lemma_records_push(fs: Seq<FilterView>, f: FilterView)
    ensures
        records(fs.push(f)) == records(fs) + filter_record(f),
    decreases fs.len(),
{
    if fs.len() == 0 {
        assert(fs.push(f).drop_first() =~= Seq::<FilterView>::empty());
        assert(records(fs.push(f)) =~= filter_record(f)) by {
            reveal_with_fuel(records, 2);
        }
    } else {
        assert(fs.push(f).drop_first() =~= fs.drop_first().push(f));
        lemma_records_push(fs.drop_first(), f);
        assert(records(fs.push(f)) =~= records(fs) + filter_record(f));
    }
}

fn next_power_of_two(n: usize) -> (r: usize)
    requires
        1 <= n <= 1024,
    ensures
        r == next_pow2(n as nat),
        n <= r <= 2 * n,
        n >= 2 ==> r + 2 <= 2 * n,
    decreases n,
{
    if n <= 1 {
        1
    } else {
        let half = next_power_of_two((n + 1) / 2);
        2 * half
    }
}

/// The headers read so far, as words.
pub open spec fn header_views(hs: Seq<[u64; 5]>) -> Seq<Seq<u64>> {
    hs.map_values(|h: [u64; 5]| h@)
}

pub open spec fn offset_views(os: Seq<usize>) -> Seq<int> {
    os.map_values(|o: usize| o as int)
}

/// Filter-list slots after pushing `count` subfilters one at a time into a
/// list created for one.
pub fn filter_list_capacity(count: usize) -> (r: usize)
    requires
        1 <= count <= 1024,
    ensures
        r == vector_capacity(count as nat),
        count <= r <= 2 * count + 2,
{
    proof {
        lemma_next_pow2(count as nat);
    }
    if count == 1 {
        1
    } else {
        let p = next_power_of_two(count);
        if p >= 4 {
            p
        } else {
            4
        }
    }
}

/// Bytes of the object structure with `reserved` filter-list slots, where
/// they fit.
pub(crate) fn object_base_checked(reserved: usize) -> (r: Option<usize>)
    ensures
        r matches Some(n) ==> n == object_base_bytes(reserved as int),
        r is None ==> object_base_bytes(reserved as int) > usize::MAX,
{
    match reserved.checked_mul(core::mem::size_of::<Box<CuckooFilter>>()) {
        Some(slots) => core::mem::size_of::<CuckooObject>().checked_add(slots),
        None => {
            assert(object_struct_bytes() >= 0);
            None
        },
    }
}

proof fn lemma_terms_nonneg(hs: Seq<Seq<u64>>)
    ensures
        hnonneg(hs, record_terms()),
{
    assert forall|i: int| 0 <= i < hs.len() implies (record_terms())(#[trigger] hs[i]) >= 0 by {
        assert(filter_struct_bytes() >= 0);
    }
}

/// Read a snapshot's outline: check the version, the object words, every
/// subfilter header and that the records fill the input exactly, and compute
/// the bytes the decoded object will account for, without allocating bucket
/// storage.
pub fn parse_snapshot(bytes: &[u8]) -> (r: Result<SnapshotLayout, CuckooError>)
    ensures
        match r {
            Ok(l) => parse_spec(bytes@) == Ok::<LayoutView, CuckooError>(l@),
            Err(e) => parse_spec(bytes@) == Err::<LayoutView, CuckooError>(e),
        },
{
    let n = bytes.len();
    if n == 0 {
        return Err(CuckooError::DecodeFilterFailed);
    }
    if bytes[0] != CUCKOO_OBJECT_VERSION {
        return Err(CuckooError::DecodeUnsupportedVersion);
    }
    if n < 41 {
        return Err(CuckooError::DecodeFilterFailed);
    }
    let header = read_header(bytes, 1);
    CuckooObject::validate_snapshot_header(header)?;
    let count = header[3] as usize;
    let reserve = filter_list_capacity(count);
    let base = match object_base_checked(reserve) {
        Some(b) => b,
        None => {
            return Err(CuckooError::DecodeFilterFailed);
        },
    };
    let ghost b = bytes@;
    assert(header@[3] <= 1024);
    let ghost whole = parse_records(b, 41, count as nat);
    let mut size = base;
    let mut pos: usize = 41;
    let mut filters: Vec<[u64; 5]> = Vec::new();
    let mut offsets: Vec<usize> = Vec::new();
    let mut i: usize = 0;
    while i < count
        invariant
            n == b.len(),
            b == bytes@,
            n >= 41,
            b[0] == CUCKOO_OBJECT_VERSION,
            header@ == header_at(b, 1),
            object_header_error(header@) is None,
            count == header@[3],
            reserve == vector_capacity(count as nat),
            object_base_bytes(reserve as int) <= usize::MAX,
            whole == parse_records(b, 41, count as nat),
            0 <= i <= count,
            41 <= pos <= n,
            filters@.len() == i,
            offsets@.len() == i,
            base == object_base_bytes(reserve as int),
            size == base + terms_sum(header_views(filters@)),
            match parse_records(b, pos as int, (count - i) as nat) {
                None => whole is None,
                Some(r) => whole == Some(
                    (header_views(filters@) + r.0, offset_views(offsets@) + r.1, r.2),
                ),
            },
        decreases count - i,
    {
        let ghost k = (count - i) as nat;
        if pos > n - 40 {
            return Err(CuckooError::DecodeFilterFailed);
        }
        let h = read_header(bytes, pos);
        if !(1 <= h[0] && h[0] <= 4294967296) || h[3] >= 16 || h[1] > h[4] || h[4] > usize::MAX as u64
            || h[0] > usize::MAX as u64 {
            return Err(CuckooError::DecodeFilterFailed);
        }
        let len = h[4] as usize;
        if len > n - (pos + 40) {
            return Err(CuckooError::DecodeFilterFailed);
        }
        let next = pos + 40 + len;
        let ghost tail = parse_records(b, next as int, (k - 1) as nat);
        assert(parse_records(b, pos as int, k) == match tail {
            None => None,
            Some(r) => Some((seq![h@] + r.0, seq![pos + 40] + r.1, r.2)),
        });
        let ghost prefix = header_views(filters@).push(h@);
        proof {
            lemma_hsum_push(header_views(filters@), record_terms(), h@);
        }
        let grown = match size.checked_add(core::mem::size_of::<CuckooFilter>()) {
            Some(s1) => s1.checked_add(len),
            None => None,
        };
        match grown {
            Some(s2) => {
                size = s2;
            },
            None => {
                proof {
                    assert(filter_struct_bytes() >= 0);
                    if let Some(r) = whole {
                        let hs = r.0;
                        let t = tail.unwrap();
                        assert(hs =~= prefix + t.0);
                        assert(hs.take(i + 1) =~= prefix);
                        lemma_terms_nonneg(hs);
                        lemma_hsum_prefix_le(hs, record_terms(), i + 1);
                    }
                }
                return Err(CuckooError::DecodeFilterFailed);
            },
        }
        filters.push(h);
        offsets.push(pos + 40);
        proof {
            assert(header_views(filters@) =~= prefix);
            assert(offset_views(offsets@) =~= offset_views(offsets@.drop_last()).push(pos + 40));
            match tail {
                None => {},
                Some(r) => {
                    assert(header_views(filters@) + r.0 =~= header_views(filters@).drop_last() + (seq![h@] + r.0));
                    assert(offset_views(offsets@) + r.1 =~= offset_views(offsets@).drop_last() + (seq![(pos + 40) as int] + r.1));
                },
            }
        }
        pos = next;
        i = i + 1;
    }
    if pos != n {
        return Err(CuckooError::DecodeFilterFailed);
    }
    let layout = SnapshotLayout { header, filters, offsets, vector_capacity: reserve, memory: size };
    proof {
        assert(parse_records(b, pos as int, 0) == Some((Seq::<Seq<u64>>::empty(), Seq::<int>::empty(), pos as int)));
        assert(header_views(layout.filters@) + Seq::<Seq<u64>>::empty() =~= header_views(layout.filters@));
        assert(offset_views(layout.offsets@) + Seq::<int>::empty() =~= offset_views(layout.offsets@));
        assert(layout@.filters == header_views(layout.filters@));
        assert(layout@.offsets == offset_views(layout.offsets@));
    }
    Ok(layout)
}

/// A record's length: its five words and its bucket bytes.
pub open spec fn size_terms() -> spec_fn(Seq<u64>) -> int {
    |h: Seq<u64>| 40 + h[4]
}

/// The stored fingerprints a header declares.
pub open spec fn len_terms() -> spec_fn(Seq<u64>) -> int {
    |h: Seq<u64>| h[1] as int
}

/// What parsed records satisfy: one header and offset per record, each in
/// range and within the parsed span, the span made of the records alone.
pub proof fn lemma_parse_records_facts(b: Seq<u8>, pos: int, k: nat)
    requires
        parse_records(b, pos, k) is Some,
        0 <= pos <= b.len(),
    ensures
        ({
            let r = parse_records(b, pos, k).unwrap();
            &&& r.0.len() == k
            &&& r.1.len() == k
            &&& 0 <= pos <= r.2 <= b.len()
            &&& hsum(r.0, size_terms()) == r.2 - pos
            &&& forall|i: int|
                0 <= i < k ==> filter_header_shape_ok(#[trigger] r.0[i]) && pos + 40 <= r.1[i]
                    && r.1[i] + r.0[i][4] <= r.2
        }),
    decreases k,
{
    if k == 0 {
    } else {
        let h = header_at(b, pos);
        let next = pos + 40 + h[4];
        lemma_parse_records_facts(b, next, (k - 1) as nat);
        let t = parse_records(b, next, (k - 1) as nat).unwrap();
        let r = parse_records(b, pos, k).unwrap();
        assert(r.0 == seq![h] + t.0);
        assert(r.1 == seq![pos + 40] + t.1);
        lemma_hsum_cons(h, t.0, size_terms());
        assert forall|i: int| 0 <= i < k implies filter_header_shape_ok(#[trigger] r.0[i]) && pos
            + 40 <= r.1[i] && r.1[i] + r.0[i][4] <= r.2 by {
            if i > 0 {
                assert(r.0[i] == t.0[i - 1]);
                assert(r.1[i] == t.1[i - 1]);
            }
        }
    }
}

pub proof fn lemma_next_pow2(n: nat)
    requires
        1 <= n,
    ensures
        n <= next_pow2(n) <= 2 * n,
        n >= 2 ==> next_pow2(n) + 2 <= 2 * n,
    decreases n,
{
    if n > 1 {
        lemma_next_pow2(((n + 1) / 2) as nat);
    }
}

/// The subfilter a snapshot record describes.
pub open spec fn decoded_filter(b: Seq<u8>, h: Seq<u64>, off: int, bucket_size: nat) -> FilterView {
    FilterView {
        capacity: h[0] as int,
        bucket_size,
        len: h[1] as nat,
        rng_word_pos: (h[2] + h[3] * word_base()) as nat,
        buckets: b.subrange(off, off + h[4]),
    }
}

/// The object a snapshot describes, given its outline.
pub open spec fn decoded_object(b: Seq<u8>, l: LayoutView) -> ObjectView {
    ObjectView {
        expansion: l.header[0] as nat,
        bucket_size: l.header[1] as nat,
        max_kicks: l.header[2] as nat,
        filters: Seq::new(
            l.filters.len(),
            |i: int| decoded_filter(b, l.filters[i], l.offsets[i], l.header[1] as nat),
        ),
        num_deleted: l.header[4] as nat,
        reserved: l.vector_capacity,
    }
}

/// Every record's bucket-byte length is what the filter engine allocates for
/// its capacity and the object's bucket size.
pub open spec fn allocations_match(l: LayoutView, allocations: Seq<Option<usize>>) -> bool {
    &&& allocations.len() == l.filters.len()
    &&& forall|i: int|
        0 <= i < l.filters.len() ==> #[trigger] allocations[i] == Some(l.filters[i][4] as usize)
}

/// The filter engine accepts the table of every record.
pub open spec fn engine_accepts_all(l: LayoutView, accepted: Seq<bool>) -> bool {
    &&& accepted.len() == l.filters.len()
    &&& forall|i: int| 0 <= i < l.filters.len() ==> #[trigger] accepted[i]
}

/// The checks decoding makes after reading the outline: those of
/// `outline_check`, then the engine's verdict on each rebuilt table.
pub open spec fn decode_check(
    l: LayoutView,
    allocations: Seq<Option<usize>>,
    accepted: Seq<bool>,
    validate_size_limit: bool,
    memory_limit: usize,
) -> Result<(), CuckooError> {
    match outline_check(l, allocations, validate_size_limit, memory_limit) {
        Err(e) => Err(e),
        Ok(_) => if !engine_accepts_all(l, accepted) {
            Err(CuckooError::DecodeFilterFailed)
        } else {
            Ok(())
        },
    }
}

/// The checks made before any bucket storage is allocated: the engine's
/// allocations, then the memory limit.
pub open spec fn outline_check(
    l: LayoutView,
    allocations: Seq<Option<usize>>,
    validate_size_limit: bool,
    memory_limit: usize,
) -> Result<(), CuckooError> {
    if !allocations_match(l, allocations) {
        Err(CuckooError::DecodeFilterFailed)
    } else if validate_size_limit && l.memory > memory_limit {
        Err(CuckooError::ExceedsMaxSize)
    } else {
        Ok(())
    }
}

/// What decoding a whole snapshot gives: the outline's error, the checks'
/// error, or the object the snapshot describes.
pub open spec fn decode_spec(
    b: Seq<u8>,
    allocations: Seq<Option<usize>>,
    accepted: Seq<bool>,
    validate_size_limit: bool,
    memory_limit: usize,
) -> Result<ObjectView, CuckooError> {
    match parse_spec(b) {
        Err(e) => Err(e),
        Ok(l) => match decode_check(l, allocations, accepted, validate_size_limit, memory_limit) {
            Err(e) => Err(e),
            Ok(_) => Ok(decoded_object(b, l)),
        },
    }
}

/// The object a well-formed snapshot describes is well formed.
pub proof fn lemma_decoded_wf(b: Seq<u8>, l: LayoutView)
    requires
        parse_spec(b) == Ok::<LayoutView, CuckooError>(l),
        b.len() <= isize::MAX,
    ensures
        decoded_object(b, l).wf(),
        l.filters.len() == l.offsets.len(),
        forall|i: int|
            0 <= i < l.filters.len() ==> filter_header_shape_ok(#[trigger] l.filters[i]) && 0
                <= l.offsets[i] && l.offsets[i] + l.filters[i][4] <= b.len()
                && record_terms()(l.filters[i]) <= usize::MAX,
{
    let h = header_at(b, 1);
    let count = h[3] as nat;
    lemma_parse_records_facts(b, 41, count);
    let r = parse_records(b, 41, count).unwrap();
    let hs = r.0;
    let o = decoded_object(b, l);
    let fs = o.filters;
    lemma_next_pow2(count);
    lemma_terms_nonneg(hs);
    assert(object_base_bytes(l.vector_capacity as int) >= 0) by {
        assert(pointer_bytes() >= 0);
        assert(l.vector_capacity * pointer_bytes() >= 0) by (nonlinear_arith)
            requires
                pointer_bytes() >= 0,
        ;
    }
    lemma_hsum_nonneg(hs, record_terms());
    assert forall|i: int| 0 <= i < hs.len() implies record_terms()(#[trigger] hs[i]) <= usize::MAX by {
        lemma_hsum_ge_each(hs, record_terms(), i);
    }
    assert forall|i: int| 0 <= i < fs.len() implies (#[trigger] fs[i]).wf() && fs[i].bucket_size
        == o.bucket_size by {
        assert(filter_header_shape_ok(hs[i]));
        assert(record_terms()(hs[i]) <= usize::MAX);
        assert(hs[i][3] < 16);
        assert(hs[i][2] + hs[i][3] * word_base() < 16 * word_base()) by (nonlinear_arith)
            requires
                hs[i][3] < 16,
                hs[i][2] < word_base(),
        ;
    }
    assert(sum_of(fs, memory_of()) == terms_sum(hs)) by {
        lemma_sum_of_headers(fs, memory_of(), hs, record_terms());
    }
    assert(sum_of(fs, items_of()) <= i64::MAX) by {
        lemma_sum_of_headers(fs, items_of(), hs, len_terms());
        assert forall|i: int| 0 <= i < hs.len() implies len_terms()(#[trigger] hs[i]) <= size_terms()(
            hs[i],
        ) by {
            assert(filter_header_shape_ok(hs[i]));
        }
        lemma_hsum_mono(hs, len_terms(), size_terms());
    }
}

impl CuckooObject {
    /// Check the five object words of a snapshot.
    pub fn validate_snapshot_header(header: [u64; 5]) -> (r: Result<(), CuckooError>)
        ensures
            r == match object_header_error(header@) {
                Some(e) => Err(e),
                None => Ok::<(), CuckooError>(()),
            },
    {
        let expansion = header[0];
        let bucket_size = header[1];
        let max_kicks = header[2];
        let count = header[3];
        let num_deleted = header[4];
        if !(1 <= bucket_size && bucket_size <= 255) {
            return Err(CuckooError::BadBucketSize);
        }
        if !(1 <= max_kicks && max_kicks <= 65535) {
            return Err(CuckooError::BadMaxKicks);
        }
        if expansion > 32768 {
            return Err(CuckooError::BadExpansion);
        }
        if count == 0 || count > 1024 || num_deleted > i64::MAX as u64 {
            return Err(CuckooError::DecodeFilterFailed);
        }
        Ok(())
    }

    /// Check a snapshot's outline against the engine's allocations
    /// (`allocations[i]` for the `i`-th record, as for `decode_object`) and
    /// the memory limit, before any bucket storage is allocated.
    pub fn check_snapshot_outline(
        bytes: &[u8],
        layout: &SnapshotLayout,
        allocations: &Vec<Option<usize>>,
        validate_size_limit: bool,
        memory_limit: usize,
    ) -> (r: Result<(), CuckooError>)
        requires
            parse_spec(bytes@) == Ok::<LayoutView, CuckooError>(layout@),
            bytes@.len() <= isize::MAX,
        ensures
            r == outline_check(layout@, allocations@, validate_size_limit, memory_limit),
    {
        proof {
            lemma_decoded_wf(bytes@, layout@);
        }
        let ghost l = layout@;
        let count = layout.filters.len();
        let bucket_size = layout.header[1] as usize;
        assert(forall|i: int| 0 <= i < count ==> #[trigger] l.filters[i] == layout.filters@[i]@);
        if allocations.len() != count {
            return Err(CuckooError::DecodeFilterFailed);
        }
        let mut i: usize = 0;
        while i < count
            invariant
                count == l.filters.len(),
                count == allocations@.len(),
                l == layout@,
                forall|j: int| 0 <= j < count ==> #[trigger] l.filters[j] == layout.filters@[j]@,
                forall|j: int| 0 <= j < count ==> filter_header_shape_ok(#[trigger] l.filters[j]),
                0 <= i <= count,
                forall|j: int|
                    0 <= j < i ==> #[trigger] allocations@[j] == Some(l.filters[j][4] as usize),
            decreases count - i,
        {
            let checked = CuckooFilter::validate_snapshot_header(layout.filters[i], bucket_size, allocations[i]);
            if checked.is_err() {
                assert(!allocations_match(l, allocations@)) by {
                    assert(filter_header_shape_ok(l.filters[i as int]));
                    assert(!filter_header_valid(layout.filters@[i as int]@, allocations@[i as int]));
                }
                return Err(CuckooError::DecodeFilterFailed);
            }
            i = i + 1;
        }
        assert(allocations_match(l, allocations@));
        if validate_size_limit && layout.memory > memory_limit {
            return Err(CuckooError::ExceedsMaxSize);
        }
        Ok(())
    }

    /// Decode a snapshot whose outline `parse_snapshot` read from `bytes`.
    /// `allocations[i]` is the bucket-byte length the filter engine allocates
    /// for the capacity in the `i`-th subfilter header and the object's bucket
    /// size (`None` where it refuses them); `accepted[i]` is the engine's
    /// verdict on the `i`-th record's table. No bucket storage is allocated
    /// before the allocations and the memory limit have been checked.
    pub fn decode_object(
        bytes: &[u8],
        layout: &SnapshotLayout,
        allocations: &Vec<Option<usize>>,
        accepted: &Vec<bool>,
        validate_size_limit: bool,
        memory_limit: usize,
    ) -> (r: Result<CuckooObject, CuckooError>)
        requires
            parse_spec(bytes@) == Ok::<LayoutView, CuckooError>(layout@),
            bytes@.len() <= isize::MAX,
        ensures
            match decode_check(layout@, allocations@, accepted@, validate_size_limit, memory_limit) {
                Err(e) => r == Err::<CuckooObject, CuckooError>(e),
                Ok(_) => r matches Ok(o) && o@ == decoded_object(bytes@, layout@) && o@.wf(),
            },
    {
        proof {
            lemma_decoded_wf(bytes@, layout@);
        }
        let ghost l = layout@;
        let count = layout.filters.len();
        let bucket_size = layout.header[1] as usize;
        assert(forall|i: int| 0 <= i < count ==> #[trigger] l.filters[i] == layout.filters@[i]@);
        assert(forall|i: int| 0 <= i < count ==> #[trigger] l.offsets[i] == layout.offsets@[i] as int);
        Self::check_snapshot_outline(bytes, layout, allocations, validate_size_limit, memory_limit)?;
        assert(allocations_match(l, allocations@));
        if accepted.len() != count {
            return Err(CuckooError::DecodeFilterFailed);
        }
        let ghost target = decoded_object(bytes@, l);
        let n = bytes.len();
        let mut filters: Vec<Box<CuckooFilter>> = Vec::new();
        let mut i: usize = 0;
        while i < count
            invariant
                count == l.filters.len(),
                count == l.offsets.len(),
                count == allocations@.len(),
                l == layout@,
                target == decoded_object(bytes@, l),
                target.wf(),
                n == bytes@.len(),
                bytes@.len() <= isize::MAX,
                bucket_size == l.header[1],
                forall|j: int| 0 <= j < count ==> #[trigger] l.filters[j] == layout.filters@[j]@,
                forall|j: int| 0 <= j < count ==> #[trigger] l.offsets[j] == layout.offsets@[j] as int,
                allocations_match(l, allocations@),
                accepted@.len() == count,
                forall|j: int| 0 <= j < i ==> #[trigger] accepted@[j],
                !(validate_size_limit && l.memory > memory_limit),
                forall|j: int|
                    0 <= j < count ==> filter_header_shape_ok(#[trigger] l.filters[j]) && 0
                        <= l.offsets[j] && l.offsets[j] + l.filters[j][4] <= bytes@.len()
                        && record_terms()(l.filters[j]) <= usize::MAX,
                0 <= i <= count,
                filters@.len() == i,
                forall|j: int| 0 <= j < i ==> (#[trigger] filters@[j])@ == target.filters[j],
            decreases count - i,
        {
            let header = layout.filters[i];
            let offset = layout.offsets[i];
            assert(l.filters[i as int] == header@);
            assert(filter_header_shape_ok(header@));
            let len = header[4] as usize;
            let values = vstd::slice::slice_to_vec(vstd::slice::slice_subrange(bytes, offset, offset + len));
            assert(allocations@[i as int] == Some(header@[4] as usize));
            let checked = match CuckooFilter::validate_snapshot_header(header, bucket_size, allocations[i]) {
                Ok(h) => h,
                Err(e) => {
                    return Err(e);
                },
            };
            let filter = match CuckooFilter::from_snapshot(checked, values, accepted[i]) {
                Ok(f) => f,
                Err(e) => {
                    assert(!engine_accepts_all(l, accepted@)) by {
                        assert(!accepted@[i as int]);
                    }
                    return Err(e);
                },
            };
            assert(filter@ == target.filters[i as int]);
            filters.push(Box::new(filter));
            i = i + 1;
        }
        proof {
            assert(CuckooObject::filter_views(filters@) =~= target.filters);
            assert(engine_accepts_all(l, accepted@));
        }
        let object = CuckooObject::from_parts(
            layout.header[0] as u32,
            bucket_size,
            layout.header[2] as u32,
            filters,
            layout.header[4],
            layout.vector_capacity,
        );
        Ok(object)
    }

    /// Decode a snapshot: read its outline (version, words, record layout),
    /// then check and rebuild it as `decode_object` does. `allocations` and
    /// `accepted` are the filter engine's answers for the snapshot's records,
    /// in order.
    pub fn decode_snapshot(
        bytes: &[u8],
        allocations: &Vec<Option<usize>>,
        accepted: &Vec<bool>,
        validate_size_limit: bool,
        memory_limit: usize,
    ) -> (r: Result<CuckooObject, CuckooError>)
        requires
            bytes@.len() <= isize::MAX,
        ensures
            match decode_spec(bytes@, allocations@, accepted@, validate_size_limit, memory_limit) {
                Err(e) => r == Err::<CuckooObject, CuckooError>(e),
                Ok(v) => r matches Ok(o) && o@ == v && o@.wf(),
            },
    {
        let layout = parse_snapshot(bytes)?;
        Self::decode_object(bytes, &layout, allocations, accepted, validate_size_limit, memory_limit)
    }

    /// The snapshot of this object.
    pub fn encode_object(&self) -> (r: Vec<u8>)
        requires
            self@.wf(),
        ensures
            r@ == encode_spec(self@),
    {
        let mut bytes: Vec<u8> = Vec::new();
        bytes.push(CUCKOO_OBJECT_VERSION);
        push_header(&mut bytes, self.snapshot_header());
        let filters = self.filters();
        let ghost fs = self@.filters;
        let ghost start = bytes@;
        assert(forall|j: int| 0 <= j < filters@.len() ==> #[trigger] fs[j] == filters@[j]@);
        let mut i: usize = 0;
        assert(fs.take(0) =~= Seq::<FilterView>::empty());
        while i < filters.len()
            invariant
                self@.wf(),
                fs == self@.filters,
                fs.len() == filters@.len(),
                forall|j: int| 0 <= j < filters@.len() ==> #[trigger] fs[j] == filters@[j]@,
                0 <= i <= fs.len(),
                bytes@ == start + records(fs.take(i as int)),
            decreases fs.len() - i,
        {
            let f = &filters[i];
            assert(fs[i as int].wf());
            push_header(&mut bytes, f.snapshot_header());
            bytes.extend_from_slice(f.as_bytes());
            proof {
                assert(fs.take(i + 1) =~= fs.take(i as int).push(fs[i as int]));
                lemma_records_push(fs.take(i as int), fs[i as int]);
                assert(bytes@ =~= start + records(fs.take(i + 1)));
            }
            i = i + 1;
        }
        assert(fs.take(fs.len() as int) =~= fs);
        assert(bytes@ =~= encode_spec(self@));
        bytes
    }
}

} // verus!

verus! {

/// The subfilter headers of an object, oldest first.
pub open spec fn headers_of(fs: Seq<FilterView>) -> Seq<Seq<u64>> {
    fs.map_values(|f: FilterView| f.header())
}

/// The engine allocation of each subfilter of an object: its bucket-byte length.
pub open spec fn allocations_of(o: ObjectView) -> Seq<Option<usize>> {
    o.filters.map_values(|f: FilterView| Some(f.buckets.len() as usize))
}

proof fn lemma_header_bytes_len(h: Seq<u64>)
    ensures
        header_bytes(h).len() == 40,
{
    lemma_auto_spec_u64_to_from_le_bytes();
}

/// Five words written little-endian read back as the same words.
proof fn lemma_header_at(b: Seq<u8>, p: int, h: Seq<u64>)
    requires
        h.len() == 5,
        0 <= p,
        p + 40 <= b.len(),
        b.subrange(p, p + 40) == header_bytes(h),
    ensures
        header_at(b, p) == h,
{
    lemma_auto_spec_u64_to_from_le_bytes();
    let hb = header_bytes(h);
    assert(spec_u64_to_le_bytes(h[0]).len() == 8);
    assert(spec_u64_to_le_bytes(h[1]).len() == 8);
    assert(spec_u64_to_le_bytes(h[2]).len() == 8);
    assert(spec_u64_to_le_bytes(h[3]).len() == 8);
    assert(spec_u64_to_le_bytes(h[4]).len() == 8);
    let a0 = spec_u64_to_le_bytes(h[0]);
    let a1 = spec_u64_to_le_bytes(h[1]);
    let a2 = spec_u64_to_le_bytes(h[2]);
    let a3 = spec_u64_to_le_bytes(h[3]);
    let a4 = spec_u64_to_le_bytes(h[4]);
    let s1 = a0 + a1;
    let s2 = s1 + a2;
    let s3 = s2 + a3;
    assert(hb == s3 + a4);
    assert(hb.subrange(0, 32) =~= s3);
    assert(hb.subrange(32, 40) =~= a4);
    assert(s3.subrange(0, 24) =~= s2);
    assert(s3.subrange(24, 32) =~= a3);
    assert(s2.subrange(0, 16) =~= s1);
    assert(s2.subrange(16, 24) =~= a2);
    assert(s1.subrange(0, 8) =~= a0);
    assert(s1.subrange(8, 16) =~= a1);
    assert(hb.subrange(24, 32) =~= a3);
    assert(hb.subrange(16, 24) =~= a2);
    assert(hb.subrange(8, 16) =~= a1);
    assert(hb.subrange(0, 8) =~= a0);
    assert(b.subrange(p, p + 8) =~= hb.subrange(0, 8));
    assert(b.subrange(p + 8, p + 16) =~= hb.subrange(8, 16));
    assert(b.subrange(p + 16, p + 24) =~= hb.subrange(16, 24));
    assert(b.subrange(p + 24, p + 32) =~= hb.subrange(24, 32));
    assert(b.subrange(p + 32, p + 40) =~= hb.subrange(32, 40));
    assert(header_at(b, p) =~= h);
}

/// The header of a well-formed subfilter passes the range checks.
proof fn lemma_header_shape(f: FilterView)
    requires
        f.wf(),
    ensures
        filter_header_shape_ok(f.header()),
        f.header()[4] == f.buckets.len(),
        record_terms()(f.header()) == f.memory(),
        len_terms()(f.header()) == f.len,
{
    assert(f.rng_word_pos as int / word_base() < 16);
}

/// Records written one after another read back as the same headers, each
/// followed by the same bucket bytes.
proof fn lemma_parse_encoded(b: Seq<u8>, pos: int, fs: Seq<FilterView>)
    requires
        forall|i: int| 0 <= i < fs.len() ==> (#[trigger] fs[i]).wf(),
        0 <= pos,
        pos + records(fs).len() <= b.len(),
        b.subrange(pos, pos + records(fs).len()) == records(fs),
    ensures
        parse_records(b, pos, fs.len()) matches Some(r) && r.0 == headers_of(fs) && r.2 == pos
            + records(fs).len() && r.1.len() == fs.len() && (forall|i: int|
            0 <= i < fs.len() ==> b.subrange(#[trigger] r.1[i], r.1[i] + fs[i].buckets.len())
                == fs[i].buckets),
    decreases fs.len(),
{
    if fs.len() == 0 {
        assert(headers_of(fs) =~= Seq::<Seq<u64>>::empty());
    } else {
        let f = fs[0];
        let rest = fs.drop_first();
        let hb = header_bytes(f.header());
        lemma_header_bytes_len(f.header());
        lemma_header_shape(f);
        let rec = records(fs);
        assert(rec == hb + f.buckets + records(rest));
        assert(b.subrange(pos, pos + 40) =~= hb) by {
            assert(b.subrange(pos, pos + 40) =~= rec.subrange(0, 40));
        }
        lemma_header_at(b, pos, f.header());
        let len = f.buckets.len() as int;
        let next = pos + 40 + len;
        assert(b.subrange(pos + 40, next) =~= f.buckets) by {
            assert(b.subrange(pos + 40, next) =~= rec.subrange(40, 40 + len));
        }
        assert(b.subrange(next, next + records(rest).len()) =~= records(rest)) by {
            assert(b.subrange(next, next + records(rest).len()) =~= rec.subrange(
                40 + len,
                rec.len() as int,
            ));
        }
        assert forall|i: int| 0 <= i < rest.len() implies (#[trigger] rest[i]).wf() by {
            assert(rest[i] == fs[i + 1]);
        }
        lemma_parse_encoded(b, next, rest);
        let t = parse_records(b, next, rest.len()).unwrap();
        assert(f.header()[4] == len);
        let r = parse_records(b, pos, fs.len()).unwrap();
        assert(r.0 == seq![f.header()] + t.0);
        assert(r.0 =~= headers_of(fs));
        assert forall|i: int| 0 <= i < fs.len() implies b.subrange(
            #[trigger] r.1[i],
            r.1[i] + fs[i].buckets.len(),
        ) == fs[i].buckets by {
            if i > 0 {
                assert(r.1[i] == t.1[i - 1]);
                assert(fs[i] == rest[i - 1]);
            }
        }
    }
}

/// Reading records does not look past the bytes it consumed.
proof fn lemma_parse_prefix(b: Seq<u8>, c: Seq<u8>, pos: int, k: nat)
    requires
        b.len() <= c.len(),
        c.subrange(0, b.len() as int) == b,
        parse_records(b, pos, k) is Some,
    ensures
        parse_records(c, pos, k) == parse_records(b, pos, k),
    decreases k,
{
    if k > 0 {
        assert(c.subrange(pos + 0, pos + 8) =~= b.subrange(pos + 0, pos + 8));
        assert(c.subrange(pos + 8, pos + 16) =~= b.subrange(pos + 8, pos + 16));
        assert(c.subrange(pos + 16, pos + 24) =~= b.subrange(pos + 16, pos + 24));
        assert(c.subrange(pos + 24, pos + 32) =~= b.subrange(pos + 24, pos + 32));
        assert(c.subrange(pos + 32, pos + 40) =~= b.subrange(pos + 32, pos + 40));
        assert(header_at(c, pos) == header_at(b, pos));
        let h = header_at(b, pos);
        lemma_parse_prefix(b, c, pos + 40 + h[4], (k - 1) as nat);
    }
}

proof fn lemma_encoded_layout(o: ObjectView)
    requires
        o.wf(),
    ensures
        ({
            let b = encode_spec(o);
            &&& b.len() >= 41
            &&& b[0] == CUCKOO_OBJECT_VERSION
            &&& header_at(b, 1) == o.header()
            &&& object_header_error(o.header()) is None
            &&& parse_records(b, 41, o.filters.len()) matches Some(r) && r.0 == headers_of(
                o.filters,
            ) && r.2 == b.len() && r.1.len() == o.filters.len() && (forall|i: int|
                0 <= i < o.filters.len() ==> b.subrange(
                    #[trigger] r.1[i],
                    r.1[i] + o.filters[i].buckets.len(),
                ) == o.filters[i].buckets)
        }),
{
    let b = encode_spec(o);
    let hb = header_bytes(o.header());
    lemma_header_bytes_len(o.header());
    assert(b.subrange(1, 41) =~= hb);
    lemma_header_at(b, 1, o.header());
    assert(b.subrange(41, b.len() as int) =~= records(o.filters));
    lemma_parse_encoded(b, 41, o.filters);
}

/// The engine accepts each of `n` tables.
pub open spec fn all_accepted(n: nat) -> Seq<bool> {
    Seq::new(n, |i: int| true)
}

/// A snapshot decodes to the object it was written from: same configuration,
/// subfilters (bucket bytes, fingerprint counts, RNG positions, capacities) and
/// deletion count, given the engine's allocations for its subfilters and its
/// acceptance of their tables, wherever the decoded object's accounted bytes
/// fit in `usize`.
pub proof fn lemma_snapshot_roundtrip(o: ObjectView)
    requires
        o.wf(),
        object_base_bytes(vector_capacity(o.filters.len()) as int) + sum_of(o.filters, memory_of())
            <= usize::MAX,
    ensures
        parse_spec(encode_spec(o)) matches Ok(l) && l.header == o.header() && l.filters
            == headers_of(o.filters),
        decode_spec(encode_spec(o), allocations_of(o), all_accepted(o.filters.len()), false, 0)
            matches Ok(v) && v.same_contents(o),
{
    let b = encode_spec(o);
    lemma_encoded_layout(o);
    let r = parse_records(b, 41, o.filters.len()).unwrap();
    let hs = r.0;
    let fs = o.filters;
    assert forall|i: int| 0 <= i < fs.len() implies record_terms()(#[trigger] fs[i].header())
        == memory_of()(fs[i]) by {
        lemma_header_shape(fs[i]);
    }
    assert forall|i: int| 0 <= i < fs.len() implies memory_of()(#[trigger] fs[i]) == record_terms()(
        hs[i],
    ) by {
        lemma_header_shape(fs[i]);
    }
    lemma_sum_of_headers(fs, memory_of(), hs, record_terms());
    assert forall|i: int| 0 <= i < fs.len() implies memory_of()(#[trigger] fs[i]) >= 0 by {
        assert(fs[i].wf());
    }
    crate::sums::lemma_sum_nonneg(fs, memory_of());
    let l = parse_spec(b).unwrap();
    assert(allocations_match(l, allocations_of(o))) by {
        assert forall|i: int| 0 <= i < l.filters.len() implies #[trigger] allocations_of(o)[i]
            == Some(l.filters[i][4] as usize) by {
            lemma_header_shape(fs[i]);
        }
    }
    let d = decoded_object(b, l);
    assert forall|i: int| 0 <= i < fs.len() implies #[trigger] d.filters[i] == fs[i] by {
        let f = fs[i];
        assert(f.wf());
        assert(f.bucket_size == o.bucket_size);
        lemma_header_shape(f);
        let rp = f.rng_word_pos as int;
        assert(rp == rp % word_base() + (rp / word_base()) * word_base());
    }
    assert(d.filters =~= fs);
}

/// Every proper prefix of a snapshot is refused.
pub proof fn lemma_truncated_snapshot_rejected(o: ObjectView, k: int)
    requires
        o.wf(),
        0 <= k < encode_spec(o).len(),
    ensures
        parse_spec(encode_spec(o).take(k)) is Err,
{
    let full = encode_spec(o);
    let b = full.take(k);
    lemma_encoded_layout(o);
    if parse_spec(b) is Ok {
        assert(b.len() >= 41);
        assert(full.subrange(1int, 9int) =~= b.subrange(1int, 9int));
        assert(full.subrange(9int, 17int) =~= b.subrange(9int, 17int));
        assert(full.subrange(17int, 25int) =~= b.subrange(17int, 25int));
        assert(full.subrange(25int, 33int) =~= b.subrange(25int, 33int));
        assert(full.subrange(33int, 41int) =~= b.subrange(33int, 41int));
        assert(header_at(b, 1) == header_at(full, 1));
        assert(full.subrange(0, b.len() as int) =~= b);
        lemma_parse_prefix(b, full, 41, o.filters.len());
    }
}

/// A snapshot followed by any further bytes is refused.
pub proof fn lemma_extended_snapshot_rejected(o: ObjectView, extra: Seq<u8>)
    requires
        o.wf(),
        extra.len() > 0,
    ensures
        parse_spec(encode_spec(o) + extra) is Err,
{
    let full = encode_spec(o);
    let c = full + extra;
    lemma_encoded_layout(o);
    assert(c.subrange(1int, 9int) =~= full.subrange(1int, 9int));
    assert(c.subrange(9int, 17int) =~= full.subrange(9int, 17int));
    assert(c.subrange(17int, 25int) =~= full.subrange(17int, 25int));
    assert(c.subrange(25int, 33int) =~= full.subrange(25int, 33int));
    assert(c.subrange(33int, 41int) =~= full.subrange(33int, 41int));
    assert(header_at(c, 1) == header_at(full, 1));
    assert(c.subrange(0, full.len() as int) =~= full);
    lemma_parse_prefix(full, c, 41, o.filters.len());
}

/// A copy writes the same snapshot as the object it was copied from: the
/// snapshot depends only on the configuration, the subfilters (with their RNG
/// positions) and the deletion count, which a copy keeps.
pub proof fn lemma_copy_snapshot_identical(o: ObjectView, copy: ObjectView)
    requires
        copy.same_contents(o),
    ensures
        encode_spec(copy) == encode_spec(o),
{
    assert(copy.header() =~= o.header());
}

/// Five words read at `p` write back as the same forty bytes.
proof fn lemma_header_rewrites(b: Seq<u8>, p: int)
    requires
        0 <= p,
        p + 40 <= b.len(),
    ensures
        header_bytes(header_at(b, p)) == b.subrange(p, p + 40),
{
    lemma_auto_spec_u64_to_from_le_bytes();
    assert(b.subrange(p, p + 8).len() == 8);
    assert(b.subrange(p + 8, p + 16).len() == 8);
    assert(b.subrange(p + 16, p + 24).len() == 8);
    assert(b.subrange(p + 24, p + 32).len() == 8);
    assert(b.subrange(p + 32, p + 40).len() == 8);
    assert(spec_u64_to_le_bytes(word_at(b, p)) == b.subrange(p, p + 8));
    assert(spec_u64_to_le_bytes(word_at(b, p + 8)) == b.subrange(p + 8, p + 16));
    assert(spec_u64_to_le_bytes(word_at(b, p + 16)) == b.subrange(p + 16, p + 24));
    assert(spec_u64_to_le_bytes(word_at(b, p + 24)) == b.subrange(p + 24, p + 32));
    assert(spec_u64_to_le_bytes(word_at(b, p + 32)) == b.subrange(p + 32, p + 40));
    assert(header_bytes(header_at(b, p)) =~= b.subrange(p, p + 40));
}

/// The subfilter a record describes writes back the record's words.
proof fn lemma_decoded_filter_header(b: Seq<u8>, h: Seq<u64>, off: int, bucket_size: nat)
    requires
        h.len() == 5,
        filter_header_shape_ok(h),
        0 <= off,
        off + h[4] <= b.len(),
    ensures
        decoded_filter(b, h, off, bucket_size).header() == h,
{
    let w = word_base();
    let low = h[2] as int;
    let high = h[3] as int;
    assert((low + high * w) % w == low && (low + high * w) / w == high) by (nonlinear_arith)
        requires
            0 <= low < w,
            0 <= high,
            w > 0,
    ;
    assert(decoded_filter(b, h, off, bucket_size).header() =~= h);
}

/// The subfilters that parsed records describe write back exactly the bytes
/// the records were read from.
proof fn lemma_records_rewrite(b: Seq<u8>, pos: int, k: nat, bucket_size: nat)
    requires
        0 <= pos <= b.len(),
        parse_records(b, pos, k) is Some,
    ensures
        ({
            let r = parse_records(b, pos, k).unwrap();
            records(Seq::new(k, |i: int| decoded_filter(b, r.0[i], r.1[i], bucket_size)))
                == b.subrange(pos, r.2)
        }),
    decreases k,
{
    let r = parse_records(b, pos, k).unwrap();
    let fs = Seq::new(k, |i: int| decoded_filter(b, r.0[i], r.1[i], bucket_size));
    if k == 0 {
        assert(b.subrange(pos, r.2) =~= Seq::<u8>::empty());
    } else {
        let h = header_at(b, pos);
        let next = pos + 40 + h[4];
        lemma_records_rewrite(b, next, (k - 1) as nat, bucket_size);
        lemma_parse_records_facts(b, next, (k - 1) as nat);
        let t = parse_records(b, next, (k - 1) as nat).unwrap();
        let ts = Seq::new((k - 1) as nat, |i: int| decoded_filter(b, t.0[i], t.1[i], bucket_size));
        assert(r.0 == seq![h] + t.0);
        assert(r.1 == seq![pos + 40] + t.1);
        assert(fs.drop_first() =~= ts) by {
            assert forall|i: int| 0 <= i < ts.len() implies #[trigger] fs.drop_first()[i] == ts[i] by {
                assert(r.0[i + 1] == t.0[i]);
                assert(r.1[i + 1] == t.1[i]);
            }
        }
        assert(fs[0] == decoded_filter(b, h, pos + 40, bucket_size));
        lemma_decoded_filter_header(b, h, pos + 40, bucket_size);
        lemma_header_rewrites(b, pos);
        assert(records(fs) == filter_record(fs[0]) + records(ts));
        assert(records(fs) =~= b.subrange(pos, t.2));
    }
}

/// Decoding accepts only canonical snapshots: an object decoded from `b`
/// encodes back to exactly `b`.
pub proof fn lemma_decode_canonical(
    b: Seq<u8>,
    allocations: Seq<Option<usize>>,
    accepted: Seq<bool>,
    validate_size_limit: bool,
    memory_limit: usize,
)
    requires
        decode_spec(b, allocations, accepted, validate_size_limit, memory_limit) is Ok,
    ensures
        encode_spec(decode_spec(b, allocations, accepted, validate_size_limit, memory_limit).unwrap())
            == b,
{
    let l = parse_spec(b).unwrap();
    let h = header_at(b, 1);
    let k = h[3] as nat;
    let bs = h[1] as nat;
    lemma_parse_records_facts(b, 41, k);
    let r = parse_records(b, 41, k).unwrap();
    lemma_records_rewrite(b, 41, k, bs);
    let o = decoded_object(b, l);
    assert(o.filters =~= Seq::new(k, |i: int| decoded_filter(b, r.0[i], r.1[i], bs)));
    assert(o.header() =~= h);
    lemma_header_rewrites(b, 1);
    assert(encode_spec(o) =~= b);
}

} // verus!
