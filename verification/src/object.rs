use vstd::prelude::*;
use crate::error::CuckooError;
use crate::filter::{filter_bytes_spec, CuckooFilter, FilterTable, FilterView};
use crate::limits::{
    bucket_size_in_range, capacity_in_range, expansion_in_range, max_kicks_in_range,
    validate_bucket_size, validate_capacity, validate_max_kicks, CUCKOO_CAPACITY_MAX,
    CUCKOO_EXPANSION_MAX, CUCKOO_NUM_FILTERS_PER_OBJECT_LIMIT_MAX,
};
use crate::snapshot::{filter_list_capacity, lemma_next_pow2, object_base_checked, vector_capacity};
use crate::sums::{
    capacity_of, items_of, lemma_sum_nonneg, lemma_sum_prefix_le, lemma_sum_prefix_step,
    lemma_sum_push, lemma_sum_take_all, lemma_sum_update, memory_of, nonneg_on, sum_of,
};

verus! {

/// The filter-count limit, as an integer.
pub open spec fn max_filters() -> int {
    CUCKOO_NUM_FILTERS_PER_OBJECT_LIMIT_MAX as int
}

pub open spec fn pointer_bytes() -> int {
    vstd::layout::size_of::<Box<CuckooFilter>>() as int
}

pub open spec fn object_struct_bytes() -> int {
    vstd::layout::size_of::<CuckooObject>() as int
}

/// Bytes of the object structure with `reserved` subfilter slots.
pub open spec fn object_base_bytes(reserved: int) -> int {
    object_struct_bytes() + reserved * pointer_bytes()
}

/// One insertion attempt into an existing subfilter: without eviction, or
/// with the engine's bounded eviction walk.
#[derive(Debug, Clone, Copy, PartialEq, Eq, Structural)]
pub enum Attempt {
    Direct(usize),
    Evict(usize),
}

/// What a cuckoo object holds, as mathematical values. `reserved` is the
/// number of subfilter slots the object accounts for in its filter list.
pub struct ObjectView {
    pub expansion: nat,
    pub bucket_size: nat,
    pub max_kicks: nat,
    pub filters: Seq<FilterView>,
    pub num_deleted: nat,
    pub reserved: nat,
}

impl ObjectView {
    pub open spec fn memory(self) -> int {
        object_base_bytes(self.reserved as int) + sum_of(self.filters, memory_of())
    }

    pub open spec fn total_items(self) -> int {
        sum_of(self.filters, items_of())
    }

    pub open spec fn total_capacity(self) -> int {
        sum_of(self.filters, capacity_of())
    }

    pub open spec fn newest(self) -> FilterView {
        self.filters.last()
    }

    pub open spec fn wf(self) -> bool {
        &&& bucket_size_in_range(self.bucket_size as int)
        &&& max_kicks_in_range(self.max_kicks as int)
        &&& expansion_in_range(self.expansion as int)
        &&& 1 <= self.filters.len() <= max_filters()
        &&& self.filters.len() <= self.reserved <= 2 * max_filters()
        &&& forall|i: int|
            0 <= i < self.filters.len() ==> (#[trigger] self.filters[i]).wf()
                && self.filters[i].bucket_size == self.bucket_size
        &&& self.num_deleted <= i64::MAX
        &&& self.total_items() <= i64::MAX
        &&& self.memory() <= usize::MAX
    }

    /// The same configuration, subfilters and deletion count.
    pub open spec fn same_contents(self, other: ObjectView) -> bool {
        &&& self.expansion == other.expansion
        &&& self.bucket_size == other.bucket_size
        &&& self.max_kicks == other.max_kicks
        &&& self.filters == other.filters
        &&& self.num_deleted == other.num_deleted
    }

    /// The five snapshot words: expansion, bucket size, max kicks, subfilter
    /// count and deletion count.
    pub open spec fn header(self) -> Seq<u64> {
        seq![
            self.expansion as u64,
            self.bucket_size as u64,
            self.max_kicks as u64,
            self.filters.len() as u64,
            self.num_deleted as u64,
        ]
    }
}

/// Direct attempts into the first `k` subfilters, newest first, skipping
/// those with no free slot.
pub open spec fn direct_attempts(fs: Seq<FilterView>, k: int) -> Seq<Attempt>
    decreases k,
{
    if k <= 0 {
        seq![]
    } else {
        let rest = direct_attempts(fs, k - 1);
        if fs[k - 1].is_full() {
            rest
        } else {
            seq![Attempt::Direct((k - 1) as usize)] + rest
        }
    }
}

/// Every directly available slot is tried before one eviction walk in the
/// newest subfilter.
pub open spec fn insertion_plan_spec(o: ObjectView) -> Seq<Attempt> {
    let n = o.filters.len() as int;
    direct_attempts(o.filters, n) + if o.filters[n - 1].is_full() {
        seq![]
    } else {
        seq![Attempt::Evict((n - 1) as usize)]
    }
}

/// Subfilter indexes from newest to oldest.
pub open spec fn newest_first(n: int) -> Seq<usize> {
    Seq::new(n as nat, |j: int| (n - 1 - j) as usize)
}

/// The first refused argument of a reservation, in the order they are checked.
pub open spec fn reserve_error(
    capacity: i64,
    bucket_size: usize,
    max_kicks: u32,
    expansion: u32,
) -> Option<CuckooError> {
    if !capacity_in_range(capacity as int) {
        Some(CuckooError::BadCapacity)
    } else if !bucket_size_in_range(bucket_size as int) {
        Some(CuckooError::BadBucketSize)
    } else if !max_kicks_in_range(max_kicks as int) {
        Some(CuckooError::BadMaxKicks)
    } else if !expansion_in_range(expansion as int) {
        Some(CuckooError::BadExpansion)
    } else {
        None
    }
}

/// Bytes a new object with one subfilter would account for, if they can be
/// computed and every partial sum fits.
pub open spec fn create_bytes(capacity: i64, allocation: Option<usize>) -> Option<int> {
    match filter_bytes_spec(capacity as int, allocation) {
        Some(f) => {
            let a = f + object_struct_bytes();
            let b = a + pointer_bytes();
            if a <= usize::MAX && b <= usize::MAX {
                Some(b)
            } else {
                None
            }
        },
        None => None,
    }
}

pub open spec fn size_allowed(bytes: Option<int>, validate_size_limit: bool, memory_limit: usize) -> bool {
    match bytes {
        Some(n) => !validate_size_limit || n <= memory_limit,
        None => false,
    }
}

/// The outcome of checking a reservation request.
pub open spec fn reserve_check_spec(
    capacity: i64,
    bucket_size: usize,
    max_kicks: u32,
    expansion: u32,
    validate_size_limit: bool,
    memory_limit: usize,
    allocation: Option<usize>,
) -> Result<(), CuckooError> {
    match reserve_error(capacity, bucket_size, max_kicks, expansion) {
        Some(e) => Err(e),
        None => if size_allowed(create_bytes(capacity, allocation), validate_size_limit, memory_limit) {
            Ok(())
        } else {
            Err(CuckooError::ExceedsMaxSize)
        },
    }
}

/// Capacity of the next subfilter, or why the object cannot grow.
pub open spec fn growth_capacity_spec(o: ObjectView) -> Result<i64, CuckooError> {
    if o.expansion == 0 {
        Err(CuckooError::NonScalingFilterFull)
    } else if o.filters.len() >= max_filters() {
        Err(CuckooError::MaxNumScalingFilters)
    } else {
        let c = o.newest().capacity * o.expansion;
        if c > CUCKOO_CAPACITY_MAX {
            Err(CuckooError::MaxScalingCapacity)
        } else {
            Ok(c as i64)
        }
    }
}

/// Bytes by which the filter list grows when a subfilter is added.
pub open spec fn vector_growth(o: ObjectView) -> int {
    if o.filters.len() == o.reserved {
        (if o.reserved >= 4 { o.reserved as int } else { 4 }) * pointer_bytes()
    } else {
        0
    }
}

/// The reservation of the filter list after a subfilter is added.
pub open spec fn reserved_after_push(o: ObjectView) -> nat {
    if o.filters.len() == o.reserved {
        if 2 * o.reserved >= 4 {
            2 * o.reserved
        } else {
            4
        }
    } else {
        o.reserved
    }
}

/// Bytes the object would account for after growing by a subfilter of
/// `capacity`, if they can be computed and every partial sum fits.
pub open spec fn scaling_bytes(o: ObjectView, capacity: i64, allocation: Option<usize>) -> Option<int> {
    match filter_bytes_spec(capacity as int, allocation) {
        Some(f) => {
            let a = f + o.memory();
            let b = a + vector_growth(o);
            if a <= usize::MAX && b <= usize::MAX {
                Some(b)
            } else {
                None
            }
        },
        None => None,
    }
}

pub open spec fn growth_check_spec(
    o: ObjectView,
    capacity: i64,
    allocation: Option<usize>,
    validate_size_limit: bool,
    memory_limit: usize,
) -> Result<(), CuckooError> {
    if size_allowed(scaling_bytes(o, capacity, allocation), validate_size_limit, memory_limit) {
        Ok(())
    } else {
        Err(CuckooError::ExceedsMaxSize)
    }
}

/// The subfilter an attempt names.
pub open spec fn attempt_index(a: Attempt) -> int {
    match a {
        Attempt::Direct(i) => i as int,
        Attempt::Evict(i) => i as int,
    }
}

/// What an engine insertion into a subfilter hands back: a table of the same
/// storage holding one fingerprint more.
pub open spec fn inserted_table(f: FilterView, t: FilterTable) -> bool {
    &&& t.wf()
    &&& t.buckets@.len() == f.buckets.len()
    &&& t.len == f.len + 1
}

/// The object after an insertion left table `t` in subfilter `i`.
pub open spec fn after_insert(o: ObjectView, i: int, t: FilterTable) -> ObjectView {
    ObjectView {
        filters: o.filters.update(
            i,
            FilterView {
                len: t.len as nat,
                rng_word_pos: t.rng_word_pos as nat,
                buckets: t.buckets@,
                ..o.filters[i]
            },
        ),
        ..o
    }
}

/// The object after growing by a subfilter of `capacity` holding table `t`.
pub open spec fn after_growth(o: ObjectView, capacity: i64, t: FilterTable) -> ObjectView {
    ObjectView {
        filters: o.filters.push(
            FilterView {
                capacity: capacity as int,
                bucket_size: o.bucket_size,
                len: t.len as nat,
                rng_word_pos: t.rng_word_pos as nat,
                buckets: t.buckets@,
            },
        ),
        reserved: reserved_after_push(o),
        ..o
    }
}

/// Whether an attempt runs the eviction walk.
pub open spec fn attempt_evicts(a: Attempt) -> bool {
    a is Evict
}

/// The engine refused attempt `a` for item `item` on the subfilter of `o`
/// it names.
pub open spec fn attempt_refused<T>(try_insert: T, item: usize, o: CuckooObject, a: Attempt) -> bool where
    T: Fn(usize, &CuckooFilter, bool) -> Option<FilterTable>,
 {
    call_ensures(
        try_insert,
        (item, &o.filter_at(attempt_index(a)), attempt_evicts(a)),
        None::<FilterTable>,
    )
}

/// The engine stored item `item` by attempt `a` on `o`, leaving table `t`.
pub open spec fn attempt_stored<T>(
    try_insert: T,
    item: usize,
    o: CuckooObject,
    a: Attempt,
    t: FilterTable,
) -> bool where T: Fn(usize, &CuckooFilter, bool) -> Option<FilterTable> {
    call_ensures(try_insert, (item, &o.filter_at(attempt_index(a)), attempt_evicts(a)), Some(t))
}

/// What growing `o` for item `item` gives, once every planned attempt was
/// refused: the growth refusal, the memory refusal for the engine's
/// allocation, the engine's refusal of the fresh subfilter, or the object
/// with that subfilter added.
pub open spec fn growth_outcome<A, N>(
    o: ObjectView,
    item: usize,
    allocation: A,
    insert_fresh: N,
    validate_size_limit: bool,
    memory_limit: usize,
    r: Result<i64, CuckooError>,
    after: ObjectView,
) -> bool where A: Fn(i64) -> Option<usize>, N: Fn(usize, i64, usize) -> Option<FilterTable> {
    match growth_capacity_spec(o) {
        Err(e) => r == Err::<i64, CuckooError>(e) && after == o,
        Ok(c) => exists|a: Option<usize>|
            #[trigger] call_ensures(allocation, (c,), a) && match growth_check_spec(
                o,
                c,
                a,
                validate_size_limit,
                memory_limit,
            ) {
                Err(e) => r == Err::<i64, CuckooError>(e) && after == o,
                Ok(_) => exists|t: Option<FilterTable>|
                    #[trigger] call_ensures(insert_fresh, (item, c, a.unwrap()), t) && match t {
                        None => r == Err::<i64, CuckooError>(CuckooError::FilterFull) && after == o,
                        Some(t) => r == Ok::<i64, CuckooError>(1) && after == after_growth(o, c, t),
                    },
            },
    }
}

/// What inserting item `item` into `before` gives: the first attempt of the
/// insertion plan that the engine accepts stores it, every earlier one having
/// been refused; when all are refused, the object grows as `growth_outcome`
/// says.
pub open spec fn insertion_outcome<T, A, N>(
    before: CuckooObject,
    item: usize,
    try_insert: T,
    allocation: A,
    insert_fresh: N,
    validate_size_limit: bool,
    memory_limit: usize,
    r: Result<i64, CuckooError>,
    after: CuckooObject,
) -> bool where
    T: Fn(usize, &CuckooFilter, bool) -> Option<FilterTable>,
    A: Fn(i64) -> Option<usize>,
    N: Fn(usize, i64, usize) -> Option<FilterTable>,
 {
    let o = before@;
    let plan = insertion_plan_spec(o);
    ||| exists|j: int, t: FilterTable|
        #![trigger attempt_stored(try_insert, item, before, plan[j], t)]
        0 <= j < plan.len() && (forall|k: int|
            0 <= k < j ==> #[trigger] attempt_refused(try_insert, item, before, plan[k]))
            && attempt_stored(try_insert, item, before, plan[j], t) && r == Ok::<i64, CuckooError>(1)
            && after@ == after_insert(o, attempt_index(plan[j]), t)
    ||| (forall|k: int|
        0 <= k < plan.len() ==> #[trigger] attempt_refused(try_insert, item, before, plan[k]))
        && growth_outcome(
        o,
        item,
        allocation,
        insert_fresh,
        validate_size_limit,
        memory_limit,
        r,
        after@,
    )
}

/// One item of a batch: with `nx`, an item the engine reports present is
/// answered 0 and changes nothing; otherwise it is inserted.
pub open spec fn batch_step<X, T, A, N>(
    before: CuckooObject,
    item: usize,
    nx: bool,
    contains: X,
    try_insert: T,
    allocation: A,
    insert_fresh: N,
    validate_size_limit: bool,
    memory_limit: usize,
    r: Result<i64, CuckooError>,
    after: CuckooObject,
) -> bool where
    X: Fn(usize, &CuckooObject) -> bool,
    T: Fn(usize, &CuckooFilter, bool) -> Option<FilterTable>,
    A: Fn(i64) -> Option<usize>,
    N: Fn(usize, i64, usize) -> Option<FilterTable>,
 {
    ||| nx && call_ensures(contains, (item, &before), true) && r == Ok::<i64, CuckooError>(0)
        && after == before
    ||| (!nx || call_ensures(contains, (item, &before), false)) && insertion_outcome(
        before,
        item,
        try_insert,
        allocation,
        insert_fresh,
        validate_size_limit,
        memory_limit,
        r,
        after,
    )
}

/// The engine found no matching fingerprint in subfilter `i` of `o`.
pub open spec fn deletion_refused<D>(try_delete: D, o: CuckooObject, i: int) -> bool where
    D: Fn(&CuckooFilter) -> Option<FilterTable>,
 {
    call_ensures(try_delete, (&o.filter_at(i),), None::<FilterTable>)
}

/// The number of insertions in a batch that stored a fingerprint.
pub open spec fn stored_count(rs: Seq<Result<i64, CuckooError>>) -> int
    decreases rs.len(),
{
    if rs.len() == 0 {
        0
    } else {
        stored_count(rs.drop_last()) + if rs.last() == Ok::<i64, CuckooError>(1) {
            1int
        } else {
            0int
        }
    }
}

/// The sum of per-subfilter match counts.
pub open spec fn sum_counts(s: Seq<usize>) -> int
    decreases s.len(),
{
    if s.len() == 0 {
        0
    } else {
        sum_counts(s.drop_last()) + s.last()
    }
}

/// Deletion counts saturate at `i64::MAX`.
pub open spec fn saturating_increment(n: nat) -> nat {
    if n + 1 <= i64::MAX {
        n + 1
    } else {
        i64::MAX as nat
    }
}

/// What a deletion may hand back for subfilter `i`: a table of the same
/// storage holding one fingerprint less.
pub open spec fn deletion_outcome_valid(o: ObjectView, i: int, t: FilterTable) -> bool {
    &&& 0 <= i < o.filters.len()
    &&& t.wf()
    &&& t.buckets@.len() == o.filters[i].buckets.len()
    &&& t.len + 1 == o.filters[i].len
}

/// The object after a deletion left table `t` in subfilter `i`.
pub open spec fn after_delete(o: ObjectView, i: int, t: FilterTable) -> ObjectView {
    ObjectView {
        filters: o.filters.update(
            i,
            FilterView {
                len: t.len as nat,
                rng_word_pos: t.rng_word_pos as nat,
                buckets: t.buckets@,
                ..o.filters[i]
            },
        ),
        num_deleted: saturating_increment(o.num_deleted),
        ..o
    }
}

/// Accounted bytes of subfilters are never negative.
proof fn lemma_nonneg_memory(fs: Seq<FilterView>)
    ensures
        nonneg_on(fs, memory_of()),
        nonneg_on(fs, items_of()),
        sum_of(fs, memory_of()) >= 0,
{
    assert forall|j: int| 0 <= j < fs.len() implies memory_of()(#[trigger] fs[j]) >= 0 && items_of()(fs[j]) >= 0 by {}
    lemma_sum_nonneg(fs, memory_of());
}

/// A scalable cuckoo object: its configuration, its subfilters (oldest
/// first), and the number of successful deletions.
pub struct CuckooObject {
    expansion: u32,
    bucket_size: usize,
    max_kicks: u32,
    filters: Vec<Box<CuckooFilter>>,
    num_deleted: u64,
    reserved: usize,
}

impl View for CuckooObject {
    type V = ObjectView;

    closed spec fn view(&self) -> ObjectView {
        ObjectView {
            expansion: self.expansion as nat,
            bucket_size: self.bucket_size as nat,
            max_kicks: self.max_kicks as nat,
            filters: self.filters@.map_values(|f: Box<CuckooFilter>| f@),
            num_deleted: self.num_deleted as nat,
            reserved: self.reserved as nat,
        }
    }
}

impl CuckooObject {
    pub open spec fn filter_views(filters: Seq<Box<CuckooFilter>>) -> Seq<FilterView> {
        filters.map_values(|f: Box<CuckooFilter>| f@)
    }

    proof fn lemma_view_filters(&self)
        ensures
            self@.filters.len() == self.filters@.len(),
            forall|i: int|
                0 <= i < self.filters@.len() ==> #[trigger] self@.filters[i] == self.filters@[i]@,
    {
    }

    proof fn lemma_nonneg(o: ObjectView)
        requires
            o.wf(),
        ensures
            nonneg_on(o.filters, memory_of()),
            nonneg_on(o.filters, items_of()),
            nonneg_on(o.filters, capacity_of()),
            sum_of(o.filters, memory_of()) >= 0,
            sum_of(o.filters, items_of()) >= 0,
            sum_of(o.filters, capacity_of()) >= 0,
    {
        assert forall|i: int| 0 <= i < o.filters.len() implies (memory_of())(#[trigger] o.filters[i])
            >= 0 && (items_of())(o.filters[i]) >= 0 && (capacity_of())(o.filters[i]) >= 0 by {
            assert(o.filters[i].wf());
        }
        lemma_sum_nonneg(o.filters, memory_of());
        lemma_sum_nonneg(o.filters, items_of());
        lemma_sum_nonneg(o.filters, capacity_of());
    }

    /// Total capacity is at most the filter count times the capacity limit.
    proof fn lemma_capacity_bound(fs: Seq<FilterView>)
        requires
            forall|i: int| 0 <= i < fs.len() ==> (#[trigger] fs[i]).wf(),
        ensures
            sum_of(fs, capacity_of()) <= fs.len() * CUCKOO_CAPACITY_MAX,
        decreases fs.len(),
    {
        if fs.len() > 0 {
            let d = fs.drop_last();
            assert forall|i: int| 0 <= i < d.len() implies (#[trigger] d[i]).wf() by {
                assert(d[i] == fs[i]);
            }
            assert(fs[fs.len() - 1].wf());
            Self::lemma_capacity_bound(d);
        }
    }

    /// Check a reservation request. `allocation` is the bucket-byte length
    /// the filter engine allocates for the capacity and bucket size (`None`
    /// where it refuses them); no storage is allocated here.
    pub fn check_new_reserved(
        capacity: i64,
        bucket_size: usize,
        max_kicks: u32,
        expansion: u32,
        validate_size_limit: bool,
        memory_limit: usize,
        allocation: Option<usize>,
    ) -> (r: Result<(), CuckooError>)
        ensures
            r == reserve_check_spec(
                capacity,
                bucket_size,
                max_kicks,
                expansion,
                validate_size_limit,
                memory_limit,
                allocation,
            ),
    {
        validate_capacity(capacity)?;
        validate_bucket_size(bucket_size)?;
        validate_max_kicks(max_kicks)?;
        if expansion > CUCKOO_EXPANSION_MAX {
            return Err(CuckooError::BadExpansion);
        }
        let ok = match CuckooFilter::filter_bytes(capacity, allocation) {
            Some(filter_bytes) => match filter_bytes.checked_add(core::mem::size_of::<CuckooObject>()) {
                Some(n) => match n.checked_add(core::mem::size_of::<Box<CuckooFilter>>()) {
                    Some(bytes) => !validate_size_limit || bytes <= memory_limit,
                    None => false,
                },
                None => false,
            },
            None => false,
        };
        if !ok {
            return Err(CuckooError::ExceedsMaxSize);
        }
        Ok(())
    }

    /// A new object whose single subfilter holds `table`, the fresh, empty
    /// table the filter engine created for a configuration that
    /// `check_new_reserved` accepted; the object holds no fingerprint and
    /// accounts for the bytes that check measured.
    pub fn with_fresh_table(
        capacity: i64,
        bucket_size: usize,
        max_kicks: u32,
        expansion: u32,
        table: FilterTable,
    ) -> (r: CuckooObject)
        requires
            reserve_check_spec(
                capacity,
                bucket_size,
                max_kicks,
                expansion,
                false,
                0,
                Some(table.buckets@.len() as usize),
            ) is Ok,
            table.wf(),
            table.len == 0,
        ensures
            r@.wf(),
            r@.total_items() == 0,
            r@.total_capacity() == capacity,
            create_bytes(capacity, Some(table.buckets@.len() as usize)) == Some(r@.memory()),
            r@.expansion == expansion,
            r@.bucket_size == bucket_size,
            r@.max_kicks == max_kicks,
            r@.num_deleted == 0,
            r@.reserved == 1,
            r@.filters.len() == 1,
            r@.filters[0] == (FilterView {
                capacity: capacity as int,
                bucket_size: bucket_size as nat,
                len: table.len as nat,
                rng_word_pos: table.rng_word_pos as nat,
                buckets: table.buckets@,
            }),
    {
        let ghost alloc = table.buckets@.len();
        let filter = CuckooFilter::new(capacity, bucket_size, table);
        let mut filters: Vec<Box<CuckooFilter>> = Vec::new();
        filters.push(Box::new(filter));
        let r = CuckooObject { expansion, bucket_size, max_kicks, filters, num_deleted: 0, reserved: 1 };
        proof {
            r.lemma_view_filters();
            let fs = r@.filters;
            assert(fs.drop_last() =~= Seq::<FilterView>::empty());
            reveal_with_fuel(sum_of, 2);
            assert(sum_of(fs, items_of()) == fs[0].len);
            assert(sum_of(fs, memory_of()) == fs[0].memory());
            assert(sum_of(fs, capacity_of()) == fs[0].capacity);
            assert(fs[0].wf());
            assert(r@.memory() <= usize::MAX);
            assert(r@.total_items() <= i64::MAX);
        }
        r
    }

    /// Reserve a new object: check the request as `check_new_reserved` does
    /// (`allocation` is the engine's bucket-byte length for the capacity and
    /// bucket size), then build the object around the empty table
    /// `fresh_table(bytes)` the engine creates for it. On success the object
    /// holds no fingerprint, has the requested settings and, where the limit
    /// is enforced, accounts for no more than `memory_limit` bytes.
    pub fn new_reserved<M: Fn(usize) -> FilterTable>(
        capacity: i64,
        bucket_size: usize,
        max_kicks: u32,
        expansion: u32,
        validate_size_limit: bool,
        memory_limit: usize,
        allocation: Option<usize>,
        fresh_table: &M,
    ) -> (r: Result<CuckooObject, CuckooError>)
        requires
            allocation matches Some(a) ==> call_requires(*fresh_table, (a,)),
            allocation matches Some(a) ==> forall|t: FilterTable|
                call_ensures(*fresh_table, (a,), t) ==> t.wf() && t.len == 0 && t.buckets@.len()
                    == a,
        ensures
            r is Err <==> reserve_check_spec(
                capacity,
                bucket_size,
                max_kicks,
                expansion,
                validate_size_limit,
                memory_limit,
                allocation,
            ) is Err,
            r matches Err(e) ==> reserve_check_spec(
                capacity,
                bucket_size,
                max_kicks,
                expansion,
                validate_size_limit,
                memory_limit,
                allocation,
            ) == Err::<(), CuckooError>(e),
            r matches Ok(o) ==> {
                &&& o@.wf()
                &&& o@.total_items() == 0
                &&& o@.total_capacity() == capacity
                &&& o@.filters.len() == 1
                &&& o@.num_deleted == 0
                &&& o@.expansion == expansion
                &&& o@.bucket_size == bucket_size
                &&& o@.max_kicks == max_kicks
                &&& allocation == Some(o@.filters[0].buckets.len() as usize)
                &&& create_bytes(capacity, allocation) == Some(o@.memory())
                &&& validate_size_limit ==> o@.memory() <= memory_limit
            },
            r matches Ok(o) ==> exists|t: FilterTable|
                #[trigger] call_ensures(*fresh_table, (allocation.unwrap(),), t) && o@.filters[0] == (
                FilterView {
                    capacity: capacity as int,
                    bucket_size: bucket_size as nat,
                    len: t.len as nat,
                    rng_word_pos: t.rng_word_pos as nat,
                    buckets: t.buckets@,
                }),
    {
        Self::check_new_reserved(
            capacity,
            bucket_size,
            max_kicks,
            expansion,
            validate_size_limit,
            memory_limit,
            allocation,
        )?;
        let bytes = match allocation {
            Some(a) => a,
            None => {
                return Err(CuckooError::ExceedsMaxSize);
            },
        };
        let table = fresh_table(bytes);
        assert(call_ensures(*fresh_table, (bytes,), table));
        assert(table.wf() && table.len == 0 && table.buckets@.len() == bytes);
        Ok(Self::with_fresh_table(capacity, bucket_size, max_kicks, expansion, table))
    }

    /// An object over existing subfilters, oldest first, accounting for the
    /// filter-list slots that pushing them one at a time into a list created
    /// for one leaves reserved.
    pub fn from_existing(
        expansion: u32,
        bucket_size: usize,
        max_kicks: u32,
        filters: Vec<Box<CuckooFilter>>,
        num_deleted: u64,
    ) -> (r: CuckooObject)
        requires
            (ObjectView {
                expansion: expansion as nat,
                bucket_size: bucket_size as nat,
                max_kicks: max_kicks as nat,
                filters: Self::filter_views(filters@),
                num_deleted: num_deleted as nat,
                reserved: vector_capacity(filters@.len()),
            }).wf(),
        ensures
            r@ == (ObjectView {
                expansion: expansion as nat,
                bucket_size: bucket_size as nat,
                max_kicks: max_kicks as nat,
                filters: Self::filter_views(filters@),
                num_deleted: num_deleted as nat,
                reserved: vector_capacity(filters@.len()),
            }),
    {
        let reserved = filter_list_capacity(filters.len());
        CuckooObject { expansion, bucket_size, max_kicks, filters, num_deleted, reserved }
    }

    /// The object `from_existing` builds.
    pub open spec fn existing_view(
        expansion: u32,
        bucket_size: usize,
        max_kicks: u32,
        filters: Seq<Box<CuckooFilter>>,
        num_deleted: u64,
    ) -> ObjectView {
        ObjectView {
            expansion: expansion as nat,
            bucket_size: bucket_size as nat,
            max_kicks: max_kicks as nat,
            filters: Self::filter_views(filters),
            num_deleted: num_deleted as nat,
            reserved: vector_capacity(filters.len()),
        }
    }

    /// `from_existing` where its arguments make a well-formed object:
    /// settings in range, one to the filter-count limit of well-formed
    /// subfilters of the object's bucket size, and byte and fingerprint
    /// totals that fit; `None` otherwise.
    pub fn checked_from_existing(
        expansion: u32,
        bucket_size: usize,
        max_kicks: u32,
        filters: Vec<Box<CuckooFilter>>,
        num_deleted: u64,
    ) -> (r: Option<CuckooObject>)
        ensures
            r is Some <==> Self::existing_view(expansion, bucket_size, max_kicks, filters@, num_deleted).wf(),
            r matches Some(o) ==> o@ == Self::existing_view(
                expansion,
                bucket_size,
                max_kicks,
                filters@,
                num_deleted,
            ),
    {
        let ghost v = Self::existing_view(expansion, bucket_size, max_kicks, filters@, num_deleted);
        let ghost fs = v.filters;
        let n = filters.len();
        if !(1 <= bucket_size && bucket_size <= 255) || !(1 <= max_kicks && max_kicks <= 65535)
            || expansion > CUCKOO_EXPANSION_MAX || n == 0 || n
            > CUCKOO_NUM_FILTERS_PER_OBJECT_LIMIT_MAX as usize || num_deleted > i64::MAX as u64 {
            return None;
        }
        let reserved = filter_list_capacity(n);
        proof {
            lemma_next_pow2(n as nat);
        }
        let mut mem = match object_base_checked(reserved) {
            Some(m) => m,
            None => {
                proof {
                    lemma_nonneg_memory(fs);
                }
                return None;
            },
        };
        let mut items: u64 = 0;
        let mut i: usize = 0;
        while i < n
            invariant
                n == filters@.len(),
                v == Self::existing_view(expansion, bucket_size, max_kicks, filters@, num_deleted),
                reserved == vector_capacity(n as nat),
                fs == v.filters,
                fs == Self::filter_views(filters@),
                fs.len() == n,
                0 <= i <= n,
                forall|j: int| 0 <= j < i ==> (#[trigger] fs[j]).wf() && fs[j].bucket_size == bucket_size,
                mem == object_base_bytes(reserved as int) + sum_of(fs.take(i as int), memory_of()),
                items == sum_of(fs.take(i as int), items_of()),
                items <= i64::MAX,
            decreases n - i,
        {
            let f = &filters[i];
            assert(fs[i as int] == filters@[i as int]@);
            if !f.is_well_formed() || f.bucket_size() != bucket_size {
                return None;
            }
            proof {
                lemma_sum_prefix_step(fs, memory_of(), i as int);
                lemma_sum_prefix_step(fs, items_of(), i as int);
            }
            let bytes = f.number_of_bytes();
            let count = f.table().len as u64;
            if bytes > usize::MAX - mem || count > (i64::MAX as u64) - items {
                proof {
                    assert forall|j: int| 0 <= j < n implies memory_of()(#[trigger] fs[j]) >= 0
                        && items_of()(fs[j]) >= 0 by {
                        assert(fs[j] == filters@[j]@);
                    }
                    assert(nonneg_on(fs, memory_of()));
                    assert(nonneg_on(fs, items_of()));
                    lemma_sum_prefix_le(fs, memory_of(), i as int + 1);
                    lemma_sum_prefix_le(fs, items_of(), i as int + 1);
                    assert(bytes == fs[i as int].memory());
                    assert(count == fs[i as int].len);
                    assert(v.reserved == reserved);
                    if bytes > usize::MAX - mem {
                        assert(v.memory() > usize::MAX);
                    } else {
                        assert(v.total_items() > i64::MAX);
                    }
                    assert(!v.wf());
                }
                return None;
            }
            mem = mem + bytes;
            items = items + count;
            i = i + 1;
        }
        proof {
            lemma_sum_take_all(fs, memory_of());
            lemma_sum_take_all(fs, items_of());
        }
        Some(Self::from_existing(expansion, bucket_size, max_kicks, filters, num_deleted))
    }

    /// An object over rebuilt subfilters with `reserved` filter-list slots.
    pub(crate) fn from_parts(
        expansion: u32,
        bucket_size: usize,
        max_kicks: u32,
        filters: Vec<Box<CuckooFilter>>,
        num_deleted: u64,
        reserved: usize,
    ) -> (r: CuckooObject)
        requires
            (ObjectView {
                expansion: expansion as nat,
                bucket_size: bucket_size as nat,
                max_kicks: max_kicks as nat,
                filters: Self::filter_views(filters@),
                num_deleted: num_deleted as nat,
                reserved: reserved as nat,
            }).wf(),
        ensures
            r@ == (ObjectView {
                expansion: expansion as nat,
                bucket_size: bucket_size as nat,
                max_kicks: max_kicks as nat,
                filters: Self::filter_views(filters@),
                num_deleted: num_deleted as nat,
                reserved: reserved as nat,
            }),
    {
        CuckooObject { expansion, bucket_size, max_kicks, filters, num_deleted, reserved }
    }

    pub fn create_copy_from(from: &CuckooObject) -> (r: CuckooObject)
        requires
            from@.wf(),
        ensures
            r@.wf(),
            r@.same_contents(from@),
            r@.reserved == from@.filters.len(),
    {
        let n = from.filters.len();
        let mut filters: Vec<Box<CuckooFilter>> = Vec::new();
        let mut i: usize = 0;
        while i < n
            invariant
                n == from.filters@.len(),
                0 <= i <= n,
                filters@.len() == i,
                forall|j: int| 0 <= j < i ==> (#[trigger] filters@[j])@ == from.filters@[j]@,
            decreases n - i,
        {
            let copy = CuckooFilter::create_copy_from(&from.filters[i]);
            filters.push(Box::new(copy));
            i = i + 1;
        }
        let r = CuckooObject {
            expansion: from.expansion,
            bucket_size: from.bucket_size,
            max_kicks: from.max_kicks,
            filters,
            num_deleted: from.num_deleted,
            reserved: n,
        };
        proof {
            r.lemma_view_filters();
            from.lemma_view_filters();
            assert(r@.filters =~= from@.filters);
            Self::lemma_nonneg(from@);
            assert(from@.reserved >= n);
            assert(object_base_bytes(n as int) <= object_base_bytes(from@.reserved as int)) by (nonlinear_arith)
                requires
                    n <= from@.reserved,
                    pointer_bytes() >= 0,
            ;
        }
        r
    }

    /// The attempts an insertion makes, in order, until one succeeds: every
    /// subfilter with a free slot, newest first, without eviction; then one
    /// eviction walk in the newest subfilter unless it is full.
    pub fn insertion_plan(&self) -> (r: Vec<Attempt>)
        requires
            self@.wf(),
        ensures
            r@ == insertion_plan_spec(self@),
    {
        proof {
            self.lemma_view_filters();
        }
        let n = self.filters.len();
        let mut plan: Vec<Attempt> = Vec::new();
        let mut k = n;
        while k > 0
            invariant
                self@.wf(),
                n == self.filters@.len(),
                n == self@.filters.len(),
                forall|i: int| 0 <= i < n ==> #[trigger] self@.filters[i] == self.filters@[i]@,
                0 <= k <= n,
                plan@ + direct_attempts(self@.filters, k as int) == direct_attempts(
                    self@.filters,
                    n as int,
                ),
            decreases k,
        {
            let i = k - 1;
            let f = &self.filters[i];
            let ghost before = plan@;
            assert(self@.filters[i as int].wf());
            if f.table().len < f.as_bytes().len() {
                plan.push(Attempt::Direct(i));
                assert(plan@ + direct_attempts(self@.filters, i as int) =~= before
                    + direct_attempts(self@.filters, k as int));
            } else {
                assert(plan@ + direct_attempts(self@.filters, i as int) =~= before
                    + direct_attempts(self@.filters, k as int));
            }
            k = i;
        }
        let ghost direct = plan@;
        assert(direct =~= direct_attempts(self@.filters, n as int));
        let newest = &self.filters[n - 1];
        if newest.table().len < newest.as_bytes().len() {
            plan.push(Attempt::Evict(n - 1));
        }
        assert(plan@ =~= insertion_plan_spec(self@));
        plan
    }

    /// Record a successful insertion into subfilter `index`: `table` is what
    /// the filter engine left after storing one more fingerprint.
    pub fn apply_insert(&mut self, index: usize, table: FilterTable)
        requires
            old(self)@.wf(),
            index < old(self)@.filters.len(),
            table.wf(),
            table.buckets@.len() == old(self)@.filters[index as int].buckets.len(),
            table.len == old(self)@.filters[index as int].len + 1,
            old(self)@.total_items() < i64::MAX,
        ensures
            final(self)@.wf(),
            final(self)@ == (ObjectView {
                filters: old(self)@.filters.update(
                    index as int,
                    FilterView {
                        len: table.len as nat,
                        rng_word_pos: table.rng_word_pos as nat,
                        buckets: table.buckets@,
                        ..old(self)@.filters[index as int]
                    },
                ),
                ..old(self)@
            }),
            final(self)@.total_items() == old(self)@.total_items() + 1,
    {
        proof {
            self.lemma_view_filters();
        }
        let ghost o = self@;
        let mut filter = self.filters.remove(index);
        filter.set_table(table);
        self.filters.insert(index, filter);
        proof {
            self.lemma_view_filters();
            let nv = self@.filters[index as int];
            assert(self@.filters =~= o.filters.update(index as int, nv));
            lemma_sum_update(o.filters, items_of(), index as int, nv);
            lemma_sum_update(o.filters, memory_of(), index as int, nv);
            assert forall|i: int| 0 <= i < self@.filters.len() implies (#[trigger] self@.filters[i]).wf()
                && self@.filters[i].bucket_size == self@.bucket_size by {
                if i != index {
                    assert(self@.filters[i] == o.filters[i]);
                }
            }
        }
    }

    /// The capacity of the subfilter a failed insertion would add, or why the
    /// object cannot grow: scaling disabled, the filter-count limit, or the
    /// capacity limit. The size check follows in `check_growth`.
    pub fn growth_capacity(&self) -> (r: Result<i64, CuckooError>)
        requires
            self@.wf(),
        ensures
            r == growth_capacity_spec(self@),
    {
        proof {
            self.lemma_view_filters();
        }
        if self.expansion == 0 {
            return Err(CuckooError::NonScalingFilterFull);
        }
        if self.filters.len() >= CUCKOO_NUM_FILTERS_PER_OBJECT_LIMIT_MAX as usize {
            return Err(CuckooError::MaxNumScalingFilters);
        }
        let last = self.filters[self.filters.len() - 1].capacity();
        assert(self@.newest() == self.filters@[self.filters@.len() - 1]@);
        assert(self@.newest().wf());
        match last.checked_mul(self.expansion as i64) {
            Some(n) => {
                if n <= CUCKOO_CAPACITY_MAX {
                    Ok(n)
                } else {
                    Err(CuckooError::MaxScalingCapacity)
                }
            },
            None => Err(CuckooError::MaxScalingCapacity),
        }
    }

    /// Check that growing by a subfilter of `capacity` keeps the object within
    /// the memory limit. `allocation` is the engine's bucket-byte length for
    /// that capacity and the object's bucket size.
    pub fn check_growth(
        &self,
        capacity: i64,
        allocation: Option<usize>,
        validate_size_limit: bool,
        memory_limit: usize,
    ) -> (r: Result<(), CuckooError>)
        requires
            self@.wf(),
        ensures
            r == growth_check_spec(self@, capacity, allocation, validate_size_limit, memory_limit),
    {
        let growth = if self.filters.len() == self.reserved {
            let slots = if self.reserved >= 4 { self.reserved } else { 4 };
            slots.checked_mul(core::mem::size_of::<Box<CuckooFilter>>())
        } else {
            Some(0)
        };
        proof {
            Self::lemma_nonneg(self@);
        }
        let memory = self.memory_usage();
        let ok = match CuckooFilter::filter_bytes(capacity, allocation) {
            Some(filter_bytes) => match filter_bytes.checked_add(memory) {
                Some(n) => match growth {
                    Some(g) => match n.checked_add(g) {
                        Some(bytes) => !validate_size_limit || bytes <= memory_limit,
                        None => false,
                    },
                    None => false,
                },
                None => false,
            },
            None => false,
        };
        if ok {
            Ok(())
        } else {
            Err(CuckooError::ExceedsMaxSize)
        }
    }

    /// Add the subfilter that a failed insertion created: `table` is the
    /// engine's fresh table for `capacity` after it stored the item.
    pub fn push_filter(&mut self, capacity: i64, table: FilterTable)
        requires
            old(self)@.wf(),
            growth_capacity_spec(old(self)@) == Ok::<i64, CuckooError>(capacity),
            growth_check_spec(old(self)@, capacity, Some(table.buckets@.len() as usize), false, 0)
                is Ok,
            table.wf(),
            table.len == 1,
            old(self)@.total_items() < i64::MAX,
        ensures
            final(self)@.wf(),
            final(self)@ == (ObjectView {
                filters: old(self)@.filters.push(
                    FilterView {
                        capacity: capacity as int,
                        bucket_size: old(self)@.bucket_size,
                        len: 1,
                        rng_word_pos: table.rng_word_pos as nat,
                        buckets: table.buckets@,
                    },
                ),
                reserved: reserved_after_push(old(self)@),
                ..old(self)@
            }),
            final(self)@.total_items() == old(self)@.total_items() + 1,
    {
        proof {
            self.lemma_view_filters();
            Self::lemma_nonneg(self@);
        }
        let ghost o = self@;
        assert(o.newest().wf());
        assert(capacity_in_range(capacity as int)) by (nonlinear_arith)
            requires
                o.newest().capacity >= 1,
                o.expansion >= 1,
                capacity == o.newest().capacity * o.expansion,
                capacity <= CUCKOO_CAPACITY_MAX,
        ;
        let new_reserved = if self.filters.len() == self.reserved {
            if self.reserved >= 2 {
                2 * self.reserved
            } else {
                4
            }
        } else {
            self.reserved
        };
        let filter = CuckooFilter::new(capacity, self.bucket_size, table);
        self.filters.push(Box::new(filter));
        self.reserved = new_reserved;
        proof {
            self.lemma_view_filters();
            let nv = self@.filters.last();
            assert(self@.filters =~= o.filters.push(nv));
            lemma_sum_push(o.filters, items_of(), nv);
            lemma_sum_push(o.filters, memory_of(), nv);
            assert forall|i: int| 0 <= i < self@.filters.len() implies (#[trigger] self@.filters[i]).wf()
                && self@.filters[i].bucket_size == self@.bucket_size by {
                if i < o.filters.len() {
                    assert(self@.filters[i] == o.filters[i]);
                }
            }
            let p = pointer_bytes();
            let r = o.reserved as int;
            let nr = new_reserved as int;
            assert(p >= 0);
            if o.filters.len() == o.reserved {
                let s = if r >= 4 { r } else { 4 };
                assert(nr - r <= s);
                assert(nr * p <= r * p + s * p) by (nonlinear_arith)
                    requires
                        nr - r <= s,
                        p >= 0,
                ;
            }
        }
    }

    /// The subfilter at `i`, as handed to the filter engine.
    pub closed spec fn filter_at(&self, i: int) -> CuckooFilter {
        *self.filters@[i]
    }

    /// Store the fingerprint of item `item`, asking the filter engine through
    /// the given functions: `try_insert(item, filter, evict)` stores it in a
    /// subfilter (with or without the eviction walk) and returns the new
    /// table, or `None`; `allocation(capacity)` is the engine's bucket-byte
    /// length for a new subfilter; `insert_fresh(item, capacity, bytes)`
    /// stores it in a fresh subfilter of that many bucket bytes. The attempts
    /// follow `insertion_plan` and stop at the first success; only when all
    /// were refused does the object grow, after the growth and memory checks.
    /// A failed insertion leaves the object unchanged.
    pub fn insert_with<T, A, N>(
        &mut self,
        item: usize,
        try_insert: &T,
        allocation: &A,
        insert_fresh: &N,
        validate_size_limit: bool,
        memory_limit: usize,
    ) -> (r: Result<i64, CuckooError>) where
        T: Fn(usize, &CuckooFilter, bool) -> Option<FilterTable>,
        A: Fn(i64) -> Option<usize>,
        N: Fn(usize, i64, usize) -> Option<FilterTable>,

        requires
            old(self)@.wf(),
            old(self)@.total_items() < i64::MAX,
            forall|f: CuckooFilter, e: bool| call_requires(*try_insert, (item, &f, e)),
            forall|f: CuckooFilter, e: bool, t: FilterTable|
                call_ensures(*try_insert, (item, &f, e), Some(t)) ==> inserted_table(f@, t),
            forall|c: i64| call_requires(*allocation, (c,)),
            forall|c: i64, a: usize| call_requires(*insert_fresh, (item, c, a)),
            forall|c: i64, a: usize, t: FilterTable|
                call_ensures(*insert_fresh, (item, c, a), Some(t)) ==> t.wf() && t.len == 1
                    && t.buckets@.len() == a,
        ensures
            final(self)@.wf(),
            insertion_outcome(
                *old(self),
                item,
                *try_insert,
                *allocation,
                *insert_fresh,
                validate_size_limit,
                memory_limit,
                r,
                *final(self),
            ),
            r is Err ==> final(self)@ == old(self)@,
            r is Ok ==> r == Ok::<i64, CuckooError>(1) && final(self)@.total_items() == old(
                self,
            )@.total_items() + 1,
    {
        let ghost o = self@;
        let ghost start = *self;
        proof {
            lemma_insertion_plan_order(o);
        }
        let plan = self.insertion_plan();
        let mut k: usize = 0;
        while k < plan.len()
            invariant
                self@ == o,
                *self == start,
                start == *old(self),
                o == old(self)@,
                o.wf(),
                o.total_items() < i64::MAX,
                plan@ == insertion_plan_spec(o),
                0 <= k <= plan@.len(),
                forall|j: int|
                    0 <= j < plan@.len() ==> 0 <= attempt_index(#[trigger] plan@[j]) < o.filters.len(),
                forall|j: int|
                    0 <= j < k ==> #[trigger] attempt_refused(*try_insert, item, start, plan@[j]),
                forall|f: CuckooFilter, e: bool| call_requires(*try_insert, (item, &f, e)),
                forall|f: CuckooFilter, e: bool, t: FilterTable|
                    call_ensures(*try_insert, (item, &f, e), Some(t)) ==> inserted_table(f@, t),
            decreases plan@.len() - k,
        {
            let attempt = plan[k];
            let (index, evict) = match attempt {
                Attempt::Direct(i) => (i, false),
                Attempt::Evict(i) => (i, true),
            };
            assert(index == attempt_index(plan@[k as int]));
            assert(evict == attempt_evicts(plan@[k as int]));
            proof {
                self.lemma_view_filters();
            }
            let filter: &CuckooFilter = &self.filters[index];
            assert(*filter == start.filter_at(index as int));
            let outcome = try_insert(item, filter, evict);
            match outcome {
                Some(t) => {
                    assert(attempt_stored(*try_insert, item, start, plan@[k as int], t));
                    assert(inserted_table(o.filters[index as int], t));
                    self.apply_insert(index, t);
                    assert(self@ == after_insert(o, attempt_index(plan@[k as int]), t));
                    return Ok(1);
                },
                None => {
                    assert(attempt_refused(*try_insert, item, start, plan@[k as int]));
                },
            }
            k = k + 1;
        }
        let capacity = self.growth_capacity()?;
        let alloc = allocation(capacity);
        assert(call_ensures(*allocation, (capacity,), alloc));
        self.check_growth(capacity, alloc, validate_size_limit, memory_limit)?;
        let bytes = alloc.unwrap();
        let fresh = insert_fresh(item, capacity, bytes);
        assert(call_ensures(*insert_fresh, (item, capacity, bytes), fresh));
        match fresh {
            Some(t) => {
                self.push_filter(capacity, t);
                assert(self@ == after_growth(o, capacity, t));
                Ok(1)
            },
            None => Err(CuckooError::FilterFull),
        }
    }

    /// Insert `count` items in order; item `i` is inserted as `insert_with`
    /// does with the same engine functions, except that with `nx` an item
    /// that `contains(i, object)` reports present is answered 0 and changes
    /// nothing. The batch stops at the first error, which is its last result;
    /// every earlier successful insertion stays stored.
    pub fn insert_batch<X, T, A, N>(
        &mut self,
        count: usize,
        nx: bool,
        contains: &X,
        try_insert: &T,
        allocation: &A,
        insert_fresh: &N,
        validate_size_limit: bool,
        memory_limit: usize,
    ) -> (r: Vec<Result<i64, CuckooError>>) where
        X: Fn(usize, &CuckooObject) -> bool,
        T: Fn(usize, &CuckooFilter, bool) -> Option<FilterTable>,
        A: Fn(i64) -> Option<usize>,
        N: Fn(usize, i64, usize) -> Option<FilterTable>,

        requires
            old(self)@.wf(),
            old(self)@.total_items() + count <= i64::MAX,
            forall|i: usize, o: CuckooObject| call_requires(*contains, (i, &o)),
            forall|i: usize, f: CuckooFilter, e: bool| call_requires(*try_insert, (i, &f, e)),
            forall|i: usize, f: CuckooFilter, e: bool, t: FilterTable|
                call_ensures(*try_insert, (i, &f, e), Some(t)) ==> inserted_table(f@, t),
            forall|c: i64| call_requires(*allocation, (c,)),
            forall|i: usize, c: i64, a: usize| call_requires(*insert_fresh, (i, c, a)),
            forall|i: usize, c: i64, a: usize, t: FilterTable|
                call_ensures(*insert_fresh, (i, c, a), Some(t)) ==> t.wf() && t.len == 1
                    && t.buckets@.len() == a,
        ensures
            final(self)@.wf(),
            r@.len() <= count,
            r@.len() < count ==> r@.len() > 0 && r@.last() is Err,
            forall|j: int| 0 <= j < r@.len() - 1 ==> #[trigger] r@[j] is Ok,
            exists|states: Seq<CuckooObject>|
                #![trigger states.len()]
                states.len() == r@.len() + 1 && states[0] == *old(self) && states.last()
                    == *final(self) && forall|j: int|
                    0 <= j < r@.len() ==> #[trigger] batch_step(
                        states[j],
                        j as usize,
                        nx,
                        *contains,
                        *try_insert,
                        *allocation,
                        *insert_fresh,
                        validate_size_limit,
                        memory_limit,
                        r@[j],
                        states[j + 1],
                    ),
            final(self)@.total_items() == old(self)@.total_items() + stored_count(r@),
    {
        let mut results: Vec<Result<i64, CuckooError>> = Vec::new();
        let ghost mut states: Seq<CuckooObject> = seq![*self];
        let mut i: usize = 0;
        let mut failed = false;
        while i < count && !failed
            invariant
                self@.wf(),
                0 <= i <= count,
                results@.len() == i,
                states.len() == i + 1,
                states[0] == *old(self),
                states.last() == *self,
                forall|j: int|
                    0 <= j < i ==> #[trigger] batch_step(
                        states[j],
                        j as usize,
                        nx,
                        *contains,
                        *try_insert,
                        *allocation,
                        *insert_fresh,
                        validate_size_limit,
                        memory_limit,
                        results@[j],
                        states[j + 1],
                    ),
                self@.total_items() == old(self)@.total_items() + stored_count(results@),
                self@.total_items() + (count - i) <= i64::MAX,
                failed ==> i > 0 && results@.last() is Err,
                forall|j: int| 0 <= j < i - 1 ==> #[trigger] results@[j] is Ok,
                !failed ==> forall|j: int| 0 <= j < i ==> #[trigger] results@[j] is Ok,
                forall|i: usize, o: CuckooObject| call_requires(*contains, (i, &o)),
                forall|i: usize, f: CuckooFilter, e: bool| call_requires(*try_insert, (i, &f, e)),
                forall|i: usize, f: CuckooFilter, e: bool, t: FilterTable|
                    call_ensures(*try_insert, (i, &f, e), Some(t)) ==> inserted_table(f@, t),
                forall|c: i64| call_requires(*allocation, (c,)),
                forall|i: usize, c: i64, a: usize| call_requires(*insert_fresh, (i, c, a)),
                forall|i: usize, c: i64, a: usize, t: FilterTable|
                    call_ensures(*insert_fresh, (i, c, a), Some(t)) ==> t.wf() && t.len == 1
                        && t.buckets@.len() == a,
            decreases count - i,
        {
            let ghost before = results@;
            let ghost prior = *self;
            let present = if nx {
                contains(i, &*self)
            } else {
                false
            };
            let outcome = if present {
                Ok(0)
            } else {
                self.insert_with(i, try_insert, allocation, insert_fresh, validate_size_limit, memory_limit)
            };
            failed = outcome.is_err();
            results.push(outcome);
            proof {
                states = states.push(*self);
                assert(batch_step(
                    states[i as int],
                    i,
                    nx,
                    *contains,
                    *try_insert,
                    *allocation,
                    *insert_fresh,
                    validate_size_limit,
                    memory_limit,
                    results@[i as int],
                    states[i + 1],
                ));
            }
            assert(results@.drop_last() == before);
            i = i + 1;
        }
        results
    }

    /// Remove one matching fingerprint, asking the filter engine through
    /// `try_delete(filter)`, which returns the table left after removing one,
    /// or `None` where the subfilter holds none. Subfilters are searched from
    /// newest to oldest and the search stops at the first match: the result
    /// is 1 and the newest matching subfilter loses one fingerprint (the
    /// deletion count grows, saturating), or 0 and nothing changes.
    pub fn delete_with<D>(&mut self, try_delete: &D) -> (r: i64) where
        D: Fn(&CuckooFilter) -> Option<FilterTable>,

        requires
            old(self)@.wf(),
            forall|f: CuckooFilter| call_requires(*try_delete, (&f,)),
            forall|f: CuckooFilter, t: FilterTable|
                call_ensures(*try_delete, (&f,), Some(t)) ==> t.wf() && t.buckets@.len()
                    == f@.buckets.len() && t.len + 1 == f@.len,
        ensures
            final(self)@.wf(),
            r == 0 || r == 1,
            r == 0 ==> final(self)@ == old(self)@ && forall|i: int|
                0 <= i < old(self)@.filters.len() ==> #[trigger] deletion_refused(
                    *try_delete,
                    *old(self),
                    i,
                ),
            r == 1 ==> exists|i: int, t: FilterTable|
                #![trigger call_ensures(*try_delete, (&old(self).filter_at(i),), Some(t))]
                0 <= i < old(self)@.filters.len() && (forall|j: int|
                    i < j < old(self)@.filters.len() ==> #[trigger] deletion_refused(
                        *try_delete,
                        *old(self),
                        j,
                    )) && call_ensures(*try_delete, (&old(self).filter_at(i),), Some(t))
                    && final(self)@ == after_delete(old(self)@, i, t),
    {
        let ghost start = *self;
        proof {
            self.lemma_view_filters();
        }
        let n = self.filters.len();
        let mut k = n;
        let mut outcome: Option<(usize, FilterTable)> = None;
        while k > 0
            invariant
                *self == start,
                start == *old(self),
                self@.wf(),
                n == start@.filters.len(),
                n == self.filters@.len(),
                0 <= k <= n,
                forall|j: int| k <= j < n ==> #[trigger] deletion_refused(*try_delete, start, j),
                forall|f: CuckooFilter| call_requires(*try_delete, (&f,)),
                forall|f: CuckooFilter, t: FilterTable|
                    call_ensures(*try_delete, (&f,), Some(t)) ==> t.wf() && t.buckets@.len()
                        == f@.buckets.len() && t.len + 1 == f@.len,
                outcome is None,
            decreases k,
        {
            let index = k - 1;
            proof {
                self.lemma_view_filters();
            }
            let filter: &CuckooFilter = &self.filters[index];
            assert(*filter == start.filter_at(index as int));
            match try_delete(filter) {
                Some(t) => {
                    assert(call_ensures(*try_delete, (&start.filter_at(index as int),), Some(t)));
                    assert(deletion_outcome_valid(start@, index as int, t));
                    let r = self.finish_delete(Some((index, t)));
                    return r;
                },
                None => {
                    assert(deletion_refused(*try_delete, start, index as int));
                },
            }
            k = index;
        }
        self.finish_delete(outcome)
    }

    /// Subfilter indexes a deletion tries, newest first, until one holds a
    /// matching fingerprint.
    pub fn deletion_plan(&self) -> (r: Vec<usize>)
        requires
            self@.wf(),
        ensures
            r@ == newest_first(self@.filters.len() as int),
    {
        proof {
            self.lemma_view_filters();
        }
        let n = self.filters.len();
        let mut plan: Vec<usize> = Vec::new();
        let mut k = n;
        while k > 0
            invariant
                0 <= k <= n,
                plan@.len() == n - k,
                forall|j: int| 0 <= j < n - k ==> plan@[j] == n - 1 - j,
            decreases k,
        {
            plan.push(k - 1);
            k = k - 1;
        }
        assert(plan@ =~= newest_first(n as int));
        plan
    }

    /// Finish a deletion: `None` when no subfilter held a matching
    /// fingerprint (nothing changes, the result is 0), or the subfilter and
    /// the table the engine left after removing one fingerprint (the deletion
    /// count grows, saturating at `i64::MAX`, and the result is 1).
    pub fn finish_delete(&mut self, outcome: Option<(usize, FilterTable)>) -> (r: i64)
        requires
            old(self)@.wf(),
            outcome matches Some((i, t)) ==> deletion_outcome_valid(old(self)@, i as int, t),
        ensures
            final(self)@.wf(),
            outcome is None ==> r == 0 && final(self)@ == old(self)@,
            outcome matches Some((i, t)) ==> r == 1 && final(self)@ == after_delete(
                old(self)@,
                i as int,
                t,
            ),
    {
        match outcome {
            None => 0,
            Some((index, table)) => {
                proof {
                    self.lemma_view_filters();
                }
                let ghost o = self@;
                let mut filter = self.filters.remove(index);
                filter.set_table(table);
                self.filters.insert(index, filter);
                self.num_deleted = if self.num_deleted < i64::MAX as u64 {
                    self.num_deleted + 1
                } else {
                    i64::MAX as u64
                };
                proof {
                    self.lemma_view_filters();
                    let nv = self@.filters[index as int];
                    assert(self@.filters =~= o.filters.update(index as int, nv));
                    lemma_sum_update(o.filters, items_of(), index as int, nv);
                    lemma_sum_update(o.filters, memory_of(), index as int, nv);
                    assert forall|i: int| 0 <= i < self@.filters.len() implies (#[trigger] self@.filters[i]).wf()
                        && self@.filters[i].bucket_size == self@.bucket_size by {
                        if i != index {
                            assert(self@.filters[i] == o.filters[i]);
                        }
                    }
                }
                1
            },
        }
    }

    /// Whether any subfilter reported a matching fingerprint.
    pub fn item_exists_from(&self, found: &Vec<bool>) -> (r: bool)
        requires
            self@.wf(),
            found@.len() == self@.filters.len(),
        ensures
            r == exists|i: int| 0 <= i < found@.len() && found@[i],
    {
        let mut i: usize = 0;
        while i < found.len()
            invariant
                0 <= i <= found@.len(),
                forall|j: int| 0 <= j < i ==> !found@[j],
            decreases found@.len() - i,
        {
            if found[i] {
                return true;
            }
            i = i + 1;
        }
        false
    }

    /// The number of matching fingerprints over all subfilters, from the
    /// count each subfilter reported (at most the fingerprints it stores).
    pub fn count_item_from(&self, matches: &Vec<usize>) -> (r: i64)
        requires
            self@.wf(),
            matches@.len() == self@.filters.len(),
            forall|i: int| 0 <= i < matches@.len() ==> matches@[i] <= self@.filters[i].len,
        ensures
            r == sum_counts(matches@),
    {
        proof {
            Self::lemma_nonneg(self@);
        }
        let ghost fs = self@.filters;
        let mut total: i64 = 0;
        let mut i: usize = 0;
        while i < matches.len()
            invariant
                0 <= i <= matches@.len(),
                matches@.len() == fs.len(),
                forall|j: int| 0 <= j < matches@.len() ==> matches@[j] <= fs[j].len,
                nonneg_on(fs, items_of()),
                sum_of(fs, items_of()) <= i64::MAX,
                total == sum_counts(matches@.take(i as int)),
                0 <= total,
                total <= sum_of(fs.take(i as int), items_of()),
            decreases matches@.len() - i,
        {
            proof {
                lemma_sum_prefix_step(fs, items_of(), i as int);
                lemma_sum_prefix_le(fs, items_of(), i as int + 1);
                assert(matches@.take(i as int + 1).drop_last() =~= matches@.take(i as int));
                assert(matches@.take(i as int + 1).last() == matches@[i as int]);
                assert(matches@[i as int] <= fs[i as int].len);
                assert((items_of())(fs[i as int]) == fs[i as int].len);
                assert(sum_counts(matches@.take(i as int + 1)) == sum_counts(matches@.take(i as int)) + matches@[i as int]);
                assert(total + matches@[i as int] <= sum_of(fs.take(i as int + 1), items_of()));
                assert(sum_of(fs.take(i as int + 1), items_of()) <= i64::MAX);
            }
            total = total + matches[i] as i64;
            i = i + 1;
        }
        assert(matches@.take(matches@.len() as int) =~= matches@);
        total
    }

    /// Bytes the object accounts for: its structure, its reserved filter list
    /// and every subfilter.
    pub fn memory_usage(&self) -> (r: usize)
        requires
            self@.wf(),
        ensures
            r == self@.memory(),
    {
        proof {
            self.lemma_view_filters();
            Self::lemma_nonneg(self@);
        }
        let ghost fs = self@.filters;
        proof {
            assert(self.reserved <= 2048);
            assert(object_base_bytes(self.reserved as int) <= usize::MAX);
        }
        let mut mem = CuckooObject::compute_size(self.reserved);
        let mut i: usize = 0;
        while i < self.filters.len()
            invariant
                0 <= i <= fs.len(),
                fs.len() == self.filters@.len(),
                forall|j: int| 0 <= j < fs.len() ==> #[trigger] fs[j] == self.filters@[j]@,
                forall|j: int| 0 <= j < fs.len() ==> (#[trigger] fs[j]).wf(),
                nonneg_on(fs, memory_of()),
                object_base_bytes(self.reserved as int) + sum_of(fs, memory_of()) <= usize::MAX,
                mem == object_base_bytes(self.reserved as int) + sum_of(fs.take(i as int), memory_of()),
            decreases fs.len() - i,
        {
            proof {
                lemma_sum_prefix_step(fs, memory_of(), i as int);
                lemma_sum_prefix_le(fs, memory_of(), i as int + 1);
            }
            mem = mem + self.filters[i].number_of_bytes();
            i = i + 1;
        }
        proof {
            lemma_sum_take_all(fs, memory_of());
        }
        mem
    }

    /// Bytes of the object structure with room for `filters_vec_capacity`
    /// subfilter pointers.
    pub fn compute_size(filters_vec_capacity: usize) -> (r: usize)
        requires
            object_base_bytes(filters_vec_capacity as int) <= usize::MAX,
        ensures
            r == object_base_bytes(filters_vec_capacity as int),
    {
        proof {
            assert(pointer_bytes() >= 0);
            assert(filters_vec_capacity * pointer_bytes() >= 0) by (nonlinear_arith)
                requires
                    pointer_bytes() >= 0,
            ;
        }
        core::mem::size_of::<CuckooObject>() + filters_vec_capacity * core::mem::size_of::<
            Box<CuckooFilter>,
        >()
    }

    pub fn capacity(&self) -> (r: i64)
        requires
            self@.wf(),
        ensures
            r == self@.total_capacity(),
    {
        proof {
            self.lemma_view_filters();
            Self::lemma_nonneg(self@);
        }
        let ghost fs = self@.filters;
        proof {
            Self::lemma_capacity_bound(fs);
        }
        let mut total: i64 = 0;
        let mut i: usize = 0;
        while i < self.filters.len()
            invariant
                0 <= i <= fs.len(),
                fs.len() == self.filters@.len(),
                fs.len() <= max_filters(),
                forall|j: int| 0 <= j < fs.len() ==> #[trigger] fs[j] == self.filters@[j]@,
                nonneg_on(fs, capacity_of()),
                sum_of(fs, capacity_of()) <= fs.len() * CUCKOO_CAPACITY_MAX,
                total == sum_of(fs.take(i as int), capacity_of()),
            decreases fs.len() - i,
        {
            proof {
                lemma_sum_prefix_step(fs, capacity_of(), i as int);
                lemma_sum_prefix_le(fs, capacity_of(), i as int + 1);
                assert(fs.len() * CUCKOO_CAPACITY_MAX <= 1024 * 4294967296) by (nonlinear_arith)
                    requires
                        fs.len() <= 1024,
                ;
            }
            total = total + self.filters[i].capacity();
            i = i + 1;
        }
        proof {
            lemma_sum_take_all(fs, capacity_of());
        }
        total
    }

    pub fn num_items(&self) -> (r: i64)
        requires
            self@.wf(),
        ensures
            r == self@.total_items(),
    {
        proof {
            self.lemma_view_filters();
            Self::lemma_nonneg(self@);
        }
        let ghost fs = self@.filters;
        let mut total: i64 = 0;
        let mut i: usize = 0;
        while i < self.filters.len()
            invariant
                0 <= i <= fs.len(),
                fs.len() == self.filters@.len(),
                forall|j: int| 0 <= j < fs.len() ==> #[trigger] fs[j] == self.filters@[j]@,
                forall|j: int| 0 <= j < fs.len() ==> (#[trigger] fs[j]).wf(),
                nonneg_on(fs, items_of()),
                sum_of(fs, items_of()) <= i64::MAX,
                total == sum_of(fs.take(i as int), items_of()),
            decreases fs.len() - i,
        {
            proof {
                lemma_sum_prefix_step(fs, items_of(), i as int);
                lemma_sum_prefix_le(fs, items_of(), i as int + 1);
            }
            total = total + self.filters[i].num_items();
            i = i + 1;
        }
        proof {
            lemma_sum_take_all(fs, items_of());
        }
        total
    }

    pub fn num_deleted(&self) -> (r: i64)
        requires
            self@.wf(),
        ensures
            r == self@.num_deleted,
    {
        self.num_deleted as i64
    }

    pub fn num_filters(&self) -> (r: usize)
        ensures
            r == self@.filters.len(),
    {
        proof {
            self.lemma_view_filters();
        }
        self.filters.len()
    }

    pub fn expansion(&self) -> (r: u32)
        ensures
            r == self@.expansion,
    {
        self.expansion
    }

    pub fn bucket_size(&self) -> (r: usize)
        ensures
            r == self@.bucket_size,
    {
        self.bucket_size
    }

    pub fn max_kicks(&self) -> (r: u32)
        ensures
            r == self@.max_kicks,
    {
        self.max_kicks
    }

    /// Capacity of the oldest subfilter, the one the object was created with.
    pub fn starting_capacity(&self) -> (r: i64)
        requires
            self@.wf(),
        ensures
            r == self@.filters[0].capacity,
    {
        proof {
            self.lemma_view_filters();
        }
        self.filters[0].capacity()
    }

    /// The effort of freeing the object: one unit per subfilter.
    pub fn free_effort(&self) -> (r: usize)
        ensures
            r == self@.filters.len(),
    {
        proof {
            self.lemma_view_filters();
        }
        self.filters.len()
    }

    pub fn filters(&self) -> (r: &Vec<Box<CuckooFilter>>)
        ensures
            Self::filter_views(r@) == self@.filters,
    {
        &self.filters
    }

    /// The bucket storage of subfilter `i`.
    pub closed spec fn bucket_storage(&self, i: int) -> Vec<u8> {
        self.filters@[i].bucket_storage()
    }

    /// Hand the bucket storage of every subfilter, oldest first, to `f`,
    /// which must give the same bytes back (a defragmenting allocator moves
    /// them); every subfilter keeps the storage `f` returned for its old
    /// storage, and the object is otherwise unchanged.
    pub fn realloc_buckets<F: Fn(Vec<u8>) -> Vec<u8>>(&mut self, f: &F)
        requires
            forall|b: Vec<u8>| call_requires(*f, (b,)),
            forall|b: Vec<u8>, r: Vec<u8>| call_ensures(*f, (b,), r) ==> r@ == b@,
        ensures
            final(self)@ == old(self)@,
            forall|i: int|
                0 <= i < old(self)@.filters.len() ==> call_ensures(
                    *f,
                    (old(self).bucket_storage(i),),
                    #[trigger] final(self).bucket_storage(i),
                ),
    {
        proof {
            self.lemma_view_filters();
        }
        let n = self.filters.len();
        let mut i: usize = 0;
        while i < n
            invariant
                0 <= i <= n,
                n == self.filters@.len(),
                n == old(self).filters@.len(),
                self@ == old(self)@,
                forall|j: int|
                    0 <= j < i ==> call_ensures(
                        *f,
                        (old(self).bucket_storage(j),),
                        #[trigger] self.bucket_storage(j),
                    ),
                forall|j: int| i <= j < n ==> #[trigger] self.bucket_storage(j) == old(self).bucket_storage(j),
                forall|b: Vec<u8>| call_requires(*f, (b,)),
                forall|b: Vec<u8>, r: Vec<u8>| call_ensures(*f, (b,), r) ==> r@ == b@,
            decreases n - i,
        {
            let ghost before = self@;
            let ghost storage = self.filters@;
            let ghost start = *self;
            assert(self.bucket_storage(i as int) == old(self).bucket_storage(i as int));
            let mut filter = self.filters.remove(i);
            assert(filter == storage[i as int]);
            let pass = (|b: Vec<u8>| -> (r: Vec<u8>)
                ensures
                    r@ == b@,
                    call_ensures(*f, (b,), r),
                { f(b) });
            let ghost old_storage = filter.bucket_storage();
            filter.realloc_buckets(pass);
            let ghost new_storage = filter.bucket_storage();
            assert(call_ensures(*f, (old_storage,), new_storage));
            self.filters.insert(i, filter);
            assert(self@.filters =~= before.filters);
            assert(self.bucket_storage(i as int) == new_storage);
            assert(old_storage == old(self).bucket_storage(i as int));
            assert forall|j: int| 0 <= j < n && j != i implies #[trigger] self.bucket_storage(j)
                == start.bucket_storage(j) by {
                assert(self.filters@[j] == storage[j]);
            }
            assert forall|j: int| 0 <= j < i + 1 implies call_ensures(
                *f,
                (old(self).bucket_storage(j),),
                #[trigger] self.bucket_storage(j),
            ) by {
                if j < i {
                    assert(self.bucket_storage(j) == start.bucket_storage(j));
                }
            }
            assert forall|j: int| i + 1 <= j < n implies #[trigger] self.bucket_storage(j)
                == old(self).bucket_storage(j) by {
                assert(self.bucket_storage(j) == start.bucket_storage(j));
            }
            i = i + 1;
        }
    }

    /// Whether `bytes` fits the per-object memory limit.
    pub fn validate_size(bytes: usize, memory_limit: usize) -> (r: bool)
        ensures
            r == (bytes <= memory_limit),
    {
        bytes <= memory_limit
    }

    pub fn snapshot_header(&self) -> (r: [u64; 5])
        requires
            self@.wf(),
        ensures
            r@ == self@.header(),
    {
        proof {
            self.lemma_view_filters();
        }
        let r = [
            self.expansion as u64,
            self.bucket_size as u64,
            self.max_kicks as u64,
            self.filters.len() as u64,
            self.num_deleted,
        ];
        assert(r@ =~= self@.header());
        r
    }
}

} // verus!

verus! {

/// Direct attempts name subfilters with a free slot, below `k`, newest first.
proof fn lemma_direct_attempts(fs: Seq<FilterView>, k: int)
    requires
        0 <= k <= fs.len(),
        fs.len() <= usize::MAX,
    ensures
        forall|j: int|
            0 <= j < direct_attempts(fs, k).len() ==> (#[trigger] direct_attempts(fs, k)[j]) is Direct
                && direct_attempts(fs, k)[j]->Direct_0 < k && !fs[direct_attempts(fs, k)[j]->Direct_0 as int].is_full(),
        forall|j1: int, j2: int|
            0 <= j1 < j2 < direct_attempts(fs, k).len() ==> (#[trigger] direct_attempts(fs, k)[j1])->Direct_0
                > (#[trigger] direct_attempts(fs, k)[j2])->Direct_0,
        forall|i: int|
            0 <= i < k && !fs[i].is_full() ==> direct_attempts(fs, k).contains(
                Attempt::Direct(i as usize),
            ),
    decreases k,
{
    if k > 0 {
        lemma_direct_attempts(fs, k - 1);
        let rest = direct_attempts(fs, k - 1);
        if !fs[k - 1].is_full() {
            let d = direct_attempts(fs, k);
            assert(d == seq![Attempt::Direct((k - 1) as usize)] + rest);
            assert(d[0]->Direct_0 == k - 1);
            assert forall|j: int| 0 <= j < d.len() implies (#[trigger] d[j]) is Direct
                && d[j]->Direct_0 < k && !fs[d[j]->Direct_0 as int].is_full() by {
                if j > 0 {
                    assert(d[j] == rest[j - 1]);
                }
            }
            assert forall|j1: int, j2: int| 0 <= j1 < j2 < d.len() implies (#[trigger] d[j1])->Direct_0
                > (#[trigger] d[j2])->Direct_0 by {
                assert(d[j2] == rest[j2 - 1]);
                if j1 > 0 {
                    assert(d[j1] == rest[j1 - 1]);
                }
            }
            assert forall|i: int| 0 <= i < k && !fs[i].is_full() implies d.contains(
                Attempt::Direct(i as usize),
            ) by {
                if i == k - 1 {
                    assert(d[0] == Attempt::Direct(i as usize));
                } else {
                    let j = choose|j: int| 0 <= j < rest.len() && rest[j] == Attempt::Direct(i as usize);
                    assert(d[j + 1] == rest[j]);
                }
            }
        }
    }
}

/// An insertion tries every subfilter that has a free slot, without
/// eviction and newest first, before one eviction walk; the eviction walk, if
/// any, is in the newest subfilter and comes last, and no attempt targets a
/// full subfilter.
pub proof fn lemma_insertion_plan_order(o: ObjectView)
    requires
        o.wf(),
    ensures
        ({
            let plan = insertion_plan_spec(o);
            let n = o.filters.len() as int;
            &&& forall|i: int|
                0 <= i < n && !o.filters[i].is_full() ==> plan.contains(Attempt::Direct(i as usize))
            &&& forall|j: int|
                0 <= j < plan.len() ==> match #[trigger] plan[j] {
                    Attempt::Direct(i) => i < n && !o.filters[i as int].is_full(),
                    Attempt::Evict(i) => i == n - 1 && j == plan.len() - 1 && !o.newest().is_full(),
                }
            &&& forall|j1: int, j2: int|
                0 <= j1 < j2 < plan.len() && (#[trigger] plan[j1]) is Direct && (#[trigger] plan[j2]) is Direct
                    ==> plan[j1]->Direct_0 > plan[j2]->Direct_0
        }),
{
    let n = o.filters.len() as int;
    lemma_direct_attempts(o.filters, n);
    let d = direct_attempts(o.filters, n);
    let plan = insertion_plan_spec(o);
    assert forall|j: int| 0 <= j < d.len() implies #[trigger] plan[j] == d[j] by {}
    assert forall|i: int| 0 <= i < n && !o.filters[i].is_full() implies plan.contains(
        Attempt::Direct(i as usize),
    ) by {
        let j = choose|j: int| 0 <= j < d.len() && d[j] == Attempt::Direct(i as usize);
        assert(plan[j] == d[j]);
    }
    assert forall|j1: int, j2: int|
        0 <= j1 < j2 < plan.len() && (#[trigger] plan[j1]) is Direct && (#[trigger] plan[j2]) is Direct
        implies plan[j1]->Direct_0 > plan[j2]->Direct_0 by {
        if j2 < d.len() {
            assert(plan[j1] == d[j1]);
            assert(plan[j2] == d[j2]);
        }
    }
}

/// A slot freed by a deletion is offered to the next insertion directly,
/// ahead of any eviction walk and of growing the object: after a deletion
/// from subfilter `i`, the insertion plan tries subfilter `i` without
/// eviction.
pub proof fn lemma_freed_slot_is_reused(o: ObjectView, i: int, t: FilterTable)
    requires
        o.wf(),
        deletion_outcome_valid(o, i, t),
    ensures
        after_delete(o, i, t).wf(),
        insertion_plan_spec(after_delete(o, i, t)).contains(Attempt::Direct(i as usize)),
{
    let d = after_delete(o, i, t);
    let nv = d.filters[i];
    assert(d.filters == o.filters.update(i, nv));
    lemma_sum_update(o.filters, items_of(), i, nv);
    lemma_sum_update(o.filters, memory_of(), i, nv);
    assert(o.filters[i].wf());
    assert forall|j: int| 0 <= j < d.filters.len() implies (#[trigger] d.filters[j]).wf()
        && d.filters[j].bucket_size == d.bucket_size by {
        if j != i {
            assert(d.filters[j] == o.filters[j]);
        }
    }
    assert(d.wf());
    lemma_insertion_plan_order(d);
}

/// Deletion counts never decrease and never exceed `i64::MAX`.
pub proof fn lemma_deletion_count_saturates(n: nat)
    requires
        n <= i64::MAX,
    ensures
        n <= saturating_increment(n) <= i64::MAX,
        n < i64::MAX ==> saturating_increment(n) == n + 1,
        n == i64::MAX ==> saturating_increment(n) == n,
{
}

/// A count over subfilters is the plain sum of their counts: counts of
/// consecutive groups of subfilters add up, the count of one subfilter is its
/// own, and no subfilter counts for nothing.
pub proof fn lemma_count_is_sum(a: Seq<usize>, b: Seq<usize>, x: usize)
    ensures
        sum_counts(a + b) == sum_counts(a) + sum_counts(b),
        sum_counts(seq![x]) == x,
        sum_counts(Seq::<usize>::empty()) == 0,
        sum_counts(a.push(x)) == sum_counts(a) + x,
    decreases b.len(),
{
    assert(seq![x].drop_last() =~= Seq::<usize>::empty());
    assert(sum_counts(Seq::<usize>::empty()) == 0);
    assert(sum_counts(seq![x]) == sum_counts(seq![x].drop_last()) + seq![x].last());
    assert(a.push(x).drop_last() =~= a);
    if b.len() == 0 {
        assert(a + b =~= a);
    } else {
        lemma_count_is_sum(a, b.drop_last(), x);
        assert((a + b).drop_last() =~= a + b.drop_last());
        assert((a + b).last() == b.last());
    }
}

/// Every count is at least each of its parts: a match reported by any
/// subfilter, older or newer, is counted.
pub proof fn lemma_count_covers_each(s: Seq<usize>, i: int)
    requires
        0 <= i < s.len(),
    ensures
        sum_counts(s) >= s[i],
    decreases s.len(),
{
    if i < s.len() - 1 {
        lemma_count_covers_each(s.drop_last(), i);
    }
    lemma_count_nonneg(s.drop_last());
}

proof fn lemma_count_nonneg(s: Seq<usize>)
    ensures
        sum_counts(s) >= 0,
    decreases s.len(),
{
    if s.len() > 0 {
        lemma_count_nonneg(s.drop_last());
    }
}

/// Whenever the newest subfilter has a free slot, an insertion ends its plan
/// with exactly one eviction walk, in the newest subfilter, whatever the
/// number of subfilters; when it has none, no eviction walk is planned.
pub proof fn lemma_eviction_walk_in_newest(o: ObjectView)
    requires
        o.wf(),
    ensures
        !o.newest().is_full() ==> insertion_plan_spec(o).len() > 0 && insertion_plan_spec(o).last()
            == Attempt::Evict((o.filters.len() - 1) as usize),
        forall|j: int|
            0 <= j < insertion_plan_spec(o).len() && (#[trigger] insertion_plan_spec(o)[j]) is Evict
                ==> j == insertion_plan_spec(o).len() - 1 && !o.newest().is_full(),
        o.newest().is_full() ==> forall|j: int|
            0 <= j < insertion_plan_spec(o).len() ==> (#[trigger] insertion_plan_spec(o)[j]) is Direct,
{
    lemma_insertion_plan_order(o);
}

} // verus!
