use vstd::prelude::*;
use crate::alloc_stats::AllocationStats;
use crate::reserve::{try_reserve_exact, ReserveRequest};

verus! {

/// Maximum bucket bytes per persisted string buffer.
pub const RDB_BUCKET_CHUNK_SIZE: usize = 1048576;

/// Room reserved once a chunk needs `required` bytes in a buffer of final
/// length `size` that has `reserved` bytes of room: grow geometrically up to
/// half the final size, then reserve the final size.
pub open spec fn reservation(size: nat, reserved: nat, required: nat) -> nat {
    if required > size / 2 {
        size
    } else {
        let doubled = if 2 * reserved >= required {
            2 * reserved
        } else {
            required
        };
        if doubled <= size / 2 {
            doubled
        } else {
            size / 2
        }
    }
}

/// The state of a bucket load, as mathematical values.
pub struct LoaderView {
    pub size: nat,
    pub values: Seq<u8>,
    pub reserved: nat,
    pub stats: AllocationStats,
}

impl LoaderView {
    pub open spec fn wf(self) -> bool {
        &&& 0 < self.size <= isize::MAX
        &&& self.values.len() <= self.reserved <= self.size
        &&& self.reserved < self.size ==> self.reserved <= self.size / 2
        &&& self.stats.wf()
        &&& !self.stats.invalid_deallocation
        &&& self.stats.live_bytes == self.reserved
        &&& self.stats.largest_allocation == self.reserved
        &&& self.stats.peak_live_bytes <= self.size + self.size / 2
    }

    /// Length the next chunk must have.
    pub open spec fn expected(self) -> nat {
        let left = (self.size - self.values.len()) as nat;
        if left < RDB_BUCKET_CHUNK_SIZE {
            left
        } else {
            RDB_BUCKET_CHUNK_SIZE as nat
        }
    }

    pub open spec fn complete(self) -> bool {
        self.values.len() == self.size
    }
}

/// What storing one chunk did.
#[derive(Debug)]
pub enum ChunkPush {
    /// The chunk was stored; `Some` holds the reservation that was granted
    /// for it, `None` that the reserved room sufficed.
    Stored(Option<ReserveRequest>),
    /// The chunk had the wrong length; nothing was asked for or changed.
    WrongLength,
    /// The reservation the chunk needed was refused; nothing changed.
    Refused(ReserveRequest),
}

/// The room to reserve once a chunk needs `required` bytes, as
/// `reservation` says.
pub fn reservation_capacity(size: usize, reserved: usize, required: usize) -> (c: usize)
    requires
        reserved <= size,
        required <= size,
        size <= isize::MAX,
    ensures
        c == reservation(size as nat, reserved as nat, required as nat),
{
    let half = size / 2;
    if required > half {
        size
    } else {
        let doubled = if 2 * reserved >= required {
            2 * reserved
        } else {
            required
        };
        if doubled <= half {
            doubled
        } else {
            half
        }
    }
}

/// Loads bucket bytes chunk by chunk, reserving storage only after a chunk
/// has been received and checked, and counting the storage it reserves.
pub struct ChunkLoader {
    size: usize,
    values: Vec<u8>,
    reserved: usize,
    stats: AllocationStats,
}

impl View for ChunkLoader {
    type V = LoaderView;

    closed spec fn view(&self) -> LoaderView {
        LoaderView {
            size: self.size as nat,
            values: self.values@,
            reserved: self.reserved as nat,
            stats: self.stats,
        }
    }
}

impl ChunkLoader {
    /// A load of `size` bytes; refused for an empty or unaddressable size.
    pub fn new(size: usize) -> (r: Option<ChunkLoader>)
        ensures
            r is None <==> (size == 0 || size > isize::MAX),
            r matches Some(l) ==> l@.wf() && l@.size == size && l@.values.len() == 0
                && l@.reserved == 0 && l@.stats.peak_live_bytes == 0,
    {
        if size == 0 || size > isize::MAX as usize {
            return None;
        }
        Some(ChunkLoader { size, values: Vec::new(), reserved: 0, stats: AllocationStats::new() })
    }

    pub fn expected_len(&self) -> (r: usize)
        requires
            self@.wf(),
        ensures
            r == self@.expected(),
    {
        let left = self.size - self.values.len();
        if left < RDB_BUCKET_CHUNK_SIZE {
            left
        } else {
            RDB_BUCKET_CHUNK_SIZE
        }
    }

    pub fn is_complete(&self) -> (r: bool)
        requires
            self@.wf(),
        ensures
            r == self@.complete(),
    {
        self.values.len() == self.size
    }

    /// Accept the next chunk: its length must be the expected one. Where
    /// the reserved room is short, room for `reservation(..)` bytes is asked
    /// of the allocator first (the amount beyond the loaded bytes), and the
    /// counters record that reservation; a chunk that fits the reserved room
    /// is stored without asking. On a wrong length or a refused reservation
    /// nothing changes.
    pub fn push_chunk(&mut self, chunk: &[u8]) -> (r: ChunkPush)
        requires
            old(self)@.wf(),
            !old(self)@.complete(),
        ensures
            final(self)@.wf(),
            ({
                let o = old(self)@;
                let required = o.values.len() + chunk@.len();
                let c = reservation(o.size, o.reserved, required as nat);
                let stored = final(self)@.values == o.values + chunk@ && final(self)@.size == o.size;
                if chunk@.len() != o.expected() {
                    r is WrongLength && final(self)@ == o
                } else if required <= o.reserved {
                    r matches ChunkPush::Stored(None) && stored && final(self)@.reserved == o.reserved
                        && final(self)@.stats == o.stats
                } else {
                    match r {
                        ChunkPush::Stored(Some(q)) => {
                            &&& q.additional_spec() == c - o.values.len()
                            &&& q.granted_spec()
                            &&& stored
                            &&& final(self)@.reserved == c
                            &&& final(self)@.stats.live_bytes == c
                            &&& final(self)@.stats.largest_allocation == c
                            &&& final(self)@.stats.peak_live_bytes == if o.reserved + c
                                > o.stats.peak_live_bytes {
                                (o.reserved + c) as int
                            } else {
                                o.stats.peak_live_bytes as int
                            }
                        },
                        ChunkPush::Refused(q) => q.additional_spec() == c - o.values.len()
                            && !q.granted_spec() && final(self)@ == o,
                        _ => false,
                    }
                }
            }),
    {
        let expected = self.expected_len();
        if chunk.len() != expected {
            return ChunkPush::WrongLength;
        }
        let len = self.values.len();
        let required = len + expected;
        let mut granted: Option<ReserveRequest> = None;
        if required > self.reserved {
            let capacity = reservation_capacity(self.size, self.reserved, required);
            let request = try_reserve_exact(&mut self.values, capacity - len);
            if !request.granted() {
                return ChunkPush::Refused(request);
            }
            let previous = self.reserved;
            self.stats.allocated(capacity);
            if previous > 0 {
                self.stats.freed(previous);
            }
            self.reserved = capacity;
            granted = Some(request);
        }
        self.values.extend_from_slice(chunk);
        assert(self.values@ =~= old(self)@.values + chunk@);
        ChunkPush::Stored(granted)
    }

    /// The loaded bytes and the counters, once every chunk has arrived.
    pub fn finish(self) -> (r: (Vec<u8>, AllocationStats))
        requires
            self@.wf(),
            self@.complete(),
        ensures
            r.0@ == self@.values,
            r.1 == self@.stats,
            r.1.live_bytes == self@.size,
            r.1.largest_allocation == self@.size,
    {
        (self.values, self.stats)
    }

    /// Give up the load; its storage is freed.
    pub fn abandon(self) -> (r: AllocationStats)
        requires
            self@.wf(),
        ensures
            r.live_bytes == 0,
            r.largest_allocation == self@.stats.largest_allocation,
            r.peak_live_bytes == self@.stats.peak_live_bytes,
            r.wf(),
    {
        let mut stats = self.stats;
        if self.reserved > 0 {
            stats.freed(self.reserved);
        }
        stats
    }
}

/// The chunk length, as a number.
pub open spec fn chunk_size() -> nat {
    RDB_BUCKET_CHUNK_SIZE as nat
}

/// How many chunks hold `size` bytes.
pub open spec fn chunk_total(size: nat) -> nat {
    ((size + chunk_size() - 1) / (chunk_size() as int)) as nat
}

/// Bytes loaded once the first `j` chunks are in.
pub open spec fn loaded_len(size: nat, j: nat) -> nat {
    if j * chunk_size() < size {
        j * chunk_size()
    } else {
        size
    }
}

/// The length chunk `j` must have: a full chunk, or the tail.
pub open spec fn chunk_len(size: nat, j: nat) -> nat {
    (loaded_len(size, j + 1) - loaded_len(size, j)) as nat
}

/// Room reserved once the first `j` chunks are in.
pub open spec fn reserved_after(size: nat, j: nat) -> nat
    decreases j,
{
    if j == 0 {
        0
    } else {
        let prev = reserved_after(size, (j - 1) as nat);
        let required = loaded_len(size, j);
        if required > prev {
            reservation(size, prev, required)
        } else {
            prev
        }
    }
}

/// Peak of reserved bytes once the first `j` chunks are in: a growing
/// reservation briefly holds the old and the new room.
pub open spec fn peak_after(size: nat, j: nat) -> nat
    decreases j,
{
    if j == 0 {
        0
    } else {
        let prev = reserved_after(size, (j - 1) as nat);
        let next = reserved_after(size, j);
        let peak = peak_after(size, (j - 1) as nat);
        if next > prev && prev + next > peak {
            prev + next
        } else {
            peak
        }
    }
}

/// Chunks joined in order.
pub open spec fn joined(cs: Seq<Seq<u8>>) -> Seq<u8>
    decreases cs.len(),
{
    if cs.len() == 0 {
        seq![]
    } else {
        joined(cs.drop_last()) + cs.last()
    }
}

/// `load_chunk(i)` returned the chunk `c`.
pub open spec fn returned_chunk<'a, F>(load_chunk: F, i: int, c: Seq<u8>) -> bool where
    F: Fn(usize) -> Option<&'a [u8]>,
 {
    exists|s: &'a [u8]| #[trigger] call_ensures(load_chunk, (i as usize,), Some(s)) && s@ == c
}

/// `load_chunk(i)` returned nothing, or a chunk whose length is not `len`.
pub open spec fn returned_unusable<'a, F>(load_chunk: F, i: int, len: nat) -> bool where
    F: Fn(usize) -> Option<&'a [u8]>,
 {
    exists|o: Option<&'a [u8]>|
        #[trigger] call_ensures(load_chunk, (i as usize,), o) && match o {
            None => true,
            Some(s) => s@.len() != len,
        }
}

/// `load_chunk(i)` returned a chunk of length `len`.
pub open spec fn returned_fitting<'a, F>(load_chunk: F, i: int, len: nat) -> bool where
    F: Fn(usize) -> Option<&'a [u8]>,
 {
    exists|s: &'a [u8]| #[trigger] call_ensures(load_chunk, (i as usize,), Some(s)) && s@.len() == len
}

/// `cs` are the first chunks of a load of `size` bytes, each of the right
/// length and each what `load_chunk` returned for its position.
pub open spec fn chunks_received<'a, F>(load_chunk: F, size: nat, cs: Seq<Seq<u8>>) -> bool where
    F: Fn(usize) -> Option<&'a [u8]>,
 {
    forall|i: int|
        0 <= i < cs.len() ==> (#[trigger] cs[i]).len() == chunk_len(size, i as nat) && returned_chunk(
            load_chunk,
            i,
            cs[i],
        )
}

/// A position below the chunk count loads no more than the whole.
proof fn lemma_chunk_position(size: nat, i: nat)
    requires
        i * chunk_size() < size,
    ensures
        i < chunk_total(size),
{
    let c = chunk_size() as int;
    assert(c == 1048576);
    assert(i < (size + c - 1) / c) by (nonlinear_arith)
        requires
            c == 1048576,
            i * c < size,
    ;
}

/// The amounts asked of the allocator while the first `j` chunks are
/// stored: one reservation wherever a chunk does not fit the reserved room,
/// for the room `reservation` gives beyond the bytes already loaded.
pub open spec fn requests_after(size: nat, j: nat) -> Seq<nat>
    decreases j,
{
    if j == 0 {
        seq![]
    } else {
        let prev = reserved_after(size, (j - 1) as nat);
        let required = loaded_len(size, j);
        let earlier = requests_after(size, (j - 1) as nat);
        if required > prev {
            earlier.push((reservation(size, prev, required) - loaded_len(size, (j - 1) as nat)) as nat)
        } else {
            earlier
        }
    }
}

/// The amount a reservation for chunk `j` asks for, once the first `j`
/// chunks are in.
pub open spec fn request_for(size: nat, j: nat) -> nat {
    (reservation(size, reserved_after(size, j), loaded_len(size, j + 1)) - loaded_len(size, j)) as nat
}

/// The amounts of a list of requests.
pub open spec fn request_amounts(qs: Seq<ReserveRequest>) -> Seq<nat> {
    qs.map_values(|q: ReserveRequest| q.additional_spec())
}

/// Every request in the list was granted.
pub open spec fn all_granted(qs: Seq<ReserveRequest>) -> bool {
    forall|i: int| 0 <= i < qs.len() ==> (#[trigger] qs[i]).granted_spec()
}

/// Once all bytes are loaded, every chunk has been read.
proof fn lemma_chunks_complete(size: nat, i: nat)
    requires
        0 < size,
        loaded_len(size, i) == size,
        i <= chunk_total(size),
    ensures
        i == chunk_total(size),
{
    let c = chunk_size() as int;
    assert(c == 1048576);
    assert(i * c >= size);
    assert(i >= (size + c - 1) / c) by (nonlinear_arith)
        requires
            c == 1048576,
            i * c >= size,
    ;
}

/// Load `size` bucket bytes; `load_chunk(i)` yields the `i`-th stored chunk,
/// or `None`. An empty or unaddressable size is refused without reading (no
/// position may be asked for then). Otherwise chunks are read in order, each
/// checked for its length before any storage for it is asked of the
/// allocator, and the load stops at the first missing or wrongly sized
/// chunk, or at a refused reservation. Returns the bytes (the chunks joined
/// in order), the library's counters of the storage it reserved, and the
/// reservations it asked the allocator for, in order. The bounds on storage
/// are stated over those counters and requests.
pub fn load_bucket_chunks<'a, F: Fn(usize) -> Option<&'a [u8]>>(size: usize, load_chunk: F) -> (r: (
    Option<Vec<u8>>,
    AllocationStats,
    Vec<ReserveRequest>,
))
    requires
        forall|i: usize|
            0 < size <= isize::MAX && i < chunk_total(size as nat) ==> call_requires(load_chunk, (i,)),
    ensures
        (size == 0 || size > isize::MAX) ==> r.0 is None && r.1.largest_allocation == 0
            && r.1.peak_live_bytes == 0 && r.1.live_bytes == 0 && r.2@.len() == 0,
        0 < size <= isize::MAX ==> match r.0 {
            Some(v) => exists|cs: Seq<Seq<u8>>|
                #![trigger chunks_received(load_chunk, size as nat, cs)]
                cs.len() == chunk_total(size as nat) && chunks_received(load_chunk, size as nat, cs)
                    && v@ == joined(cs) && r.1.live_bytes == size && r.1.largest_allocation == size
                    && r.1.peak_live_bytes == peak_after(size as nat, cs.len())
                    && request_amounts(r.2@) == requests_after(size as nat, cs.len()) && all_granted(
                    r.2@,
                ),
            None => exists|cs: Seq<Seq<u8>>|
                #![trigger chunks_received(load_chunk, size as nat, cs)]
                cs.len() < chunk_total(size as nat) && chunks_received(load_chunk, size as nat, cs)
                    && r.1.live_bytes == 0 && r.1.largest_allocation == reserved_after(
                    size as nat,
                    cs.len(),
                ) && r.1.peak_live_bytes == peak_after(size as nat, cs.len()) && ((returned_unusable(
                    load_chunk,
                    cs.len() as int,
                    chunk_len(size as nat, cs.len()),
                ) && request_amounts(r.2@) == requests_after(size as nat, cs.len()) && all_granted(
                    r.2@,
                )) || (returned_fitting(load_chunk, cs.len() as int, chunk_len(size as nat, cs.len()))
                    && loaded_len(size as nat, cs.len() + 1) > reserved_after(size as nat, cs.len())
                    && request_amounts(r.2@) == requests_after(size as nat, cs.len()).push(
                    request_for(size as nat, cs.len()),
                ) && all_granted(r.2@.drop_last()) && !r.2@.last().granted_spec())),
        },
        r.1.largest_allocation <= size,
        r.1.peak_live_bytes <= size + size / 2,
{
    let mut requests: Vec<ReserveRequest> = Vec::new();
    let mut loader = match ChunkLoader::new(size) {
        Some(l) => l,
        None => {
            return (None, AllocationStats::new(), requests);
        },
    };
    let ghost mut cs: Seq<Seq<u8>> = seq![];
    let mut i: usize = 0;
    assert(joined(cs) =~= loader@.values);
    assert(request_amounts(requests@) =~= requests_after(size as nat, 0));
    while !loader.is_complete()
        invariant
            loader@.wf(),
            loader@.size == size,
            0 < size <= isize::MAX,
            cs.len() == i,
            i <= chunk_total(size as nat),
            chunks_received(load_chunk, size as nat, cs),
            loader@.values == joined(cs),
            loader@.values.len() == loaded_len(size as nat, i as nat),
            loader@.reserved == reserved_after(size as nat, i as nat),
            loader@.stats.peak_live_bytes == peak_after(size as nat, i as nat),
            request_amounts(requests@) == requests_after(size as nat, i as nat),
            all_granted(requests@),
            forall|k: usize|
                0 < size <= isize::MAX && k < chunk_total(size as nat) ==> call_requires(
                    load_chunk,
                    (k,),
                ),
        decreases loader@.size - loader@.values.len(),
    {
        proof {
            lemma_chunk_position(size as nat, i as nat);
        }
        let expected = loader.expected_len();
        assert(expected == chunk_len(size as nat, i as nat));
        let data = load_chunk(i);
        assert(call_ensures(load_chunk, (i,), data));
        assert(call_ensures(load_chunk, ((i as int) as usize,), data));
        match data {
            Some(bytes) => {
                assert(call_ensures(load_chunk, ((i as int) as usize,), Some(bytes)));
                let ghost before = loader@;
                let ghost old_requests = requests@;
                match loader.push_chunk(bytes) {
                    ChunkPush::WrongLength => {
                        proof {
                            let o = Some(bytes);
                            assert(match o {
                                None => true,
                                Some(s) => s@.len() != chunk_len(size as nat, i as nat),
                            });
                            assert(returned_unusable(load_chunk, i as int, chunk_len(size as nat, i as nat)));
                        }
                        return (None, loader.abandon(), requests);
                    },
                    ChunkPush::Refused(q) => {
                        requests.push(q);
                        proof {
                            assert(returned_fitting(load_chunk, i as int, chunk_len(size as nat, i as nat)));
                            assert(requests@.drop_last() == old_requests);
                            assert(request_amounts(requests@) =~= requests_after(size as nat, i as nat).push(
                                request_for(size as nat, i as nat),
                            ));
                        }
                        return (None, loader.abandon(), requests);
                    },
                    ChunkPush::Stored(granted) => {
                        match granted {
                            Some(q) => {
                                requests.push(q);
                            },
                            None => {},
                        }
                        proof {
                            assert(request_amounts(requests@) =~= requests_after(size as nat, (i + 1) as nat));
                            assert(all_granted(requests@)) by {
                                assert forall|k: int| 0 <= k < requests@.len() implies (
                                #[trigger] requests@[k]).granted_spec() by {
                                    if k < old_requests.len() {
                                        assert(requests@[k] == old_requests[k]);
                                    }
                                }
                            }
                        }
                    },
                }
                proof {
                    assert(returned_chunk(load_chunk, i as int, bytes@));
                    let ncs = cs.push(bytes@);
                    assert(ncs.drop_last() == cs);
                    assert(chunks_received(load_chunk, size as nat, ncs)) by {
                        assert forall|k: int| 0 <= k < ncs.len() implies (#[trigger] ncs[k]).len()
                            == chunk_len(size as nat, k as nat) && returned_chunk(load_chunk, k, ncs[k]) by {
                            if k < cs.len() {
                                assert(ncs[k] == cs[k]);
                            }
                        }
                    }
                    cs = ncs;
                }
                i = i + 1;
            },
            None => {
                proof {
                    let o: Option<&'a [u8]> = None;
                    assert(call_ensures(load_chunk, ((i as int) as usize,), o));
                    assert(returned_unusable(load_chunk, i as int, chunk_len(size as nat, i as nat)));
                }
                return (None, loader.abandon(), requests);
            },
        }
    }
    proof {
        lemma_chunks_complete(size as nat, i as nat);
    }
    let (values, stats) = loader.finish();
    assert(cs.len() == chunk_total(size as nat));
    assert(chunks_received(load_chunk, size as nat, cs));
    (Some(values), stats, requests)
}

/// The chunks `bytes` is saved as: consecutive pieces of `chunk_size()`
/// bytes, the last one holding the tail.
pub open spec fn split_chunks(bytes: Seq<u8>) -> Seq<Seq<u8>> {
    Seq::new(
        chunk_total(bytes.len()),
        |j: int| bytes.subrange(loaded_len(bytes.len(), j as nat) as int, loaded_len(bytes.len(), (j + 1) as nat) as int),
    )
}

/// Where each chunk of `len` saved bytes starts and ends.
pub fn chunk_bounds(len: usize) -> (r: Vec<(usize, usize)>)
    ensures
        r@.len() == chunk_total(len as nat),
        forall|j: int|
            0 <= j < r@.len() ==> (#[trigger] r@[j]).0 == loaded_len(len as nat, j as nat) && r@[j].1
                == loaded_len(len as nat, (j + 1) as nat),
{
    let mut r: Vec<(usize, usize)> = Vec::new();
    let mut start: usize = 0;
    while start < len
        invariant
            start <= len,
            start == loaded_len(len as nat, r@.len()),
            r@.len() <= chunk_total(len as nat),
            forall|j: int|
                0 <= j < r@.len() ==> (#[trigger] r@[j]).0 == loaded_len(len as nat, j as nat)
                    && r@[j].1 == loaded_len(len as nat, (j + 1) as nat),
        decreases len - start,
    {
        proof {
            lemma_chunk_position(len as nat, r@.len());
            let j = r@.len() as int;
            assert((j + 1) * chunk_size() == j * chunk_size() + chunk_size()) by (nonlinear_arith);
            assert(start == j * chunk_size());
        }
        let end = if len - start < RDB_BUCKET_CHUNK_SIZE {
            len
        } else {
            start + RDB_BUCKET_CHUNK_SIZE
        };
        r.push((start, end));
        start = end;
    }
    proof {
        if len > 0 {
            lemma_chunks_complete(len as nat, r@.len());
        }
    }
    r
}

/// Loaded lengths grow with the number of chunks.
proof fn lemma_loaded_monotone(n: nat, j: nat, k: nat)
    requires
        j <= k,
    ensures
        loaded_len(n, j) <= loaded_len(n, k),
{
    assert(j * chunk_size() <= k * chunk_size()) by (nonlinear_arith)
        requires
            j <= k,
    ;
}

/// The first `k` saved chunks join into the first bytes they cover.
proof fn lemma_split_prefix(bytes: Seq<u8>, k: nat)
    requires
        k <= chunk_total(bytes.len()),
    ensures
        joined(split_chunks(bytes).take(k as int)) == bytes.subrange(0, loaded_len(bytes.len(), k) as int),
    decreases k,
{
    let n = bytes.len();
    let cs = split_chunks(bytes);
    if k == 0 {
        assert(cs.take(0) =~= Seq::<Seq<u8>>::empty());
        assert(bytes.subrange(0, 0) =~= Seq::<u8>::empty());
    } else {
        lemma_split_prefix(bytes, (k - 1) as nat);
        lemma_loaded_monotone(n, (k - 1) as nat, k);
        assert(cs.take(k as int).drop_last() =~= cs.take(k - 1));
        assert(cs.take(k as int).last() == cs[k - 1]);
        assert(bytes.subrange(0, loaded_len(n, k) as int) =~= bytes.subrange(
            0,
            loaded_len(n, (k - 1) as nat) as int,
        ) + bytes.subrange(loaded_len(n, (k - 1) as nat) as int, loaded_len(n, k) as int));
    }
}

/// Saved bytes load back unchanged: the chunks they are saved as have the
/// lengths loading expects and join into the same bytes.
pub proof fn lemma_saved_chunks_load_back(bytes: Seq<u8>)
    ensures
        split_chunks(bytes).len() == chunk_total(bytes.len()),
        forall|j: int|
            0 <= j < split_chunks(bytes).len() ==> (#[trigger] split_chunks(bytes)[j]).len()
                == chunk_len(bytes.len(), j as nat),
        joined(split_chunks(bytes)) == bytes,
{
    let n = bytes.len();
    let cs = split_chunks(bytes);
    assert forall|j: int| 0 <= j < cs.len() implies (#[trigger] cs[j]).len() == chunk_len(n, j as nat) by {
        lemma_loaded_monotone(n, j as nat, (j + 1) as nat);
    }
    lemma_split_prefix(bytes, chunk_total(n));
    assert(cs.take(cs.len() as int) =~= cs);
    if n > 0 {
        let c = chunk_size() as int;
        let t = chunk_total(n);
        assert(t * c >= n) by (nonlinear_arith)
            requires
                c == 1048576,
                t == (n + c - 1) / c,
                n > 0,
        ;
    }
    assert(bytes.subrange(0, n as int) =~= bytes);
}

} // verus!
