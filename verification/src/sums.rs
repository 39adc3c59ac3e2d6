use vstd::prelude::*;
use crate::filter::FilterView;

verus! {

/// The sum of `f` over the subfilters of `fs`.
pub open spec fn sum_of(fs: Seq<FilterView>, f: spec_fn(FilterView) -> int) -> int
    decreases fs.len(),
{
    if fs.len() == 0 {
        0
    } else {
        sum_of(fs.drop_last(), f) + f(fs.last())
    }
}

/// Stored fingerprints of a subfilter.
pub open spec fn items_of() -> spec_fn(FilterView) -> int {
    |v: FilterView| v.len as int
}

/// Requested capacity of a subfilter.
pub open spec fn capacity_of() -> spec_fn(FilterView) -> int {
    |v: FilterView| v.capacity
}

/// Accounted bytes of a subfilter.
pub open spec fn memory_of() -> spec_fn(FilterView) -> int {
    |v: FilterView| v.memory()
}

pub open spec fn nonneg_on(fs: Seq<FilterView>, f: spec_fn(FilterView) -> int) -> bool {
    forall|i: int| 0 <= i < fs.len() ==> f(#[trigger] fs[i]) >= 0
}

pub proof fn lemma_sum_prefix_step(fs: Seq<FilterView>, f: spec_fn(FilterView) -> int, i: int)
    requires
        0 <= i < fs.len(),
    ensures
        sum_of(fs.take(i + 1), f) == sum_of(fs.take(i), f) + f(fs[i]),
{
    assert(fs.take(i + 1).drop_last() =~= fs.take(i));
}

pub proof fn lemma_sum_take_all(fs: Seq<FilterView>, f: spec_fn(FilterView) -> int)
    ensures
        sum_of(fs.take(fs.len() as int), f) == sum_of(fs, f),
{
    assert(fs.take(fs.len() as int) =~= fs);
}

pub proof fn lemma_sum_nonneg(fs: Seq<FilterView>, f: spec_fn(FilterView) -> int)
    requires
        nonneg_on(fs, f),
    ensures
        sum_of(fs, f) >= 0,
    decreases fs.len(),
{
    if fs.len() > 0 {
        assert(f(fs[fs.len() - 1]) >= 0);
        lemma_sum_nonneg(fs.drop_last(), f);
    }
}

pub proof fn lemma_sum_prefix_le(fs: Seq<FilterView>, f: spec_fn(FilterView) -> int, i: int)
    requires
        0 <= i <= fs.len(),
        nonneg_on(fs, f),
    ensures
        sum_of(fs.take(i), f) <= sum_of(fs, f),
    decreases fs.len(),
{
    if i == fs.len() {
        lemma_sum_take_all(fs, f);
    } else {
        let d = fs.drop_last();
        assert(d.take(i) =~= fs.take(i));
        assert(f(fs[fs.len() - 1]) >= 0);
        lemma_sum_prefix_le(d, f, i);
    }
}

pub proof fn lemma_sum_push(fs: Seq<FilterView>, f: spec_fn(FilterView) -> int, v: FilterView)
    ensures
        sum_of(fs.push(v), f) == sum_of(fs, f) + f(v),
{
    assert(fs.push(v).drop_last() =~= fs);
}

pub proof fn lemma_sum_update(
    fs: Seq<FilterView>,
    f: spec_fn(FilterView) -> int,
    i: int,
    v: FilterView,
)
    requires
        0 <= i < fs.len(),
    ensures
        sum_of(fs.update(i, v), f) == sum_of(fs, f) - f(fs[i]) + f(v),
    decreases fs.len(),
{
    let u = fs.update(i, v);
    if i == fs.len() - 1 {
        assert(u.drop_last() =~= fs.drop_last());
    } else {
        assert(u.drop_last() =~= fs.drop_last().update(i, v));
        lemma_sum_update(fs.drop_last(), f, i, v);
    }
}

/// The sum of `f` over a sequence of snapshot headers.
pub open spec fn hsum(hs: Seq<Seq<u64>>, f: spec_fn(Seq<u64>) -> int) -> int
    decreases hs.len(),
{
    if hs.len() == 0 {
        0
    } else {
        hsum(hs.drop_last(), f) + f(hs.last())
    }
}

pub open spec fn hnonneg(hs: Seq<Seq<u64>>, f: spec_fn(Seq<u64>) -> int) -> bool {
    forall|i: int| 0 <= i < hs.len() ==> f(#[trigger] hs[i]) >= 0
}

pub proof fn lemma_hsum_cons(h: Seq<u64>, hs: Seq<Seq<u64>>, f: spec_fn(Seq<u64>) -> int)
    ensures
        hsum(seq![h] + hs, f) == f(h) + hsum(hs, f),
    decreases hs.len(),
{
    let c = seq![h] + hs;
    if hs.len() == 0 {
        assert(c.drop_last() =~= Seq::<Seq<u64>>::empty());
        assert(c.last() == h);
        assert(hsum(c.drop_last(), f) == 0);
    } else {
        assert(c.drop_last() =~= seq![h] + hs.drop_last());
        assert(c.last() == hs.last());
        lemma_hsum_cons(h, hs.drop_last(), f);
    }
}

pub proof fn lemma_hsum_push(hs: Seq<Seq<u64>>, f: spec_fn(Seq<u64>) -> int, h: Seq<u64>)
    ensures
        hsum(hs.push(h), f) == hsum(hs, f) + f(h),
{
    assert(hs.push(h).drop_last() =~= hs);
}

pub proof fn lemma_hsum_nonneg(hs: Seq<Seq<u64>>, f: spec_fn(Seq<u64>) -> int)
    requires
        hnonneg(hs, f),
    ensures
        hsum(hs, f) >= 0,
    decreases hs.len(),
{
    if hs.len() > 0 {
        assert(f(hs[hs.len() - 1]) >= 0);
        lemma_hsum_nonneg(hs.drop_last(), f);
    }
}

/// A prefix sums to at most the whole.
pub proof fn lemma_hsum_prefix_le(hs: Seq<Seq<u64>>, f: spec_fn(Seq<u64>) -> int, i: int)
    requires
        0 <= i <= hs.len(),
        hnonneg(hs, f),
    ensures
        hsum(hs.take(i), f) <= hsum(hs, f),
    decreases hs.len(),
{
    if i == hs.len() {
        assert(hs.take(i) =~= hs);
    } else {
        let d = hs.drop_last();
        assert(d.take(i) =~= hs.take(i));
        assert(f(hs[hs.len() - 1]) >= 0);
        lemma_hsum_prefix_le(d, f, i);
    }
}

/// Each term is at most the whole sum.
pub proof fn lemma_hsum_ge_each(hs: Seq<Seq<u64>>, f: spec_fn(Seq<u64>) -> int, i: int)
    requires
        0 <= i < hs.len(),
        hnonneg(hs, f),
    ensures
        f(hs[i]) <= hsum(hs, f),
    decreases hs.len(),
{
    let d = hs.drop_last();
    if i == hs.len() - 1 {
        lemma_hsum_nonneg(d, f);
    } else {
        assert(d[i] == hs[i]);
        assert(f(hs[hs.len() - 1]) >= 0);
        lemma_hsum_ge_each(d, f, i);
    }
}

/// A pointwise smaller term gives a smaller sum.
pub proof fn lemma_hsum_mono(
    hs: Seq<Seq<u64>>,
    f: spec_fn(Seq<u64>) -> int,
    g: spec_fn(Seq<u64>) -> int,
)
    requires
        forall|i: int| 0 <= i < hs.len() ==> f(#[trigger] hs[i]) <= g(hs[i]),
    ensures
        hsum(hs, f) <= hsum(hs, g),
    decreases hs.len(),
{
    if hs.len() > 0 {
        assert(f(hs[hs.len() - 1]) <= g(hs[hs.len() - 1]));
        lemma_hsum_mono(hs.drop_last(), f, g);
    }
}

/// Subfilters whose terms agree with their headers' terms have the same sum.
pub proof fn lemma_sum_of_headers(
    fs: Seq<FilterView>,
    f: spec_fn(FilterView) -> int,
    hs: Seq<Seq<u64>>,
    g: spec_fn(Seq<u64>) -> int,
)
    requires
        fs.len() == hs.len(),
        forall|i: int| 0 <= i < fs.len() ==> f(#[trigger] fs[i]) == g(hs[i]),
    ensures
        sum_of(fs, f) == hsum(hs, g),
    decreases fs.len(),
{
    if fs.len() > 0 {
        assert(f(fs[fs.len() - 1]) == g(hs[hs.len() - 1]));
        lemma_sum_of_headers(fs.drop_last(), f, hs.drop_last(), g);
    }
}

} // verus!
