use vstd::prelude::*;

use crate::data::{DataArrWrapper, StepSink, is_ascending, sorted_between, swapped};
use crate::perm::{
    bounded_between, lemma_perm_on_bounded, lemma_perm_on_multiset, lemma_perm_on_trans,
    lemma_perm_on_widen, lemma_swap_perm_on, perm_on,
};

verus! {

/// Below this many items a hybrid quicksort hands the range to insertion sort.
pub const INSERTION_CUTOFF: usize = 16;

/// Exchanges the items at `i` and `j`, highlighting both.
fn swap_marked<P: StepSink>(
    d: &mut DataArrWrapper,
    p: &mut P,
    i: usize,
    j: usize,
    lo: usize,
    hi: usize,
)
    requires
        old(d).wf(),
        lo <= i <= hi,
        lo <= j <= hi,
        hi < old(d).arr@.len(),
    ensures
        final(d).arr@ == swapped(old(d).arr@, i as int, j as int),
        perm_on(final(d).arr@, old(d).arr@, lo as int, hi + 1),
        final(d).kept_shape(old(d)),
{
    d.swap(i, j);
    d.set_active(i);
    d.set_active_2(j);
    p.step(d);
    proof {
        lemma_swap_perm_on(old(d).arr@, i as int, j as int, lo as int, hi + 1);
    }
}

/// Sinks each item of `[start, hi]` into the sorted run `[lo, start)`.
fn insertion_from<P: StepSink>(
    d: &mut DataArrWrapper,
    p: &mut P,
    lo: usize,
    start: usize,
    hi: usize,
)
    requires
        old(d).wf(),
        lo < start,
        start <= hi + 1,
        hi < old(d).arr@.len(),
        sorted_between(old(d).arr@, lo as int, start as int),
    ensures
        sorted_between(final(d).arr@, lo as int, hi + 1),
        perm_on(final(d).arr@, old(d).arr@, lo as int, hi + 1),
        final(d).kept_shape(old(d)),
{
    let ghost s0 = d.arr@;
    let n = d.arr.len();
    let mut i: usize = start;
    while i <= hi
        invariant
            n == d.arr@.len(),
            lo < i <= hi + 1,
            hi < d.arr@.len(),
            sorted_between(d.arr@, lo as int, i as int),
            perm_on(d.arr@, s0, lo as int, hi + 1),
            d.kept_shape(old(d)),
        decreases hi + 1 - i,
    {
        let mut j: usize = i;
        while j > lo && d.arr[j - 1] > d.arr[j]
            invariant
                lo <= j <= i <= hi,
                hi < d.arr@.len(),
                sorted_between(d.arr@, lo as int, j as int),
                sorted_between(d.arr@, j as int, i + 1),
                forall|k: int, m: int|
                    lo <= k < j && j < m <= i ==> d.arr@[k] <= d.arr@[m],
                perm_on(d.arr@, s0, lo as int, hi + 1),
                d.kept_shape(old(d)),
            decreases j,
        {
            let ghost before = d.arr@;
            swap_marked(d, p, j - 1, j, lo, hi);
            proof {
                lemma_perm_on_trans(d.arr@, before, s0, lo as int, hi + 1);
            }
            j = j - 1;
        }
        i = i + 1;
    }
}

/// Sorts `[lo, hi]` by insertion, one exchange of neighbours at a time.
pub fn insertion_sort<P: StepSink>(d: &mut DataArrWrapper, p: &mut P, lo: usize, hi: usize)
    requires
        old(d).wf(),
        lo <= hi < old(d).arr@.len(),
    ensures
        sorted_between(final(d).arr@, lo as int, hi + 1),
        perm_on(final(d).arr@, old(d).arr@, lo as int, hi + 1),
        final(d).kept_shape(old(d)),
{
    if lo == hi {
        return;
    }
    insertion_from(d, p, lo, lo + 1, hi);
}

/// Lomuto partition of `[lo, hi]` around the last item; returns where that item lands.
fn partition<P: StepSink>(d: &mut DataArrWrapper, p: &mut P, lo: usize, hi: usize) -> (piv: usize)
    requires
        old(d).wf(),
        lo <= hi < old(d).arr@.len(),
    ensures
        lo <= piv <= hi,
        bounded_between(final(d).arr@, lo as int, piv as int, 0, final(d).arr@[piv as int] as int),
        bounded_between(
            final(d).arr@,
            piv + 1,
            hi + 1,
            final(d).arr@[piv as int] as int,
            usize::MAX as int,
        ),
        perm_on(final(d).arr@, old(d).arr@, lo as int, hi + 1),
        final(d).kept_shape(old(d)),
{
    let ghost s0 = d.arr@;
    let pv = d.arr[hi];
    d.set_pivot(hi);
    let mut i: usize = lo;
    let mut j: usize = lo;
    while j < hi
        invariant
            lo <= i <= j <= hi,
            hi < d.arr@.len(),
            d.arr@[hi as int] == pv,
            bounded_between(d.arr@, lo as int, i as int, 0, pv as int),
            bounded_between(d.arr@, i as int, j as int, pv + 1, usize::MAX as int),
            perm_on(d.arr@, s0, lo as int, hi + 1),
            d.kept_shape(old(d)),
        decreases hi - j,
    {
        if d.arr[j] <= pv {
            let ghost before = d.arr@;
            swap_marked(d, p, i, j, lo, hi);
            proof {
                lemma_perm_on_trans(d.arr@, before, s0, lo as int, hi + 1);
            }
            i = i + 1;
        } else {
            d.set_active(j);
            p.step(d);
        }
        j = j + 1;
    }
    let ghost before = d.arr@;
    swap_marked(d, p, i, hi, lo, hi);
    proof {
        lemma_perm_on_trans(d.arr@, before, s0, lo as int, hi + 1);
    }
    i
}

/// Quicksort of `[lo, hi]` with Lomuto partitions; with `insertion_hybrid` set, ranges
/// shorter than `INSERTION_CUTOFF` go to insertion sort.
pub fn quick_sort_range<P: StepSink>(
    d: &mut DataArrWrapper,
    p: &mut P,
    lo: usize,
    hi: usize,
    insertion_hybrid: bool,
)
    requires
        old(d).wf(),
        lo <= hi < old(d).arr@.len(),
    ensures
        sorted_between(final(d).arr@, lo as int, hi + 1),
        perm_on(final(d).arr@, old(d).arr@, lo as int, hi + 1),
        final(d).kept_shape(old(d)),
    decreases hi - lo,
{
    if insertion_hybrid && hi - lo < INSERTION_CUTOFF {
        insertion_sort(d, p, lo, hi);
        return;
    }
    let ghost s0 = d.arr@;
    let piv = partition(d, p, lo, hi);
    let ghost s1 = d.arr@;
    let ghost pv = s1[piv as int];
    if piv > lo {
        quick_sort_range(d, p, lo, piv - 1, insertion_hybrid);
        proof {
            lemma_perm_on_bounded(d.arr@, s1, lo as int, piv as int, 0, pv as int);
            lemma_perm_on_widen(d.arr@, s1, lo as int, piv as int, lo as int, hi + 1);
            lemma_perm_on_trans(d.arr@, s1, s0, lo as int, hi + 1);
        }
    }
    let ghost s2 = d.arr@;
    if piv < hi {
        quick_sort_range(d, p, piv + 1, hi, insertion_hybrid);
        proof {
            lemma_perm_on_bounded(d.arr@, s2, piv + 1, hi + 1, pv as int, usize::MAX as int);
            lemma_perm_on_widen(d.arr@, s2, piv + 1, hi + 1, lo as int, hi + 1);
            lemma_perm_on_trans(d.arr@, s2, s0, lo as int, hi + 1);
        }
    }
    assert(sorted_between(d.arr@, lo as int, hi + 1));
}

/// In-place merge sort of `[lo, hi]`: the sorted right half is shifted into the sorted
/// left half by exchanges of neighbours, with no second buffer.
pub fn merge_sort_range<P: StepSink>(d: &mut DataArrWrapper, p: &mut P, lo: usize, hi: usize)
    requires
        old(d).wf(),
        lo <= hi < old(d).arr@.len(),
    ensures
        sorted_between(final(d).arr@, lo as int, hi + 1),
        perm_on(final(d).arr@, old(d).arr@, lo as int, hi + 1),
        final(d).kept_shape(old(d)),
    decreases hi - lo,
{
    if lo == hi {
        return;
    }
    let ghost s0 = d.arr@;
    let mid = lo + (hi - lo) / 2;
    merge_sort_range(d, p, lo, mid);
    let ghost s1 = d.arr@;
    merge_sort_range(d, p, mid + 1, hi);
    let ghost s2 = d.arr@;
    proof {
        assert(sorted_between(s2, lo as int, mid + 1));
        lemma_perm_on_widen(s1, s0, lo as int, mid + 1, lo as int, hi + 1);
        lemma_perm_on_widen(s2, s1, mid + 1, hi + 1, lo as int, hi + 1);
        lemma_perm_on_trans(s2, s1, s0, lo as int, hi + 1);
    }
    insertion_from(d, p, lo, mid + 1, hi);
    proof {
        lemma_perm_on_trans(d.arr@, s2, s0, lo as int, hi + 1);
    }
}

/// Bubble sort of the whole array.
pub fn bubble_sort<P: StepSink>(d: &mut DataArrWrapper, p: &mut P)
    requires
        old(d).wf(),
    ensures
        is_ascending(final(d).arr@),
        final(d).arr@.to_multiset() == old(d).arr@.to_multiset(),
        final(d).kept_shape(old(d)),
{
    let ghost s0 = d.arr@;
    let n = d.arr.len();
    let mut end: usize = n;
    while end > 1
        invariant
            n == d.arr@.len(),
            end <= n,
            sorted_between(d.arr@, end as int, n as int),
            forall|k: int, m: int| 0 <= k < end && end <= m < n ==> d.arr@[k] <= d.arr@[m],
            perm_on(d.arr@, s0, 0, n as int),
            d.kept_shape(old(d)),
        decreases end,
    {
        let mut j: usize = 0;
        while j + 1 < end
            invariant
                n == d.arr@.len(),
                1 < end <= n,
                j < end,
                sorted_between(d.arr@, end as int, n as int),
                forall|k: int, m: int| 0 <= k < end && end <= m < n ==> d.arr@[k] <= d.arr@[m],
                forall|k: int| 0 <= k < j ==> d.arr@[k] <= d.arr@[j as int],
                perm_on(d.arr@, s0, 0, n as int),
                d.kept_shape(old(d)),
            decreases end - j,
        {
            if d.arr[j] > d.arr[j + 1] {
                let ghost before = d.arr@;
                swap_marked(d, p, j, j + 1, 0, n - 1);
                proof {
                    lemma_perm_on_trans(d.arr@, before, s0, 0, n as int);
                }
            } else {
                d.set_active(j + 1);
                p.step(d);
            }
            j = j + 1;
        }
        end = end - 1;
    }
    proof {
        lemma_perm_on_multiset(d.arr@, s0, 0, n as int);
    }
}

/// Cocktail shaker sort: bubble passes that alternate direction.
pub fn cocktail_shaker_sort<P: StepSink>(d: &mut DataArrWrapper, p: &mut P)
    requires
        old(d).wf(),
    ensures
        is_ascending(final(d).arr@),
        final(d).arr@.to_multiset() == old(d).arr@.to_multiset(),
        final(d).kept_shape(old(d)),
{
    let ghost s0 = d.arr@;
    let n = d.arr.len();
    let mut lo: usize = 0;
    let mut hi: usize = n;
    while hi - lo > 1
        invariant
            n == d.arr@.len(),
            lo <= hi <= n,
            sorted_between(d.arr@, 0, lo as int),
            sorted_between(d.arr@, hi as int, n as int),
            forall|k: int, m: int| 0 <= k < lo && lo <= m < n ==> d.arr@[k] <= d.arr@[m],
            forall|k: int, m: int| 0 <= k < hi && hi <= m < n ==> d.arr@[k] <= d.arr@[m],
            perm_on(d.arr@, s0, 0, n as int),
            d.kept_shape(old(d)),
        decreases hi - lo,
    {
        let mut j: usize = lo;
        while j + 1 < hi
            invariant
                n == d.arr@.len(),
                lo + 1 < hi <= n,
                lo <= j < hi,
                sorted_between(d.arr@, 0, lo as int),
                sorted_between(d.arr@, hi as int, n as int),
                forall|k: int, m: int| 0 <= k < lo && lo <= m < n ==> d.arr@[k] <= d.arr@[m],
                forall|k: int, m: int| 0 <= k < hi && hi <= m < n ==> d.arr@[k] <= d.arr@[m],
                forall|k: int| lo <= k < j ==> d.arr@[k] <= d.arr@[j as int],
                perm_on(d.arr@, s0, 0, n as int),
                d.kept_shape(old(d)),
            decreases hi - j,
        {
            if d.arr[j] > d.arr[j + 1] {
                let ghost before = d.arr@;
                swap_marked(d, p, j, j + 1, 0, n - 1);
                proof {
                    lemma_perm_on_trans(d.arr@, before, s0, 0, n as int);
                }
            } else {
                d.set_active(j + 1);
                p.step(d);
            }
            j = j + 1;
        }
        hi = hi - 1;
        let mut k: usize = hi - 1;
        while k > lo
            invariant
                n == d.arr@.len(),
                lo < hi <= n,
                lo <= k < hi,
                sorted_between(d.arr@, 0, lo as int),
                sorted_between(d.arr@, hi as int, n as int),
                forall|a: int, m: int| 0 <= a < lo && lo <= m < n ==> d.arr@[a] <= d.arr@[m],
                forall|a: int, m: int| 0 <= a < hi && hi <= m < n ==> d.arr@[a] <= d.arr@[m],
                forall|m: int| k < m < hi ==> d.arr@[k as int] <= d.arr@[m],
                perm_on(d.arr@, s0, 0, n as int),
                d.kept_shape(old(d)),
            decreases k,
        {
            if d.arr[k - 1] > d.arr[k] {
                let ghost before = d.arr@;
                swap_marked(d, p, k - 1, k, 0, n - 1);
                proof {
                    lemma_perm_on_trans(d.arr@, before, s0, 0, n as int);
                }
            } else {
                d.set_active(k - 1);
                p.step(d);
            }
            k = k - 1;
        }
        lo = lo + 1;
    }
    proof {
        lemma_perm_on_multiset(d.arr@, s0, 0, n as int);
    }
}

/// Selection sort: each place in turn takes the least of the items not yet placed.
pub fn selection_sort<P: StepSink>(d: &mut DataArrWrapper, p: &mut P)
    requires
        old(d).wf(),
    ensures
        is_ascending(final(d).arr@),
        final(d).arr@.to_multiset() == old(d).arr@.to_multiset(),
        final(d).kept_shape(old(d)),
{
    let ghost s0 = d.arr@;
    let n = d.arr.len();
    let mut i: usize = 0;
    while i < n
        invariant
            n == d.arr@.len(),
            i <= n,
            sorted_between(d.arr@, 0, i as int),
            forall|k: int, m: int| 0 <= k < i && i <= m < n ==> d.arr@[k] <= d.arr@[m],
            perm_on(d.arr@, s0, 0, n as int),
            d.kept_shape(old(d)),
        decreases n - i,
    {
        let ghost si = d.arr@;
        let mut min_idx: usize = i;
        let mut j: usize = i + 1;
        while j < n
            invariant
                n == d.arr@.len(),
                d.arr@ == si,
                i < n,
                i <= min_idx < n,
                i < j <= n,
                min_idx < j,
                forall|m: int| i <= m < j ==> d.arr@[min_idx as int] <= d.arr@[m],
                d.kept_shape(old(d)),
            decreases n - j,
        {
            d.set_active_2(j);
            p.step(d);
            if d.arr[j] < d.arr[min_idx] {
                min_idx = j;
            }
            j = j + 1;
        }
        let ghost before = d.arr@;
        swap_marked(d, p, i, min_idx, 0, n - 1);
        proof {
            lemma_perm_on_trans(d.arr@, before, s0, 0, n as int);
        }
        i = i + 1;
    }
    proof {
        lemma_perm_on_multiset(d.arr@, s0, 0, n as int);
    }
}

/// Shell sort with gaps `n / 2, n / 4, ...`; its last pass, of gap 1, is an insertion sort.
pub fn shell_sort<P: StepSink>(d: &mut DataArrWrapper, p: &mut P)
    requires
        old(d).wf(),
    ensures
        is_ascending(final(d).arr@),
        final(d).arr@.to_multiset() == old(d).arr@.to_multiset(),
        final(d).kept_shape(old(d)),
{
    let ghost s0 = d.arr@;
    let n = d.arr.len();
    if n == 0 {
        return;
    }
    let mut gap: usize = n / 2;
    while gap > 1
        invariant
            n == d.arr@.len(),
            n > 0,
            gap < n,
            perm_on(d.arr@, s0, 0, n as int),
            d.kept_shape(old(d)),
        decreases gap,
    {
        let mut i: usize = gap;
        while i < n
            invariant
                n == d.arr@.len(),
                1 < gap < n,
                gap <= i <= n,
                perm_on(d.arr@, s0, 0, n as int),
                d.kept_shape(old(d)),
            decreases n - i,
        {
            let mut j: usize = i;
            while j >= gap && d.arr[j - gap] > d.arr[j]
                invariant
                    n == d.arr@.len(),
                    1 < gap < n,
                    j <= i < n,
                    perm_on(d.arr@, s0, 0, n as int),
                    d.kept_shape(old(d)),
                decreases j,
            {
                let ghost before = d.arr@;
                swap_marked(d, p, j - gap, j, 0, n - 1);
                proof {
                    lemma_perm_on_trans(d.arr@, before, s0, 0, n as int);
                }
                j = j - gap;
            }
            i = i + 1;
        }
        gap = gap / 2;
    }
    let ghost s1 = d.arr@;
    insertion_sort(d, p, 0, n - 1);
    proof {
        lemma_perm_on_trans(d.arr@, s1, s0, 0, n as int);
        lemma_perm_on_multiset(d.arr@, s0, 0, n as int);
    }
}

} // verus!
