use vstd::prelude::*;

use crate::data::swapped;

verus! {

broadcast use vstd::seq_lib::group_to_multiset_ensures;

/// `a` is `b` with the items of `[lo, hi)` rearranged and the rest left in place.
pub open spec fn perm_on(a: Seq<usize>, b: Seq<usize>, lo: int, hi: int) -> bool {
    &&& 0 <= lo <= hi <= b.len()
    &&& a.len() == b.len()
    &&& a.subrange(lo, hi).to_multiset() == b.subrange(lo, hi).to_multiset()
    &&& forall|k: int| 0 <= k < a.len() && !(lo <= k < hi) ==> a[k] == b[k]
}

/// Every item of `s[lo..hi]` lies in `[lb, ub]`.
pub open spec fn bounded_between(s: Seq<usize>, lo: int, hi: int, lb: int, ub: int) -> bool {
    forall|k: int| lo <= k < hi ==> lb <= #[trigger] s[k] <= ub
}

pub proof fn lemma_perm_on_trans(a: Seq<usize>, b: Seq<usize>, c: Seq<usize>, lo: int, hi: int)
    requires
        perm_on(a, b, lo, hi),
        perm_on(b, c, lo, hi),
    ensures
        perm_on(a, c, lo, hi),
{
}

/// A rearrangement of a part is a rearrangement of any range around it.
pub proof fn lemma_perm_on_widen(
    a: Seq<usize>,
    b: Seq<usize>,
    lo1: int,
    hi1: int,
    lo: int,
    hi: int,
)
    requires
        perm_on(a, b, lo1, hi1),
        0 <= lo <= lo1,
        hi1 <= hi <= b.len(),
    ensures
        perm_on(a, b, lo, hi),
{
    broadcast use vstd::seq_lib::lemma_multiset_commutative;

    let a1 = a.subrange(lo, lo1);
    let a2 = a.subrange(lo1, hi1);
    let a3 = a.subrange(hi1, hi);
    let b1 = b.subrange(lo, lo1);
    let b2 = b.subrange(lo1, hi1);
    let b3 = b.subrange(hi1, hi);
    assert(a1 =~= b1);
    assert(a3 =~= b3);
    assert(a.subrange(lo, hi) =~= a1 + a2 + a3);
    assert(b.subrange(lo, hi) =~= b1 + b2 + b3);
    assert((a1 + a2 + a3).to_multiset() == (a1 + a2).to_multiset().add(a3.to_multiset()));
    assert((b1 + b2 + b3).to_multiset() == (b1 + b2).to_multiset().add(b3.to_multiset()));
}

/// A rearrangement of the whole keeps the multiset of items.
pub proof fn lemma_perm_on_multiset(a: Seq<usize>, b: Seq<usize>, lo: int, hi: int)
    requires
        perm_on(a, b, lo, hi),
    ensures
        a.to_multiset() == b.to_multiset(),
{
    lemma_perm_on_widen(a, b, lo, hi, 0, b.len() as int);
    assert(a.subrange(0, a.len() as int) =~= a);
    assert(b.subrange(0, b.len() as int) =~= b);
}

/// Exchanging two items inside `[lo, hi)` rearranges that range.
pub proof fn lemma_swap_perm_on(s: Seq<usize>, i: int, j: int, lo: int, hi: int)
    requires
        0 <= lo <= i < hi <= s.len(),
        lo <= j < hi,
    ensures
        perm_on(swapped(s, i, j), s, lo, hi),
{
    let t = swapped(s, i, j);
    assert(t.subrange(lo, hi) =~= swapped(s.subrange(lo, hi), i - lo, j - lo));
    crate::data::lemma_swap_multiset(s.subrange(lo, hi), i - lo, j - lo);
}

/// Bounds on the items of a range survive a rearrangement of that range.
pub proof fn lemma_perm_on_bounded(a: Seq<usize>, b: Seq<usize>, lo: int, hi: int, lb: int, ub: int)
    requires
        perm_on(a, b, lo, hi),
        bounded_between(b, lo, hi, lb, ub),
    ensures
        bounded_between(a, lo, hi, lb, ub),
{
    let sa = a.subrange(lo, hi);
    let sb = b.subrange(lo, hi);
    assert forall|k: int| lo <= k < hi implies lb <= #[trigger] a[k] <= ub by {
        assert(sa[k - lo] == a[k]);
        assert(sa.contains(a[k]));
        assert(sa.to_multiset().count(a[k]) > 0);
        assert(sb.contains(a[k]));
        let m = choose|m: int| 0 <= m < sb.len() && sb[m] == a[k];
        assert(sb[m] == b[m + lo]);
    }
}

} // verus!
