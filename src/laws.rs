use vstd::prelude::*;

use vstd::arithmetic::div_mod::lemma_div_denominator;
use crate::array::is_permutation;
use crate::data::{is_ascending, is_identity};
use crate::pacing::{SleepTimes, SortFamily, growth_of, lemma_sqrt_floor, scaling_factor, sqrt_floor};

verus! {

broadcast use vstd::seq_lib::group_to_multiset_ensures;

/// An array that holds `0, ..., n - 1` in some order still does after a shuffle or a
/// completed sort (both keep the multiset), a reverse, or a reset.
pub proof fn permutation_invariant(s: Seq<usize>, t: Seq<usize>)
    requires
        is_permutation(s),
        t.to_multiset() == s.to_multiset() || t == s.reverse() || (is_identity(t) && t.len()
            == s.len()),
    ensures
        is_permutation(t),
{
    if t.to_multiset() == s.to_multiset() {
        assert(t.len() == s.len()) by {
            assert(t.len() == t.to_multiset().len());
            assert(s.len() == s.to_multiset().len());
        }
        assert(Seq::new(t.len(), |i: int| i as usize) =~= Seq::new(s.len(), |i: int| i as usize));
    } else if t == s.reverse() {
        s.lemma_reverse_to_multiset();
        assert(Seq::new(t.len(), |i: int| i as usize) =~= Seq::new(s.len(), |i: int| i as usize));
    } else {
        assert(t =~= Seq::new(t.len(), |i: int| i as usize));
    }
}

/// Two completed sorts of the same items agree item for item, whatever the algorithm or
/// its flags: radix or comparison, threaded or not, hybrid or not.
pub proof fn sorted_runs_agree(a: Seq<usize>, b: Seq<usize>)
    requires
        is_ascending(a),
        is_ascending(b),
        a.to_multiset() == b.to_multiset(),
    ensures
        a == b,
{
    let leq = |x: usize, y: usize| x <= y;
    assert(vstd::relations::sorted_by(a, leq));
    assert(vstd::relations::sorted_by(b, leq));
    assert(vstd::relations::total_ordering(leq));
    vstd::seq_lib::lemma_sorted_unique(a, b, leq);
}

/// Reversing twice gives back the original order.
pub proof fn reverse_involution(s: Seq<usize>)
    ensures
        s.reverse().reverse() == s,
{
    assert(s.reverse().reverse() =~= s);
}

/// For a family whose factor is `n` or `n * n`, the pause for `k * n` items is the pause
/// for `n` items divided by the factor of `k`.
pub proof fn pacing_scales(t: SleepTimes, f: SortFamily, n: int, k: int)
    requires
        n > 0,
        k > 0,
        !(growth_of(f) is ThreeHalves),
    ensures
        scaling_factor(f, k * n) == scaling_factor(f, k) * scaling_factor(f, n),
        t.step_spec(f, k * n) == t.step_spec(f, n) / scaling_factor(f, k),
{
    let b = t.base_spec(f) as int;
    let fk = scaling_factor(f, k);
    let fn_ = scaling_factor(f, n);
    assert(fk * fn_ == scaling_factor(f, k * n) && fk > 0 && fn_ > 0) by (nonlinear_arith)
        requires
            growth_of(f) is Linear ==> fk == k && fn_ == n && scaling_factor(f, k * n) == k * n,
            growth_of(f) is Quadratic ==> fk == k * k && fn_ == n * n && scaling_factor(f, k * n)
                == (k * n) * (k * n),
            growth_of(f) is Linear || growth_of(f) is Quadratic,
            n > 0,
            k > 0,
    ;
    lemma_div_denominator(b, fn_, fk);
    assert(fn_ * fk == fk * fn_) by (nonlinear_arith);
}

/// For a family whose factor is `floor(n ^ 1.5)`, the factor for `k * n` items lies
/// between the product of the factors for `k` and for `n` and the product of each plus one.
pub proof fn pacing_scales_three_halves(f: SortFamily, n: int, k: int)
    requires
        n > 0,
        k > 0,
        growth_of(f) is ThreeHalves,
    ensures
        scaling_factor(f, k) * scaling_factor(f, n) <= scaling_factor(f, k * n),
        scaling_factor(f, k * n) < (scaling_factor(f, k) + 1) * (scaling_factor(f, n) + 1),
{
    let a = k * k * k;
    let b = n * n * n;
    let x = (k * n) * (k * n) * (k * n);
    assert(a > 0 && b > 0 && x == a * b) by (nonlinear_arith)
        requires
            n > 0,
            k > 0,
            a == k * k * k,
            b == n * n * n,
            x == (k * n) * (k * n) * (k * n),
    ;
    lemma_sqrt_floor(a);
    lemma_sqrt_floor(b);
    lemma_sqrt_floor(x);
    let qa = sqrt_floor(a);
    let qb = sqrt_floor(b);
    let q = sqrt_floor(x);
    assert((qa * qb) * (qa * qb) <= x) by (nonlinear_arith)
        requires
            0 <= qa,
            0 <= qb,
            qa * qa <= a,
            qb * qb <= b,
            x == a * b,
    ;
    assert(x < ((qa + 1) * (qb + 1)) * ((qa + 1) * (qb + 1))) by (nonlinear_arith)
        requires
            0 <= qa,
            0 <= qb,
            0 <= a < (qa + 1) * (qa + 1),
            0 <= b < (qb + 1) * (qb + 1),
            x == a * b,
    ;
    assert(qa * qb <= q) by (nonlinear_arith)
        requires
            0 <= qa,
            0 <= qb,
            0 <= q,
            (qa * qb) * (qa * qb) <= x,
            x < (q + 1) * (q + 1),
    ;
    assert(q < (qa + 1) * (qb + 1)) by (nonlinear_arith)
        requires
            0 <= qa,
            0 <= qb,
            0 <= q,
            q * q <= x,
            x < ((qa + 1) * (qb + 1)) * ((qa + 1) * (qb + 1)),
    ;
}

} // verus!
