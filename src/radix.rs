use vstd::prelude::*;

use vstd::arithmetic::div_mod::{lemma_breakdown, lemma_small_mod};
use crate::data::{DataArrWrapper, StepSink, is_ascending};

verus! {

broadcast use {vstd::seq_lib::group_to_multiset_ensures, vstd::multiset::group_multiset_axioms};

/// The digit of `x` that weighs `e` in base `b`.
pub open spec fn digit(x: int, e: int, b: int) -> int {
    (x / e) % b
}

/// `s` is ascending when each item is read modulo `m`.
pub open spec fn sorted_by_mod(s: Seq<usize>, m: int) -> bool {
    forall|i: int, j: int| 0 <= i < j < s.len() ==> (s[i] as int) % m <= (s[j] as int) % m
}

/// A lower digit at weight `e` gives a lower residue modulo `e * b`.
proof fn lemma_lower_digit(y: int, x: int, e: int, b: int)
    requires
        0 <= y,
        0 <= x,
        0 < e,
        0 < b,
        digit(y, e, b) < digit(x, e, b),
    ensures
        y % (e * b) < x % (e * b),
{
    lemma_breakdown(y, e, b);
    lemma_breakdown(x, e, b);
    let dy = digit(y, e, b);
    let dx = digit(x, e, b);
    assert(y % e < e);
    assert(e * dy + e <= e * dx) by (nonlinear_arith)
        requires
            dy < dx,
            0 < e,
    ;
}

/// With equal digits at weight `e`, residues modulo `e * b` order as those modulo `e`.
proof fn lemma_same_digit(y: int, x: int, e: int, b: int)
    requires
        0 <= y,
        0 <= x,
        0 < e,
        0 < b,
        digit(y, e, b) == digit(x, e, b),
        y % e <= x % e,
    ensures
        y % (e * b) <= x % (e * b),
{
    lemma_breakdown(y, e, b);
    lemma_breakdown(x, e, b);
}

/// The largest item of `v`, or 0 when `v` is empty.
pub fn max_value(v: &Vec<usize>) -> (m: usize)
    ensures
        forall|k: int| 0 <= k < v@.len() ==> v@[k] <= m,
        v@.len() == 0 ==> m == 0,
        v@.len() > 0 ==> exists|k: int| 0 <= k < v@.len() && v@[k] == m,
{
    let mut m: usize = 0;
    let mut i: usize = 0;
    while i < v.len()
        invariant
            i <= v@.len(),
            forall|k: int| 0 <= k < i ==> v@[k] <= m,
            i == 0 ==> m == 0,
            i > 0 ==> exists|k: int| 0 <= k < i && v@[k] == m,
        decreases v@.len() - i,
    {
        if v[i] > m || i == 0 {
            m = v[i];
        }
        i = i + 1;
    }
    m
}

/// One stable distribution of `s` by the digit that weighs `e` in base `b`: the items of
/// digit 0 first, then those of digit 1, and so on, each group in its order in `s`.
pub fn distribute(s: &Vec<usize>, e: usize, b: usize) -> (out: Vec<usize>)
    requires
        b >= 2,
        e >= 1,
        sorted_by_mod(s@, e as int),
    ensures
        out@.len() == s@.len(),
        out@.to_multiset() == s@.to_multiset(),
        sorted_by_mod(out@, e * b),
{
    let n = s.len();
    let mut out: Vec<usize> = Vec::new();
    let ghost mut src: Seq<int> = Seq::empty();
    let mut d: usize = 0;
    while d < b
        invariant
            n == s@.len(),
            d <= b,
            b >= 2,
            e >= 1,
            sorted_by_mod(s@, e as int),
            src.len() == out@.len(),
            forall|t: int|
                0 <= t < out@.len() ==> 0 <= #[trigger] src[t] < n && out@[t] == s@[src[t]],
            forall|t: int|
                0 <= t < out@.len() ==> digit(#[trigger] out@[t] as int, e as int, b as int) < d,
            sorted_by_mod(out@, e * b),
            forall|v: usize|
                #[trigger] out@.to_multiset().count(v) == if digit(v as int, e as int, b as int)
                    < d {
                    s@.to_multiset().count(v)
                } else {
                    0
                },
        decreases b - d,
    {
        let mut i: usize = 0;
        while i < n
            invariant
                n == s@.len(),
                d < b,
                b >= 2,
                e >= 1,
                i <= n,
                sorted_by_mod(s@, e as int),
                src.len() == out@.len(),
                forall|t: int|
                    0 <= t < out@.len() ==> 0 <= #[trigger] src[t] < n && out@[t] == s@[src[t]],
                forall|t: int|
                    0 <= t < out@.len() ==> digit(#[trigger] out@[t] as int, e as int, b as int)
                        <= d,
                forall|t: int|
                    0 <= t < out@.len() && digit(#[trigger] out@[t] as int, e as int, b as int)
                        == d ==> src[t] < i,
                sorted_by_mod(out@, e * b),
                forall|v: usize|
                    #[trigger] out@.to_multiset().count(v) == if digit(v as int, e as int, b as int)
                        < d {
                    s@.to_multiset().count(v)
                } else if digit(v as int, e as int, b as int) == d {
                    s@.subrange(0, i as int).to_multiset().count(v)
                } else {
                    0
                },
            decreases n - i,
        {
            let x = s[i];
            assert(s@.subrange(0, i + 1) =~= s@.subrange(0, i as int).push(x));
            if (x / e) % b == d {
                proof {
                    assert forall|t: int| 0 <= t < out@.len() implies
                        (out@[t] as int) % (e * b) <= (x as int) % (e * b) by {
                        let y = out@[t] as int;
                        if digit(y, e as int, b as int) < d {
                            lemma_lower_digit(y, x as int, e as int, b as int);
                        } else {
                            assert(src[t] < i);
                            assert(y % (e as int) <= (x as int) % (e as int));
                            lemma_same_digit(y, x as int, e as int, b as int);
                        }
                    }
                }
                let ghost old_out = out@;
                out.push(x);
                proof {
                    src = src.push(i as int);
                    assert(out@ =~= old_out.push(x));
                }
            }
            i = i + 1;
        }
        assert(s@.subrange(0, n as int) =~= s@);
        d = d + 1;
    }
    proof {
        assert forall|v: usize|
            #[trigger] out@.to_multiset().count(v) == s@.to_multiset().count(v) by {
            assert(digit(v as int, e as int, b as int) < b) by {
                assert(0 <= (v as int / e as int) % (b as int) < b as int);
            }
        }
        assert(out@.to_multiset() =~= s@.to_multiset());
        assert(out@.len() == out@.to_multiset().len());
    }
    out
}

/// Least-significant-digit radix sort in base `base`: one stable distribution per digit
/// of the largest item, each written back one place at a time.
pub fn radix_lsd<P: StepSink>(d: &mut DataArrWrapper, p: &mut P, base: usize)
    requires
        old(d).wf(),
        base >= 2,
    ensures
        is_ascending(final(d).arr@),
        final(d).arr@.to_multiset() == old(d).arr@.to_multiset(),
        final(d).kept_shape(old(d)),
{
    let ghost s0 = d.arr@;
    let n = d.arr.len();
    let max = max_value(&d.arr);
    let mut e: usize = 1;
    let mut done: bool = false;
    let ghost mut m: int = 1;
    while !done && e <= max
        invariant
            n == d.arr@.len(),
            base >= 2,
            e >= 1,
            m >= 1,
            !done ==> m == e,
            done ==> m > max,
            forall|k: int| 0 <= k < n ==> d.arr@[k] <= max,
            sorted_by_mod(d.arr@, m),
            d.arr@.to_multiset() == s0.to_multiset(),
            d.kept_shape(old(d)),
        decreases (if done { 0int } else { 1int }), max - e,
    {
        let out = distribute(&d.arr, e, base);
        let mut i: usize = 0;
        while i < n
            invariant
                n == d.arr@.len(),
                n == out@.len(),
                i <= n,
                forall|k: int| 0 <= k < i ==> d.arr@[k] == out@[k],
                d.kept_shape(old(d)),
            decreases n - i,
        {
            d.arr.set(i, out[i]);
            d.set_active(i);
            p.step(d);
            i = i + 1;
        }
        proof {
            assert(d.arr@ =~= out@);
            assert forall|k: int| 0 <= k < n implies d.arr@[k] <= max by {
                assert(out@.to_multiset().count(out@[k]) > 0);
                assert(s0.contains(out@[k]));
            }
            m = e * base;
        }
        if e > max / base {
            proof {
                assert(e * base > max) by (nonlinear_arith)
                    requires
                        e > max / base,
                        base >= 2,
                ;
            }
            done = true;
        } else {
            proof {
                assert(e * base <= max) by (nonlinear_arith)
                    requires
                        e <= max / base,
                        base >= 2,
                ;
                assert(e * base > e) by (nonlinear_arith)
                    requires
                        e >= 1,
                        base >= 2,
                ;
            }
            e = e * base;
        }
    }
    proof {
        assert forall|k: int| 0 <= k < n implies (d.arr@[k] as int) % m == d.arr@[k] by {
            lemma_small_mod(d.arr@[k] as nat, m as nat);
        }
    }
}

} // verus!
