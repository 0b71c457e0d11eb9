use vstd::prelude::*;

use crate::data::{DataArrWrapper, StepSink, swapped};

verus! {

broadcast use vstd::seq_lib::group_to_multiset_ensures;

/// Relies on nannou::rand::random_range: for `0 < max`, a value in `[0, max)` drawn from
/// the thread-local generator.
#[verifier::external_body]
fn random_index(max: usize) -> (r: usize)
    requires
        max > 0,
    ensures
        r < max,
{
    nannou::rand::random_range(0usize, max)
}

/// `s` after its first `k` steps of a pass: step `i` exchanges the items at `i` and `picks[i]`.
pub open spec fn apply_pass(s: Seq<usize>, picks: Seq<usize>, k: int) -> Seq<usize>
    decreases k,
{
    if k <= 0 {
        s
    } else {
        swapped(apply_pass(s, picks, k - 1), k - 1, picks[k - 1] as int)
    }
}

/// One pass of a Fisher-Yates style shuffle with the random picks given: item `i` is
/// exchanged with item `picks[i]`, for each `i` in turn.
pub fn shuffle_pass<P: StepSink>(d: &mut DataArrWrapper, p: &mut P, picks: &Vec<usize>)
    requires
        old(d).wf(),
        picks@.len() == old(d).arr@.len(),
        forall|i: int| 0 <= i < picks@.len() ==> #[trigger] picks@[i] < old(d).arr@.len(),
    ensures
        final(d).arr@ == apply_pass(old(d).arr@, picks@, picks@.len() as int),
        final(d).arr@.to_multiset() == old(d).arr@.to_multiset(),
        final(d).kept_shape(old(d)),
        final(d).active_2 == old(d).active_2,
        final(d).pivot == old(d).pivot,
        old(d).arr@.len() > 0 ==> {
            &&& final(d).active == Some((old(d).arr@.len() - 1) as usize)
            &&& final(d).should_play_sound
        },
        old(d).arr@.len() == 0 ==> final(d).same_marks(old(d)),
{
    let ghost s0 = d.arr@;
    let n = d.arr.len();
    let mut i: usize = 0;
    while i < n
        invariant
            n == d.arr@.len(),
            n == picks@.len(),
            i <= n,
            forall|k: int| 0 <= k < picks@.len() ==> #[trigger] picks@[k] < n,
            d.arr@ == apply_pass(s0, picks@, i as int),
            d.arr@.to_multiset() == s0.to_multiset(),
            d.kept_shape(old(d)),
            d.active_2 == old(d).active_2,
            d.pivot == old(d).pivot,
            i > 0 ==> d.active == Some((i - 1) as usize) && d.should_play_sound,
            i == 0 ==> d.same_marks(old(d)),
        decreases n - i,
    {
        d.swap(i, picks[i]);
        d.set_active(i);
        p.step(d);
        i = i + 1;
    }
}

/// `rounds` passes of a randomised shuffle; the items stay the same multiset. Each pass
/// ends with the last item highlighted and the sound flag raised.
pub fn shuffle<P: StepSink>(d: &mut DataArrWrapper, p: &mut P, rounds: u16)
    requires
        old(d).wf(),
    ensures
        final(d).arr@.to_multiset() == old(d).arr@.to_multiset(),
        final(d).kept_shape(old(d)),
        final(d).active_2 == old(d).active_2,
        final(d).pivot == old(d).pivot,
        rounds > 0 && old(d).arr@.len() > 0 ==> {
            &&& final(d).active == Some((old(d).arr@.len() - 1) as usize)
            &&& final(d).should_play_sound
        },
        rounds == 0 || old(d).arr@.len() == 0 ==> final(d).same_marks(old(d)),
{
    let n = d.arr.len();
    let mut r: u16 = 0;
    while r < rounds
        invariant
            n == d.arr@.len(),
            r <= rounds,
            d.arr@.to_multiset() == old(d).arr@.to_multiset(),
            d.kept_shape(old(d)),
            d.active_2 == old(d).active_2,
            d.pivot == old(d).pivot,
            r > 0 && n > 0 ==> d.active == Some((n - 1) as usize) && d.should_play_sound,
            r == 0 || n == 0 ==> d.same_marks(old(d)),
        decreases rounds - r,
    {
        let mut picks: Vec<usize> = Vec::new();
        let mut i: usize = 0;
        while i < n
            invariant
                i <= n,
                picks@.len() == i,
                forall|k: int| 0 <= k < picks@.len() ==> #[trigger] picks@[k] < n,
            decreases n - i,
        {
            picks.push(random_index(n));
            i = i + 1;
        }
        shuffle_pass(d, p, &picks);
        r = r + 1;
    }
}

} // verus!
