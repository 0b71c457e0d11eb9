use vstd::prelude::*;

verus! {

broadcast use vstd::seq_lib::group_to_multiset_ensures;

/// `s[lo..hi]` is in ascending order.
pub open spec fn sorted_between(s: Seq<usize>, lo: int, hi: int) -> bool {
    forall|i: int, j: int| lo <= i < j < hi ==> s[i] <= s[j]
}

/// The whole of `s` is in ascending order.
pub open spec fn is_ascending(s: Seq<usize>) -> bool {
    sorted_between(s, 0, s.len() as int)
}

/// `s` is `0, 1, ..., s.len() - 1`.
pub open spec fn is_identity(s: Seq<usize>) -> bool {
    forall|i: int| 0 <= i < s.len() ==> s[i] == i
}

/// `s` is `t` with the items at `i` and `j` exchanged.
pub open spec fn swapped(t: Seq<usize>, i: int, j: int) -> Seq<usize> {
    t.update(i, t[j]).update(j, t[i])
}

/// Told of the array after each step of a run: an animation publishes it to its readers
/// and waits there.
pub trait StepSink {
    fn step(&mut self, d: &DataArrWrapper);
}

/// A sink that shows nothing and does not wait: runs go straight to their end.
pub struct Unpaced;

impl StepSink for Unpaced {
    fn step(&mut self, _d: &DataArrWrapper) {
    }
}

/// The array under animation, with what a renderer and a sound source read of it.
pub struct DataArrWrapper {
    pub arr: Vec<usize>,
    pub active: Option<usize>,
    pub active_2: Option<usize>,
    pub pivot: Option<usize>,
    pub should_play_sound: bool,
    pub sorted: bool,
    pub max_val: usize,
}

/// `o` is absent or an index into an array of length `n`.
pub open spec fn index_ok(o: Option<usize>, n: nat) -> bool {
    match o {
        Some(i) => i < n,
        None => true,
    }
}

impl DataArrWrapper {
    /// The highlighted indices all lie inside the array.
    pub open spec fn wf(&self) -> bool {
        &&& index_ok(self.active, self.arr@.len())
        &&& index_ok(self.active_2, self.arr@.len())
        &&& index_ok(self.pivot, self.arr@.len())
    }

    /// No index is highlighted.
    pub open spec fn cleared(&self) -> bool {
        &&& self.active is None
        &&& self.active_2 is None
        &&& self.pivot is None
    }

    /// The highlights and the sound flag are those of `before`.
    pub open spec fn same_marks(&self, before: &DataArrWrapper) -> bool {
        &&& self.active == before.active
        &&& self.active_2 == before.active_2
        &&& self.pivot == before.pivot
        &&& self.should_play_sound == before.should_play_sound
    }

    /// Same length, same scale, and the highlights still inside the array.
    pub open spec fn kept_shape(&self, before: &DataArrWrapper) -> bool {
        &&& self.wf()
        &&& self.arr@.len() == before.arr@.len()
        &&& self.max_val == before.max_val
        &&& self.sorted == before.sorted
    }

    pub fn new(arr: Vec<usize>, max_val: usize) -> (r: Self)
        ensures
            r.arr@ == arr@,
            r.max_val == max_val,
            r.cleared(),
            !r.should_play_sound,
            r.sorted,
            r.wf(),
    {
        DataArrWrapper {
            arr,
            active: None,
            active_2: None,
            pivot: None,
            should_play_sound: false,
            sorted: true,
            max_val,
        }
    }

    /// An array of `0, 1, ..., n - 1`, scaled by `n`.
    pub fn identity(n: usize) -> (r: Self)
        ensures
            r.arr@.len() == n,
            is_identity(r.arr@),
            r.max_val == n,
            r.cleared(),
            !r.should_play_sound,
            r.sorted,
            r.wf(),
    {
        let arr = identity_vec(n);
        Self::new(arr, n)
    }

    pub fn len(&self) -> (r: usize)
        ensures
            r == self.arr@.len(),
    {
        self.arr.len()
    }

    pub fn set_active(&mut self, index: usize)
        requires
            old(self).wf(),
            index < old(self).arr@.len(),
        ensures
            final(self).active == Some(index),
            final(self).should_play_sound,
            final(self).arr@ == old(self).arr@,
            final(self).active_2 == old(self).active_2,
            final(self).pivot == old(self).pivot,
            final(self).kept_shape(old(self)),
    {
        self.active = Some(index);
        self.should_play_sound = true;
    }

    pub fn set_active_2(&mut self, index: usize)
        requires
            old(self).wf(),
            index < old(self).arr@.len(),
        ensures
            final(self).active_2 == Some(index),
            final(self).arr@ == old(self).arr@,
            final(self).active == old(self).active,
            final(self).pivot == old(self).pivot,
            final(self).should_play_sound == old(self).should_play_sound,
            final(self).kept_shape(old(self)),
    {
        self.active_2 = Some(index);
    }

    pub fn set_pivot(&mut self, index: usize)
        requires
            old(self).wf(),
            index < old(self).arr@.len(),
        ensures
            final(self).pivot == Some(index),
            final(self).arr@ == old(self).arr@,
            final(self).active == old(self).active,
            final(self).active_2 == old(self).active_2,
            final(self).should_play_sound == old(self).should_play_sound,
            final(self).kept_shape(old(self)),
    {
        self.pivot = Some(index);
    }

    /// Exchanges the items at `i` and `j`; the multiset of items is kept.
    pub fn swap(&mut self, i: usize, j: usize)
        requires
            old(self).wf(),
            i < old(self).arr@.len(),
            j < old(self).arr@.len(),
        ensures
            final(self).arr@ == swapped(old(self).arr@, i as int, j as int),
            final(self).arr@.to_multiset() == old(self).arr@.to_multiset(),
            final(self).active == old(self).active,
            final(self).active_2 == old(self).active_2,
            final(self).pivot == old(self).pivot,
            final(self).should_play_sound == old(self).should_play_sound,
            final(self).kept_shape(old(self)),
    {
        let a = self.arr[i];
        let b = self.arr[j];
        self.arr.set(i, b);
        self.arr.set(j, a);
        proof {
            lemma_swap_multiset(old(self).arr@, i as int, j as int);
        }
    }

    /// Reverses the order of the items.
    pub fn reverse(&mut self)
        requires
            old(self).wf(),
        ensures
            final(self).arr@ == old(self).arr@.reverse(),
            final(self).active == old(self).active,
            final(self).active_2 == old(self).active_2,
            final(self).pivot == old(self).pivot,
            final(self).should_play_sound == old(self).should_play_sound,
            final(self).kept_shape(old(self)),
    {
        let n = self.arr.len();
        let ghost s0 = self.arr@;
        let mut i: usize = 0;
        while i < n / 2
            invariant
                n == s0.len(),
                i <= n / 2,
                self.arr@.len() == n,
                self.wf(),
                self.active == old(self).active,
                self.active_2 == old(self).active_2,
                self.pivot == old(self).pivot,
                self.should_play_sound == old(self).should_play_sound,
                self.sorted == old(self).sorted,
                self.max_val == old(self).max_val,
                forall|k: int| 0 <= k < i ==> self.arr@[k] == s0[n - 1 - k],
                forall|k: int| 0 <= k < i ==> self.arr@[n - 1 - k] == s0[k],
                forall|k: int| i <= k < n - i ==> self.arr@[k] == s0[k],
            decreases n / 2 - i,
        {
            self.swap(i, n - 1 - i);
            i = i + 1;
        }
        assert(self.arr@ =~= s0.reverse());
    }

    /// Clears the highlights and marks the array as at rest.
    pub fn reset_arr_info(&mut self)
        requires
            old(self).wf(),
        ensures
            final(self).cleared(),
            final(self).sorted,
            final(self).arr@ == old(self).arr@,
            final(self).max_val == old(self).max_val,
            final(self).should_play_sound == old(self).should_play_sound,
            final(self).wf(),
    {
        self.active = None;
        self.active_2 = None;
        self.pivot = None;
        self.sorted = true;
    }

    /// Rewrites the items to `0, 1, ..., n - 1` and clears the highlights.
    pub fn reset(&mut self)
        requires
            old(self).wf(),
        ensures
            final(self).arr@.len() == old(self).arr@.len(),
            is_identity(final(self).arr@),
            final(self).cleared(),
            final(self).sorted,
            final(self).max_val == old(self).max_val,
            final(self).should_play_sound == old(self).should_play_sound,
            final(self).wf(),
    {
        self.reset_arr_info();
        let n = self.arr.len();
        self.arr = identity_vec(n);
    }
}

/// A vector of `0, 1, ..., n - 1`.
pub fn identity_vec(n: usize) -> (r: Vec<usize>)
    ensures
        r@.len() == n,
        is_identity(r@),
{
    let mut v: Vec<usize> = Vec::new();
    let mut i: usize = 0;
    while i < n
        invariant
            i <= n,
            v@.len() == i,
            is_identity(v@),
        decreases n - i,
    {
        v.push(i);
        i = i + 1;
    }
    v
}

/// Exchanging two items keeps the multiset of items.
pub proof fn lemma_swap_multiset(s: Seq<usize>, i: int, j: int)
    requires
        0 <= i < s.len(),
        0 <= j < s.len(),
    ensures
        swapped(s, i, j).to_multiset() == s.to_multiset(),
{
    broadcast use vstd::multiset::group_multiset_axioms;
    broadcast use vstd::seq_lib::to_multiset_update;

    let s1 = s.update(i, s[j]);
    assert(s1[j] == s[j] || i == j);
    if i == j {
        assert(s1 =~= s);
        assert(s1.update(j, s[i]) =~= s);
    } else {
        assert(s1.to_multiset() =~= s.to_multiset().insert(s[j]).remove(s[i]));
        assert(s1.update(j, s[i]).to_multiset() =~= s1.to_multiset().insert(s[i]).remove(s[j]));
        assert(s.to_multiset().insert(s[j]).remove(s[i]).insert(s[i]).remove(s[j]) =~= s.to_multiset());
    }
}

} // verus!
