use vstd::prelude::*;

use crate::commands::{MergeSortType, QuickSortType, SortInstruction};
use crate::data::{DataArrWrapper, StepSink, is_ascending, is_identity};
use crate::pacing::{SleepTimes, SortFamily};
use crate::radix::radix_lsd;
use crate::shuffle::shuffle;
use crate::sorts::{
    bubble_sort, cocktail_shaker_sort, insertion_sort, merge_sort_range, quick_sort_range,
    selection_sort, shell_sort,
};
use crate::perm::lemma_perm_on_multiset;

verus! {

/// The algorithm that a background run carries out.
#[derive(Clone, Copy, Debug, PartialEq, Eq, Structural)]
pub enum Algorithm {
    Shuffle(u16),
    Bubble,
    Cocktail,
    Insertion,
    Selection,
    Shell,
    Quick { multithreaded: bool, insertion_hybrid: bool },
    Merge { multithreaded: bool },
    Radix(usize),
}

/// A run to start in the background: what to do, and the pause after each step.
#[derive(Clone, Copy, Debug, PartialEq, Eq, Structural)]
pub struct SortTask {
    pub algorithm: Algorithm,
    pub step_nanos: u64,
}

/// The family whose base duration paces an algorithm.
pub open spec fn family_of(a: Algorithm) -> SortFamily {
    match a {
        Algorithm::Shuffle(_) => SortFamily::Shuffle,
        Algorithm::Bubble => SortFamily::Bubble,
        Algorithm::Cocktail => SortFamily::Cocktail,
        Algorithm::Insertion => SortFamily::Insertion,
        Algorithm::Selection => SortFamily::Selection,
        Algorithm::Shell => SortFamily::Shell,
        Algorithm::Quick { .. } => SortFamily::Quick,
        Algorithm::Merge { .. } => SortFamily::Merge,
        Algorithm::Radix(_) => SortFamily::Radix,
    }
}

/// The algorithm that an instruction starts, if it starts one.
pub open spec fn algorithm_of(i: SortInstruction) -> Option<Algorithm> {
    match i {
        SortInstruction::Shuffle(rounds) => Some(Algorithm::Shuffle(rounds)),
        SortInstruction::BubbleSort => Some(Algorithm::Bubble),
        SortInstruction::CocktailShakerSort => Some(Algorithm::Cocktail),
        SortInstruction::InsertionSort => Some(Algorithm::Insertion),
        SortInstruction::SelectionSort => Some(Algorithm::Selection),
        SortInstruction::ShellSort => Some(Algorithm::Shell),
        SortInstruction::QuickSort(QuickSortType::Lomuto { multithreaded, insertion_hybrid }) =>
            Some(Algorithm::Quick { multithreaded, insertion_hybrid }),
        SortInstruction::MergeSort(MergeSortType::InPlace { multithreaded }) =>
            Some(Algorithm::Merge { multithreaded }),
        SortInstruction::RadixSort(base) => Some(Algorithm::Radix(base)),
        _ => None,
    }
}

/// An algorithm that can run: a radix sort needs a base of at least 2.
pub open spec fn runnable(a: Algorithm) -> bool {
    match a {
        Algorithm::Radix(base) => base >= 2,
        _ => true,
    }
}

/// The items are `0, ..., n - 1` in some order.
pub open spec fn is_permutation(s: Seq<usize>) -> bool {
    s.to_multiset() == Seq::new(s.len(), |i: int| i as usize).to_multiset()
}

/// One array and the base durations that pace its runs. Whoever starts a returned run
/// holds it: the array keeps no handle to it.
pub struct SortArray {
    pub data: DataArrWrapper,
    pub sleep_times: SleepTimes,
}

impl SortArray {
    pub open spec fn sleep_times_spec(&self) -> SleepTimes {
        self.sleep_times
    }

    /// The highlights lie inside the array, and its scale is its length.
    pub open spec fn inv(&self) -> bool {
        &&& self.data.wf()
        &&& self.data.max_val == self.data.arr@.len()
    }

    /// An array of `0, ..., num_of_lines - 1`, at rest.
    pub fn new(num_of_lines: usize, sleep_times: SleepTimes) -> (r: SortArray)
        ensures
            r.data.arr@.len() == num_of_lines,
            is_identity(r.data.arr@),
            r.data.max_val == num_of_lines,
            r.data.cleared(),
            r.data.sorted,
            !r.data.should_play_sound,
            r.data.wf(),
            r.sleep_times_spec() == sleep_times,
            r.inv(),
    {
        SortArray { data: DataArrWrapper::identity(num_of_lines), sleep_times }
    }

    /// The number of items, which is also the scale.
    pub fn len(&self) -> (r: usize)
        requires
            self.inv(),
        ensures
            r == self.data.arr@.len(),
            r == self.data.max_val,
    {
        self.data.len()
    }

    /// Rewrites the items to `0, ..., n - 1`, clears the highlights and marks the array at rest.
    pub fn reset(&mut self)
        requires
            old(self).inv(),
        ensures
            final(self).data.arr@.len() == old(self).data.arr@.len(),
            is_identity(final(self).data.arr@),
            final(self).data.cleared(),
            final(self).data.sorted,
            final(self).data.max_val == old(self).data.max_val,
            final(self).data.should_play_sound == old(self).data.should_play_sound,
            final(self).inv(),
            final(self).sleep_times_spec() == old(self).sleep_times_spec(),
    {
        self.data.reset();
    }

    /// Acts on an instruction. `Reset`, `Reverse` and `Stop` act at once and start nothing.
    /// An instruction that starts an algorithm marks the array as not sorted and returns
    /// the run, paced for the array's length. On an empty array there is nothing to do: it
    /// starts nothing and the array is marked sorted. For a radix base under 2 it changes
    /// nothing and starts nothing. A run still going is not stopped: nothing here can
    /// reach it.
    pub fn instruction(&mut self, instruction: SortInstruction) -> (r: Option<SortTask>)
        requires
            old(self).inv(),
        ensures
            final(self).inv(),
            final(self).data.arr@.len() == old(self).data.arr@.len(),
            final(self).data.max_val == old(self).data.max_val,
            final(self).sleep_times_spec() == old(self).sleep_times_spec(),
            instruction is Reset ==> {
                &&& is_identity(final(self).data.arr@)
                &&& final(self).data.cleared()
                &&& final(self).data.sorted
                &&& final(self).data.should_play_sound == old(self).data.should_play_sound
                &&& r is None
            },
            instruction is Reverse ==> {
                &&& final(self).data.arr@ == old(self).data.arr@.reverse()
                &&& !final(self).data.sorted
                &&& final(self).data.same_marks(&old(self).data)
                &&& r is None
            },
            instruction is Stop ==> {
                &&& final(self).data.arr@ == old(self).data.arr@
                &&& final(self).data.sorted
                &&& final(self).data.same_marks(&old(self).data)
                &&& r is None
            },
            algorithm_of(instruction) is Some ==> {
                let a = algorithm_of(instruction)->Some_0;
                let n = old(self).data.arr@.len();
                &&& final(self).data.arr@ == old(self).data.arr@
                &&& final(self).data.same_marks(&old(self).data)
                &&& if n == 0 {
                    &&& r is None
                    &&& final(self).data.sorted
                } else if runnable(a) {
                    &&& r is Some
                    &&& r->Some_0.algorithm == a
                    &&& r->Some_0.step_nanos == old(self).sleep_times_spec().step_spec(
                        family_of(a),
                        n as int,
                    )
                    &&& !final(self).data.sorted
                } else {
                    &&& r is None
                    &&& final(self).data.sorted == old(self).data.sorted
                }
            },
    {
        let n = self.data.len();
        let alg = match instruction {
            SortInstruction::Shuffle(rounds) => Algorithm::Shuffle(rounds),
            SortInstruction::BubbleSort => Algorithm::Bubble,
            SortInstruction::CocktailShakerSort => Algorithm::Cocktail,
            SortInstruction::InsertionSort => Algorithm::Insertion,
            SortInstruction::SelectionSort => Algorithm::Selection,
            SortInstruction::ShellSort => Algorithm::Shell,
            SortInstruction::QuickSort(QuickSortType::Lomuto { multithreaded, insertion_hybrid }) =>
                Algorithm::Quick { multithreaded, insertion_hybrid },
            SortInstruction::MergeSort(MergeSortType::InPlace { multithreaded }) =>
                Algorithm::Merge { multithreaded },
            SortInstruction::RadixSort(base) => Algorithm::Radix(base),
            SortInstruction::Reset => {
                self.reset();
                return None;
            },
            SortInstruction::Reverse => {
                self.data.sorted = false;
                self.data.reverse();
                return None;
            },
            SortInstruction::Stop => {
                self.data.sorted = true;
                return None;
            },
        };
        let ok = match alg {
            Algorithm::Radix(base) => base >= 2,
            _ => true,
        };
        if n == 0 {
            self.data.sorted = true;
            return None;
        }
        if !ok {
            return None;
        }
        let step_nanos = self.sleep_times.step_nanos(family(alg), n);
        self.data.sorted = false;
        Some(SortTask { algorithm: alg, step_nanos })
    }
}

/// The family whose base duration paces an algorithm.
pub fn family(a: Algorithm) -> (f: SortFamily)
    ensures
        f == family_of(a),
{
    match a {
        Algorithm::Shuffle(_) => SortFamily::Shuffle,
        Algorithm::Bubble => SortFamily::Bubble,
        Algorithm::Cocktail => SortFamily::Cocktail,
        Algorithm::Insertion => SortFamily::Insertion,
        Algorithm::Selection => SortFamily::Selection,
        Algorithm::Shell => SortFamily::Shell,
        Algorithm::Quick { .. } => SortFamily::Quick,
        Algorithm::Merge { .. } => SortFamily::Merge,
        Algorithm::Radix(_) => SortFamily::Radix,
    }
}

/// Carries out a run to its end, then the completion hook: highlights cleared and the
/// array marked sorted. The items stay the same multiset; every algorithm but the
/// shuffle leaves them in ascending order.
pub fn run_task<P: StepSink>(d: &mut DataArrWrapper, p: &mut P, task: &SortTask)
    requires
        old(d).wf(),
        runnable(task.algorithm),
    ensures
        final(d).arr@.to_multiset() == old(d).arr@.to_multiset(),
        !(task.algorithm is Shuffle) ==> is_ascending(final(d).arr@),
        final(d).arr@.len() == old(d).arr@.len(),
        final(d).max_val == old(d).max_val,
        final(d).cleared(),
        final(d).sorted,
        final(d).wf(),
{
    let n = d.len();
    match task.algorithm {
        Algorithm::Shuffle(rounds) => shuffle(d, p, rounds),
        Algorithm::Bubble => bubble_sort(d, p),
        Algorithm::Cocktail => cocktail_shaker_sort(d, p),
        Algorithm::Selection => selection_sort(d, p),
        Algorithm::Shell => shell_sort(d, p),
        Algorithm::Radix(base) => radix_lsd(d, p, base),
        Algorithm::Insertion => {
            if n > 0 {
                insertion_sort(d, p, 0, n - 1);
                proof { lemma_perm_on_multiset(d.arr@, old(d).arr@, 0, n as int); }
            }
        },
        Algorithm::Quick { multithreaded: _, insertion_hybrid } => {
            if n > 0 {
                quick_sort_range(d, p, 0, n - 1, insertion_hybrid);
                proof { lemma_perm_on_multiset(d.arr@, old(d).arr@, 0, n as int); }
            }
        },
        Algorithm::Merge { multithreaded: _ } => {
            if n > 0 {
                merge_sort_range(d, p, 0, n - 1);
                proof { lemma_perm_on_multiset(d.arr@, old(d).arr@, 0, n as int); }
            }
        },
    }
    d.reset_arr_info();
}

} // verus!
