use sorting_visualiser::array::{run_task, Algorithm, SortArray, SortTask};
use sorting_visualiser::commands::{MergeSortType, QuickSortType, SortInstruction};
use sorting_visualiser::data::{identity_vec, DataArrWrapper, StepSink, Unpaced};
use sorting_visualiser::pacing::{floor_sqrt, SleepTimes, SortFamily};
use sorting_visualiser::radix::{distribute, max_value, radix_lsd};
use sorting_visualiser::shuffle::{shuffle, shuffle_pass};
use sorting_visualiser::sorts::{
    bubble_sort, cocktail_shaker_sort, insertion_sort, merge_sort_range, quick_sort_range,
    selection_sort, shell_sort,
};

fn times() -> SleepTimes {
    SleepTimes {
        shuffle: 1_000,
        bubble: 2_000_000,
        insertion: 3_000_000,
        selection: 4_000_000,
        cocktail: 5_000_000,
        shell: 800_000,
        quick: 6_000,
        merge: 7_000,
        radix: 8_000,
    }
}

fn zero_times() -> SleepTimes {
    SleepTimes {
        shuffle: 0,
        bubble: 0,
        insertion: 0,
        selection: 0,
        cocktail: 0,
        shell: 0,
        quick: 0,
        merge: 0,
        radix: 0,
    }
}

fn array_of(v: Vec<usize>) -> SortArray {
    let n = v.len();
    let mut a = SortArray::new(n, zero_times());
    a.data = DataArrWrapper::new(v, n);
    a
}

fn sorted_copy(v: &[usize]) -> Vec<usize> {
    let mut w = v.to_vec();
    w.sort();
    w
}

fn scrambled(n: usize) -> Vec<usize> {
    (0..n).map(|i| (i * 7919 + 13) % n).collect()
}

fn all_algorithms() -> Vec<Algorithm> {
    vec![
        Algorithm::Bubble,
        Algorithm::Cocktail,
        Algorithm::Insertion,
        Algorithm::Selection,
        Algorithm::Shell,
        Algorithm::Quick { multithreaded: false, insertion_hybrid: false },
        Algorithm::Quick { multithreaded: false, insertion_hybrid: true },
        Algorithm::Quick { multithreaded: true, insertion_hybrid: false },
        Algorithm::Quick { multithreaded: true, insertion_hybrid: true },
        Algorithm::Merge { multithreaded: false },
        Algorithm::Merge { multithreaded: true },
        Algorithm::Radix(2),
        Algorithm::Radix(10),
    ]
}

#[test]
fn insertion_sort_descending_five() {
    let mut a = array_of(vec![4, 3, 2, 1, 0]);
    let task = a.instruction(SortInstruction::InsertionSort).expect("a run starts");
    assert!(!a.data.sorted);
    assert_eq!(task.algorithm, Algorithm::Insertion);
    assert_eq!(task.step_nanos, 0);
    run_task(&mut a.data, &mut Unpaced, &task);
    assert_eq!(a.data.arr, vec![0, 1, 2, 3, 4]);
    assert!(a.data.sorted);
    assert_eq!(a.data.active, None);
    assert_eq!(a.data.active_2, None);
    assert_eq!(a.data.pivot, None);
}

#[test]
fn radix_base_ten_example() {
    let mut d = DataArrWrapper::new(vec![170, 45, 75, 90, 2, 802, 24, 66], 8);
    radix_lsd(&mut d, &mut Unpaced, 10);
    assert_eq!(d.arr, vec![2, 24, 45, 66, 75, 90, 170, 802]);
}

#[test]
fn radix_through_dispatcher_matches_comparison_sort() {
    for base in [2usize, 3, 10, 16, 1000] {
        let v = scrambled(97);
        let mut a = array_of(v.clone());
        let task = a.instruction(SortInstruction::RadixSort(base)).unwrap();
        run_task(&mut a.data, &mut Unpaced, &task);
        let mut b = array_of(v.clone());
        let task = b.instruction(SortInstruction::SelectionSort).unwrap();
        run_task(&mut b.data, &mut Unpaced, &task);
        assert_eq!(a.data.arr, b.data.arr);
        assert_eq!(a.data.arr, sorted_copy(&v));
    }
}

#[test]
fn radix_base_below_two_starts_nothing() {
    let mut a = array_of(vec![2, 0, 1]);
    assert_eq!(a.instruction(SortInstruction::RadixSort(1)), None);
    assert_eq!(a.instruction(SortInstruction::RadixSort(0)), None);
    assert_eq!(a.data.arr, vec![2, 0, 1]);
    assert!(a.data.sorted);
}

#[test]
fn shuffle_keeps_a_permutation() {
    let mut a = SortArray::new(10, zero_times());
    let task = a.instruction(SortInstruction::Shuffle(3)).unwrap();
    run_task(&mut a.data, &mut Unpaced, &task);
    assert_eq!(sorted_copy(&a.data.arr), (0..10).collect::<Vec<usize>>());
    assert!(a.data.sorted);
}

#[test]
fn shuffle_direct_keeps_items() {
    let mut d = DataArrWrapper::new(vec![5, 5, 1, 9, 0], 10);
    shuffle(&mut d, &mut Unpaced, 4);
    assert_eq!(sorted_copy(&d.arr), vec![0, 1, 5, 5, 9]);
    assert!(d.should_play_sound);
}

#[test]
fn shuffle_pass_with_given_picks() {
    let mut d = DataArrWrapper::new(vec![0, 1, 2, 3], 4);
    shuffle_pass(&mut d, &mut Unpaced, &vec![3, 3, 0, 1]);
    // [3,1,2,0] -> [3,0,2,1] -> [2,0,3,1] -> [2,1,3,0]
    assert_eq!(d.arr, vec![2, 1, 3, 0]);
    assert_eq!(d.active, Some(3));
}

#[test]
fn quick_sort_threaded_and_not_agree_on_thousand_descending() {
    let v: Vec<usize> = (0..1000).rev().collect();
    let mut results = Vec::new();
    for (mt, hybrid) in [(true, false), (false, false), (true, true), (false, true)] {
        let mut a = array_of(v.clone());
        let kind = QuickSortType::Lomuto { multithreaded: mt, insertion_hybrid: hybrid };
        let task = a.instruction(SortInstruction::QuickSort(kind)).unwrap();
        run_task(&mut a.data, &mut Unpaced, &task);
        results.push(a.data.arr.clone());
    }
    let expected: Vec<usize> = (0..1000).collect();
    for r in results {
        assert_eq!(r, expected);
    }
}

#[test]
fn merge_sort_flags_agree() {
    let v = scrambled(257);
    let mut outs = Vec::new();
    for mt in [true, false] {
        let mut a = array_of(v.clone());
        let kind = MergeSortType::InPlace { multithreaded: mt };
        let task = a.instruction(SortInstruction::MergeSort(kind)).unwrap();
        run_task(&mut a.data, &mut Unpaced, &task);
        outs.push(a.data.arr.clone());
    }
    assert_eq!(outs[0], outs[1]);
    assert_eq!(outs[0], sorted_copy(&v));
}

#[test]
fn stop_marks_sorted_but_run_goes_on() {
    let v = vec![3, 1, 4, 0, 2];
    let mut a = array_of(v.clone());
    let task = a.instruction(SortInstruction::BubbleSort).unwrap();
    assert!(!a.data.sorted);
    assert_eq!(a.instruction(SortInstruction::Stop), None);
    assert!(a.data.sorted);
    assert_eq!(a.data.arr, v);
    // The run is not halted by the stop: it still changes the items.
    run_task(&mut a.data, &mut Unpaced, &task);
    assert_eq!(a.data.arr, vec![0, 1, 2, 3, 4]);
}

#[test]
fn every_algorithm_sorts_and_clears() {
    for n in [0usize, 1, 2, 3, 17, 64] {
        for alg in all_algorithms() {
            let v = scrambled(n);
            let mut d = DataArrWrapper::new(v.clone(), n);
            if n > 0 {
                d.set_active(n - 1);
            }
            run_task(&mut d, &mut Unpaced, &SortTask { algorithm: alg, step_nanos: 0 });
            assert_eq!(d.arr, sorted_copy(&v), "{:?} on {}", alg, n);
            assert!(d.sorted);
            assert_eq!(d.active, None);
            assert_eq!(d.active_2, None);
            assert_eq!(d.pivot, None);
        }
    }
}

#[test]
fn sorts_with_duplicates() {
    let v = vec![5, 3, 5, 1, 3, 3, 0, 9, 1];
    let expected = sorted_copy(&v);
    let mut d = DataArrWrapper::new(v.clone(), 10);
    bubble_sort(&mut d, &mut Unpaced);
    assert_eq!(d.arr, expected);
    let mut d = DataArrWrapper::new(v.clone(), 10);
    cocktail_shaker_sort(&mut d, &mut Unpaced);
    assert_eq!(d.arr, expected);
    let mut d = DataArrWrapper::new(v.clone(), 10);
    selection_sort(&mut d, &mut Unpaced);
    assert_eq!(d.arr, expected);
    let mut d = DataArrWrapper::new(v.clone(), 10);
    shell_sort(&mut d, &mut Unpaced);
    assert_eq!(d.arr, expected);
    let mut d = DataArrWrapper::new(v.clone(), 10);
    quick_sort_range(&mut d, &mut Unpaced, 0, 8, false);
    assert_eq!(d.arr, expected);
    let mut d = DataArrWrapper::new(v.clone(), 10);
    merge_sort_range(&mut d, &mut Unpaced, 0, 8);
    assert_eq!(d.arr, expected);
}

#[test]
fn range_sorts_leave_the_rest() {
    let v = vec![9, 8, 7, 6, 5, 4, 3, 2, 1, 0];
    let mut d = DataArrWrapper::new(v.clone(), 10);
    insertion_sort(&mut d, &mut Unpaced, 2, 6);
    assert_eq!(d.arr, vec![9, 8, 3, 4, 5, 6, 7, 2, 1, 0]);
    let mut d = DataArrWrapper::new(v.clone(), 10);
    quick_sort_range(&mut d, &mut Unpaced, 1, 8, true);
    assert_eq!(d.arr, vec![9, 1, 2, 3, 4, 5, 6, 7, 8, 0]);
    let mut d = DataArrWrapper::new(v, 10);
    merge_sort_range(&mut d, &mut Unpaced, 0, 4);
    assert_eq!(d.arr, vec![5, 6, 7, 8, 9, 4, 3, 2, 1, 0]);
}

#[test]
fn reverse_twice_restores() {
    let v = vec![3, 0, 4, 1, 2];
    let mut a = array_of(v.clone());
    assert_eq!(a.instruction(SortInstruction::Reverse), None);
    assert_eq!(a.data.arr, vec![2, 1, 4, 0, 3]);
    assert!(!a.data.sorted);
    a.instruction(SortInstruction::Reverse);
    assert_eq!(a.data.arr, v);
}

#[test]
fn reset_from_any_state() {
    let mut a = array_of(vec![4, 2, 0, 3, 1]);
    a.data.set_active(1);
    a.data.set_active_2(2);
    a.data.set_pivot(3);
    a.data.sorted = false;
    assert_eq!(a.instruction(SortInstruction::Reset), None);
    assert_eq!(a.data.arr, vec![0, 1, 2, 3, 4]);
    assert!(a.data.sorted);
    assert_eq!(a.data.active, None);
    assert_eq!(a.data.active_2, None);
    assert_eq!(a.data.pivot, None);
    a.reset();
    assert_eq!(a.data.arr, vec![0, 1, 2, 3, 4]);
}

#[test]
fn new_array_is_identity_at_rest() {
    let a = SortArray::new(6, times());
    assert_eq!(a.len(), 6);
    assert_eq!(a.data.arr, vec![0, 1, 2, 3, 4, 5]);
    assert_eq!(a.data.max_val, 6);
    assert!(a.data.sorted);
    assert_eq!(identity_vec(3), vec![0, 1, 2]);
}

#[test]
fn empty_array_starts_nothing() {
    let mut a = SortArray::new(0, times());
    assert_eq!(a.instruction(SortInstruction::BubbleSort), None);
    assert!(a.data.sorted);
}

#[test]
fn setters_mark_indices() {
    let mut d = DataArrWrapper::new(vec![0, 1, 2], 3);
    assert!(!d.should_play_sound);
    d.set_active_2(1);
    assert!(!d.should_play_sound);
    d.set_pivot(0);
    assert!(!d.should_play_sound);
    d.set_active(2);
    assert!(d.should_play_sound);
    assert_eq!((d.active, d.active_2, d.pivot), (Some(2), Some(1), Some(0)));
    d.swap(0, 2);
    assert_eq!(d.arr, vec![2, 1, 0]);
}

#[test]
fn pacing_per_family() {
    let t = times();
    assert_eq!(t.step_nanos(SortFamily::Bubble, 10), 20_000);
    assert_eq!(t.step_nanos(SortFamily::Insertion, 10), 30_000);
    assert_eq!(t.step_nanos(SortFamily::Selection, 20), 10_000);
    assert_eq!(t.step_nanos(SortFamily::Cocktail, 100), 500);
    assert_eq!(t.step_nanos(SortFamily::Shell, 4), 100_000);
    assert_eq!(t.step_nanos(SortFamily::Shell, 10), 25_806);
    assert_eq!(t.step_nanos(SortFamily::Quick, 10), 600);
    assert_eq!(t.step_nanos(SortFamily::Merge, 7), 1_000);
    assert_eq!(t.step_nanos(SortFamily::Radix, 8), 1_000);
    assert_eq!(t.step_nanos(SortFamily::Shuffle, 10), 100);
    assert_eq!(t.step_nanos(SortFamily::Shell, usize::MAX), 0);
}

#[test]
fn pacing_scales_with_length() {
    let t = times();
    let n = 10usize;
    let k = 4usize;
    assert_eq!(t.step_nanos(SortFamily::Quick, k * n), t.step_nanos(SortFamily::Quick, n) / 4);
    assert_eq!(t.step_nanos(SortFamily::Bubble, k * n), t.step_nanos(SortFamily::Bubble, n) / 16);
    let shell_ratio = t.step_nanos(SortFamily::Shell, n) as f64
        / t.step_nanos(SortFamily::Shell, k * n) as f64;
    assert!((shell_ratio - 8.0).abs() < 0.2);
}

#[test]
fn task_carries_pacing() {
    let mut a = SortArray::new(10, times());
    let task = a.instruction(SortInstruction::CocktailShakerSort).unwrap();
    assert_eq!(task, SortTask { algorithm: Algorithm::Cocktail, step_nanos: 50_000 });
}

#[test]
fn integer_square_root() {
    assert_eq!(floor_sqrt(0), 0);
    assert_eq!(floor_sqrt(1), 1);
    assert_eq!(floor_sqrt(8), 2);
    assert_eq!(floor_sqrt(9), 3);
    assert_eq!(floor_sqrt(1000), 31);
    assert_eq!(floor_sqrt(u128::MAX), u64::MAX as u128);
}

#[test]
fn radix_pass_and_max() {
    assert_eq!(max_value(&vec![]), 0);
    assert_eq!(max_value(&vec![3, 9, 2]), 9);
    assert_eq!(distribute(&vec![21, 13, 30, 2], 1, 10), vec![30, 21, 2, 13]);
}

struct Recorder {
    snapshots: Vec<Vec<usize>>,
    sounds: usize,
}

impl StepSink for Recorder {
    fn step(&mut self, d: &DataArrWrapper) {
        self.snapshots.push(d.arr.clone());
        if d.should_play_sound {
            self.sounds += 1;
        }
    }
}

#[test]
fn each_step_is_reported_and_keeps_items() {
    let v = scrambled(12);
    let mut d = DataArrWrapper::new(v.clone(), 12);
    let mut rec = Recorder { snapshots: Vec::new(), sounds: 0 };
    let task = SortTask {
        algorithm: Algorithm::Quick { multithreaded: false, insertion_hybrid: false },
        step_nanos: 0,
    };
    run_task(&mut d, &mut rec, &task);
    assert!(rec.snapshots.len() > 12);
    assert!(rec.sounds > 0);
    for snap in &rec.snapshots {
        assert_eq!(sorted_copy(snap), sorted_copy(&v));
    }
    assert_eq!(rec.snapshots.last().unwrap(), &sorted_copy(&v));
}

fn is_permutation_of_range(v: &[usize]) -> bool {
    sorted_copy(v) == (0..v.len()).collect::<Vec<usize>>()
}

#[test]
fn permutation_survives_instruction_sequence() {
    let mut a = SortArray::new(33, zero_times());
    let steps = vec![
        SortInstruction::Shuffle(2),
        SortInstruction::Reverse,
        SortInstruction::ShellSort,
        SortInstruction::Shuffle(1),
        SortInstruction::RadixSort(4),
        SortInstruction::Reverse,
        SortInstruction::MergeSort(MergeSortType::InPlace { multithreaded: true }),
        SortInstruction::Reset,
        SortInstruction::Shuffle(5),
    ];
    for step in steps {
        if let Some(task) = a.instruction(step) {
            run_task(&mut a.data, &mut Unpaced, &task);
        }
        assert!(is_permutation_of_range(&a.data.arr), "{:?}", step);
    }
}

#[test]
fn sort_on_empty_array_marks_sorted() {
    let mut a = SortArray::new(0, times());
    a.instruction(SortInstruction::Reverse);
    assert!(!a.data.sorted);
    assert_eq!(a.instruction(SortInstruction::InsertionSort), None);
    assert!(a.data.sorted);
    assert_eq!(a.len(), 0);
}

#[test]
fn stop_and_reverse_keep_highlights() {
    let mut a = array_of(vec![2, 0, 1]);
    a.data.set_active(1);
    a.data.set_active_2(2);
    a.data.set_pivot(0);
    a.instruction(SortInstruction::Stop);
    assert_eq!((a.data.active, a.data.active_2, a.data.pivot), (Some(1), Some(2), Some(0)));
    assert!(a.data.should_play_sound);
    a.instruction(SortInstruction::Reverse);
    assert_eq!(a.data.arr, vec![1, 0, 2]);
    assert_eq!((a.data.active, a.data.active_2, a.data.pivot), (Some(1), Some(2), Some(0)));
    assert!(a.data.should_play_sound);
}

#[test]
fn reset_twice_is_the_same() {
    let mut a = array_of(vec![2, 0, 1]);
    a.data.set_active(2);
    a.reset();
    let first = (a.data.arr.clone(), a.data.active, a.data.sorted, a.data.should_play_sound);
    a.reset();
    let second = (a.data.arr.clone(), a.data.active, a.data.sorted, a.data.should_play_sound);
    assert_eq!(first, second);
    assert!(a.data.should_play_sound);
}

#[test]
fn shuffle_marks_last_index() {
    let mut d = DataArrWrapper::new(vec![0, 1, 2, 3, 4], 5);
    d.set_active_2(1);
    d.set_pivot(2);
    shuffle(&mut d, &mut Unpaced, 2);
    assert_eq!(d.active, Some(4));
    assert_eq!((d.active_2, d.pivot), (Some(1), Some(2)));
    assert!(d.should_play_sound);
    let mut e = DataArrWrapper::new(vec![3, 1], 4);
    shuffle(&mut e, &mut Unpaced, 0);
    assert_eq!(e.arr, vec![3, 1]);
    assert_eq!(e.active, None);
    assert!(!e.should_play_sound);
}

#[test]
fn len_is_scale() {
    let a = SortArray::new(9, times());
    assert_eq!(a.len(), a.data.max_val);
    assert_eq!(a.len(), 9);
}
