use vstd::prelude::*;

verus! {

/// How quicksort partitions and recurses.
#[derive(Clone, Copy, Debug, PartialEq, Eq, Structural)]
pub enum QuickSortType {
    Lomuto { multithreaded: bool, insertion_hybrid: bool },
}

/// How merge sort runs its halves.
#[derive(Clone, Copy, Debug, PartialEq, Eq, Structural)]
pub enum MergeSortType {
    InPlace { multithreaded: bool },
}

/// A command for one array.
#[derive(Clone, Copy, Debug, PartialEq, Eq, Structural)]
pub enum SortInstruction {
    Shuffle(u16),
    BubbleSort,
    CocktailShakerSort,
    InsertionSort,
    SelectionSort,
    ShellSort,
    QuickSort(QuickSortType),
    MergeSort(MergeSortType),
    RadixSort(usize),
    Reset,
    Reverse,
    Stop,
}

} // verus!
