use sortlist::bubble::bubble_sort;
use sortlist::merge_sort::merge;
use sortlist::merge_sort::merge_sort;

#[test]
fn bubble_sorts_sample() {
    let mut nums: Vec<i32> = vec![8, 2, 1, 0, 9, 3, 8, 0, 1, 2, 8, 3];
    bubble_sort(&mut nums);
    assert_eq!(nums, vec![0, 0, 1, 1, 2, 2, 3, 3, 8, 8, 8, 9]);
}

#[test]
fn merge_sorts_sample() {
    let mut nums: Vec<i32> = vec![2, 8, 1, 0, 5, 3];
    merge_sort(&mut nums);
    assert_eq!(nums, vec![0, 1, 2, 3, 5, 8]);
}

#[test]
fn two_pointer_quick_sorts_reversed_sample() {
    let mut nums: Vec<i32> = vec![0, 9, 8, 7, 6, 5, 4, 3, 2, 1];
    sortlist::quick_two_pointer::quick_sort(&mut nums);
    assert_eq!(nums, vec![0, 1, 2, 3, 4, 5, 6, 7, 8, 9]);
}

#[test]
fn two_pointer_quick_sorts_mixed_sample() {
    let mut nums: Vec<i32> = vec![7, 49, 73, 58, 30, 72, 44, 78, 23, 9];
    sortlist::quick_two_pointer::quick_sort(&mut nums);
    assert_eq!(nums, vec![7, 9, 23, 30, 44, 49, 58, 72, 73, 78]);
}

#[test]
fn filter_quick_sorts_sample() {
    let mut nums: Vec<i32> = vec![8, 2, 1, 0, 9, 3, 8, 0, 1, 2, 8, 3];
    sortlist::quick_filter::quick_sort(&mut nums);
    assert_eq!(nums, vec![0, 0, 1, 1, 2, 2, 3, 3, 8, 8, 8, 9]);
}

#[test]
fn merge_interleaves_sorted_inputs() {
    let a: Vec<i32> = vec![1, 3, 5];
    let b: Vec<i32> = vec![2, 3];
    assert_eq!(merge(&a, &b), vec![1, 2, 3, 3, 5]);
}

#[test]
fn merge_with_empty_side() {
    let a: Vec<i32> = vec![1, 2];
    let b: Vec<i32> = Vec::new();
    assert_eq!(merge(&a, &b), vec![1, 2]);
    assert_eq!(merge(&b, &a), vec![1, 2]);
}

#[test]
fn every_strategy_handles_empty_input() {
    let mut a: Vec<i32> = Vec::new();
    bubble_sort(&mut a);
    assert!(a.is_empty());
    let mut b: Vec<i32> = Vec::new();
    merge_sort(&mut b);
    assert!(b.is_empty());
    let mut c: Vec<i32> = Vec::new();
    sortlist::quick_filter::quick_sort(&mut c);
    assert!(c.is_empty());
    let mut d: Vec<i32> = Vec::new();
    sortlist::quick_two_pointer::quick_sort(&mut d);
    assert!(d.is_empty());
}

#[test]
fn every_strategy_handles_single_element() {
    let mut a: Vec<i32> = vec![42];
    bubble_sort(&mut a);
    assert_eq!(a, vec![42]);
    let mut b: Vec<i32> = vec![42];
    merge_sort(&mut b);
    assert_eq!(b, vec![42]);
    let mut c: Vec<i32> = vec![42];
    sortlist::quick_filter::quick_sort(&mut c);
    assert_eq!(c, vec![42]);
    let mut d: Vec<i32> = vec![42];
    sortlist::quick_two_pointer::quick_sort(&mut d);
    assert_eq!(d, vec![42]);
}

#[test]
fn sorting_a_sorted_sequence_is_identity() {
    let sorted_input: Vec<i32> = vec![1, 2, 2, 3, 9];
    let mut a = sorted_input.clone();
    bubble_sort(&mut a);
    assert_eq!(a, sorted_input);
    let mut b = sorted_input.clone();
    merge_sort(&mut b);
    assert_eq!(b, sorted_input);
    let mut c = sorted_input.clone();
    sortlist::quick_filter::quick_sort(&mut c);
    assert_eq!(c, sorted_input);
    let mut d = sorted_input.clone();
    sortlist::quick_two_pointer::quick_sort(&mut d);
    assert_eq!(d, sorted_input);
}

#[test]
fn two_pointer_quick_sort_pivot_at_lower_bound() {
    // Already-sorted input parks the pivot on the window's lower bound at
    // every level, exercising the underflow guard.
    let mut nums: Vec<i32> = vec![1, 2, 3, 4, 5];
    sortlist::quick_two_pointer::quick_sort(&mut nums);
    assert_eq!(nums, vec![1, 2, 3, 4, 5]);
}

#[test]
fn sorts_agree_on_duplicates() {
    let input: Vec<i32> = vec![5, -3, 5, 0, -3, 7];
    let expected: Vec<i32> = vec![-3, -3, 0, 5, 5, 7];
    let mut a = input.clone();
    bubble_sort(&mut a);
    assert_eq!(a, expected);
    let mut b = input.clone();
    merge_sort(&mut b);
    assert_eq!(b, expected);
    let mut c = input.clone();
    sortlist::quick_filter::quick_sort(&mut c);
    assert_eq!(c, expected);
    let mut d = input.clone();
    sortlist::quick_two_pointer::quick_sort(&mut d);
    assert_eq!(d, expected);
}
