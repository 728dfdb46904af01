use algods::quicksort::quick_sort;

#[test]
fn test_basic_unsorted_array() {
    let mut arr = vec![64, 34, 25, 12, 22, 11, 90];
    quick_sort(&mut arr);
    assert_eq!(arr, vec![11, 12, 22, 25, 34, 64, 90]);
}

#[test]
fn test_already_sorted_array() {
    let mut arr = vec![1, 2, 3, 4, 5];
    quick_sort(&mut arr);
    assert_eq!(arr, vec![1, 2, 3, 4, 5]);
}

#[test]
fn test_reverse_sorted_array() {
    let mut arr = vec![9, 7, 5, 3, 1];
    quick_sort(&mut arr);
    assert_eq!(arr, vec![1, 3, 5, 7, 9]);
}

#[test]
fn test_array_with_duplicates() {
    let mut arr = vec![3, 1, 4, 1, 5, 9, 2, 6, 5];
    quick_sort(&mut arr);
    assert_eq!(arr, vec![1, 1, 2, 3, 4, 5, 5, 6, 9]);
}

#[test]
fn quicksort_test_single_element() {
    let mut arr = vec![42];
    quick_sort(&mut arr);
    assert_eq!(arr, vec![42]);
}

#[test]
fn test_empty_array() {
    let mut arr: Vec<i32> = vec![];
    quick_sort(&mut arr);
    assert_eq!(arr, Vec::<i32>::new());
}
