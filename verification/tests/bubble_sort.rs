use algods::bubble_sort::bubble_sort;
use algods::bubble_sort::bubble_sort_idiomatic;

#[test]
fn it_can_sorted_an_array() {
    // Test Case 1: Normal unsorted array

    let mut arr = vec![64, 34, 25, 12, 22, 11, 90];
    let expected = vec![11, 12, 22, 25, 34, 64, 90];

    bubble_sort(&mut arr);

    assert_eq!(arr, expected);
}

#[test]
fn it_can_run_edge_cases() {
    // Empty array
    let mut empty: Vec<i32> = vec![];
    bubble_sort(&mut empty);
    assert_eq!(empty, Vec::<i32>::new());

    // Single element
    let mut single = vec![42];
    bubble_sort(&mut single);
    assert_eq!(single, vec![42]);

    // Two elements (unsorted)
    let mut two_elements = vec![5, 2];
    bubble_sort(&mut two_elements);
    assert_eq!(two_elements, vec![2, 5]);
}

#[test]
fn it_sorted_special_array() {
    // Sorted array
    let mut already_sorted = vec![1, 2, 3, 4, 5];
    bubble_sort(&mut already_sorted);
    assert_eq!(already_sorted, vec![1, 2, 3, 4, 5]);

    // Reverse sorted array
    let mut reverse_sorted = vec![5, 4, 3, 2, 1];
    bubble_sort(&mut reverse_sorted);
    assert_eq!(reverse_sorted, vec![1, 2, 3, 4, 5]);

    // array with duplicates
    let mut with_duplicates = vec![3, 1, 4, 1, 5, 9, 2, 6, 5];
    bubble_sort(&mut with_duplicates);
    assert_eq!(with_duplicates, vec![1, 1, 2, 3, 4, 5, 5, 6, 9]);
}

#[test]
fn it_sorts_the_same_with_the_idiomatic_form() {
    let mut arr = vec![64, 34, 25, 12, 22, 11, 90];
    bubble_sort_idiomatic(&mut arr);
    assert_eq!(arr, vec![11, 12, 22, 25, 34, 64, 90]);

    let mut empty: Vec<i32> = vec![];
    bubble_sort_idiomatic(&mut empty);
    assert_eq!(empty, Vec::<i32>::new());
}
