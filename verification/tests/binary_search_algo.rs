use algods::binary_search_algo::binary_search;

#[test]
fn it_can_perform_binary_search() {
    let arr: [u32; 5] = [1, 2, 3, 4, 5];

    let result = binary_search(&arr, 5);

    assert!(result);
}

#[test]
fn it_cant_find_number_6_in_binary_search() {
    let arr: [u32; 5] = [1, 2, 3, 4, 5];

    let result = binary_search(&arr, 6);

    assert!(!result);
}

#[test]
fn it_finds_every_present_value() {
    let arr: [u32; 5] = [2, 4, 6, 8, 10];

    for needle in [2, 4, 6, 8, 10] {
        assert!(binary_search(&arr, needle));
    }
    for needle in [0, 1, 3, 5, 7, 9, 11] {
        assert!(!binary_search(&arr, needle));
    }
}
