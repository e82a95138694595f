use rust_exercises::bubble_sorting::bubble_sort;

#[test]
fn test_bubble_sort_ascending() {
    let mut arr = [4, 3, 5, 1, 2];
    bubble_sort(&mut arr, true);
    assert_eq!(arr, [1, 2, 3, 4, 5]);
}

#[test]
fn test_bubble_sort_descending() {
    let mut arr = [4, 3, 5, 1, 2];
    bubble_sort(&mut arr, false);
    assert_eq!(arr, [5, 4, 3, 2, 1]);
}

#[test]
fn test_bubble_sort_already_sorted() {
    let mut arr = [1, 2, 3, 4, 5];
    bubble_sort(&mut arr, true);
    assert_eq!(arr, [1, 2, 3, 4, 5]);
}

#[test]
fn test_bubble_sort_empty() {
    let mut arr: [i32; 0] = [];
    bubble_sort(&mut arr, true);
    assert_eq!(arr, []);
}

#[test]
fn test_bubble_sort_single_element() {
    let mut arr = [42];
    bubble_sort(&mut arr, true);
    assert_eq!(arr, [42]);
}

#[test]
fn bubble_sort_keeps_duplicates_and_extremes() {
    let mut arr = [3, i32::MIN, 3, i32::MAX, -7, 0, 3];
    bubble_sort(&mut arr, true);
    assert_eq!(arr, [i32::MIN, -7, 0, 3, 3, 3, i32::MAX]);
    bubble_sort(&mut arr, false);
    assert_eq!(arr, [i32::MAX, 3, 3, 3, 0, -7, i32::MIN]);
}

#[test]
fn bubble_sort_twice_changes_nothing() {
    let mut arr = [9, -2, 5, 5, 0];
    bubble_sort(&mut arr, true);
    let once = arr;
    bubble_sort(&mut arr, true);
    assert_eq!(arr, once);
}

#[test]
fn bubble_sort_counts_comparisons() {
    let mut arr = [4, 3, 5, 1, 2];
    assert_eq!(bubble_sort(&mut arr, true), 10);
    let mut arr = [4, 3, 5, 1, 2];
    assert_eq!(bubble_sort(&mut arr, false), 9);
    let mut arr = [1, 2, 3, 4, 5];
    assert_eq!(bubble_sort(&mut arr, true), 4);
    let mut arr: [i32; 0] = [];
    assert_eq!(bubble_sort(&mut arr, true), 0);
    let mut arr = [42];
    assert_eq!(bubble_sort(&mut arr, true), 0);
}
