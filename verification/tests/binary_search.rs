use rust_exercises::binary_search::{bin_search, bin_search_with_steps};

const ARR: [i32; 10] = [-1, 2, 3, 5, 7, 8, 10, 24, 37, 42];

#[test]
fn element_found() {
    assert_eq!((-1, 0), bin_search(&ARR, -1).unwrap());
}

#[test]
fn element_not_found() {
    let result = bin_search(&ARR, 99);
    assert!(result.is_none());
}

#[test]
fn smallest_element_not_found() {
    let result = bin_search(&ARR, -100);
    assert!(result.is_none());
}

#[test]
fn every_element_is_found_at_its_index() {
    for (i, &v) in ARR.iter().enumerate() {
        assert_eq!(bin_search(&ARR, v), Some((v, i)));
    }
}

#[test]
fn absent_values_between_elements_are_not_found() {
    assert_eq!(bin_search(&ARR, 4), None);
    assert_eq!(bin_search(&ARR, 25), None);
    assert_eq!(bin_search(&ARR, 43), None);
}

#[test]
fn single_element_array() {
    assert_eq!(bin_search(&[7], 7), Some((7, 0)));
    assert_eq!(bin_search(&[7], 6), None);
    assert_eq!(bin_search(&[7], 8), None);
}

#[test]
fn rounds_that_go_on_are_counted() {
    // mid 4 (7) < 37 -> 5..9, mid 7 (24) < 37 -> 8..9, mid 8 (37) found.
    assert_eq!(bin_search_with_steps(&ARR, 37), (Some((37, 8)), 2));
    // mid 4 (7) > -1 -> 0..3, mid 1 (2) > -1 -> 0..0, mid 0 found.
    assert_eq!(bin_search_with_steps(&ARR, -1), (Some((-1, 0)), 2));
    // -100: 7 > -100, 2 > -100, -1 > -100 at index 0: gives up.
    assert_eq!(bin_search_with_steps(&ARR, -100), (None, 2));
    for x in -5..50 {
        let (_, steps) = bin_search_with_steps(&ARR, x);
        assert!(steps <= 4);
    }
}
