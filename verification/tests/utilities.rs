use rust_exercises::utilities::decimal_places;

#[test]
fn decimal_places_of_renderings() {
    assert_eq!(decimal_places(&3.25f64.to_string()), 2);
    assert_eq!(decimal_places(&5.0f64.to_string()), 0);
    assert_eq!(decimal_places("1.5.5"), 3);
    assert_eq!(decimal_places("42"), 0);
    assert_eq!(decimal_places("0.ё"), 2);
}
