use exercises::functions::{number_of_five, value_plus_one};

#[test]
fn number_of_five_is_five() {
    assert_eq!(number_of_five(), 5);
}

#[test]
fn value_plus_one_of_five_is_six() {
    assert_eq!(value_plus_one(5), 6);
}

#[test]
fn value_plus_one_crosses_zero() {
    assert_eq!(value_plus_one(-1), 0);
    assert_eq!(value_plus_one(0), 1);
}

#[test]
fn value_plus_one_at_the_ends_of_the_range() {
    assert_eq!(value_plus_one(i32::MIN), i32::MIN + 1);
    assert_eq!(value_plus_one(i32::MAX - 1), i32::MAX);
}
