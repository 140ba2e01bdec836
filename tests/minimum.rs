use bignum::minimum::{vec_min, Minimum, SomethingOrNothing};

#[test]
fn vec_min_of_numbers() {
    assert_eq!(vec_min(vec![18, 5, 7, 3, 9, 27]), SomethingOrNothing::Something(3));
    assert_eq!(vec_min(vec![3, 4, 10, 1, 2, 5]), SomethingOrNothing::Something(1));
    assert_eq!(vec_min(vec![-4, i32::MIN, i32::MAX]), SomethingOrNothing::Something(i32::MIN));
}

#[test]
fn vec_min_of_one_element() {
    assert_eq!(vec_min(vec![42]), SomethingOrNothing::Something(42));
}

#[test]
fn vec_min_of_empty_is_nothing() {
    let empty: Vec<i32> = Vec::new();
    assert_eq!(vec_min(empty), SomethingOrNothing::Nothing);
}

#[test]
fn min_of_two_numbers() {
    assert_eq!(Minimum::min(3, 8), 3);
    assert_eq!(Minimum::min(8, 3), 3);
    assert_eq!(Minimum::min(-1, -1), -1);
}

#[test]
fn option_round_trip() {
    assert_eq!(SomethingOrNothing::new(Some(5)), SomethingOrNothing::Something(5));
    assert_eq!(SomethingOrNothing::<i32>::new(None), SomethingOrNothing::Nothing);
    assert_eq!(SomethingOrNothing::new(Some(5)).to_option(), Some(5));
    assert_eq!(SomethingOrNothing::<i32>::Nothing.to_option(), None);
}
