use book_examples::test_organization::add_two;
use book_examples::test_organization::internal_adder;

#[test]
fn internal() {
    assert_eq!(4, internal_adder(2, 2));
}

#[test]
fn public_adder() {
    assert_eq!(7, add_two(5));
}
