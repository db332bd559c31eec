use book_examples::add_one::add_one;

#[test]
fn lib_it_works() {
    assert_eq!(3, add_one(2));
}
