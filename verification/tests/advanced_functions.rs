use book_examples::advanced_functions::add_one;
use book_examples::advanced_functions::do_twice;
use book_examples::advanced_functions::returns_closure;

#[test]
fn applies_twice() {
    assert_eq!(do_twice(add_one, 5), 12);
}

#[test]
fn closure_adds_one() {
    let plus_one = returns_closure();
    assert_eq!(plus_one(1), 2);
}
