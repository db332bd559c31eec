use book_examples::borrowing;
use book_examples::control_flow::fib;
use book_examples::control_flow::ordinal_indicator;
use book_examples::ownership;
use book_examples::restaurant::Appetizer;
use book_examples::restaurant::Breakfast;

#[test]
fn fib_multiplies_down() {
    assert_eq!(fib(0), 1);
    assert_eq!(fib(1), 1);
    assert_eq!(fib(5), 120);
    assert_eq!(fib(10), 3628800);
}

#[test]
fn ordinal_suffixes() {
    assert_eq!(ordinal_indicator(1), "st");
    assert_eq!(ordinal_indicator(2), "nd");
    assert_eq!(ordinal_indicator(3), "rd");
    assert_eq!(ordinal_indicator(4), "th");
    assert_eq!(ordinal_indicator(12), "th");
}

#[test]
fn ownership_round_trips() {
    let s1 = ownership::gives_ownership();
    assert_eq!(s1, "hello");

    let s2 = String::from("hello");
    let s3 = ownership::takes_and_gives_back(s2);
    assert_eq!(s3, "hello");

    let (s4, len) = ownership::calculate_length(String::from("hello"));
    assert_eq!(s4, "hello");
    assert_eq!(len, 5);

    ownership::return_values_and_scope();
}

#[test]
fn borrowing_length_and_change() {
    let s = String::from("hello");
    assert_eq!(borrowing::calculate_length(&s), 5);

    let mut s = String::from("hello");
    borrowing::change(&mut s);
    assert_eq!(s, "hello, world");
}

#[test]
fn summer_breakfast() {
    let mut meal = Breakfast::summer("Rye");
    assert_eq!(meal.toast, "Rye");
    meal.toast = String::from("Wheat");
    assert_eq!(meal.toast, "Wheat");

    let _order1 = Appetizer::Soup;
    let _order2 = Appetizer::Salad;
}
