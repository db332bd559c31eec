use book_examples::generics::Pair;
use book_examples::generics::largest;
use book_examples::generics::largest_char;
use book_examples::generics::largest_i32;
use book_examples::lifetimes;
use book_examples::slices;

#[test]
fn largest_of_numbers() {
    let number_list = vec![34, 50, 25, 100, 65];
    assert_eq!(largest_i32(&number_list), 100);
    assert_eq!(largest(&number_list), 100);
}

#[test]
fn largest_of_chars() {
    let char_list = vec!['y', 'm', 'a', 'q'];
    assert_eq!(largest_char(&char_list), 'y');
    assert_eq!(largest(&char_list), 'y');
}

#[test]
fn pair_holds_its_values() {
    let _p = Pair::new(1, 2);
}

#[test]
fn longest_of_two() {
    assert_eq!(lifetimes::longest("abcd", "xyz"), "abcd");
    assert_eq!(lifetimes::longest("ab", "xyz"), "xyz");
    assert_eq!(lifetimes::longest("abc", "xyz"), "xyz");
}

#[test]
fn first_word_of_slice() {
    assert_eq!(lifetimes::first_word("Hello there."), "Hello");
    assert_eq!(lifetimes::first_word("plain"), "plain");
}

#[test]
fn first_word_as_index() {
    assert_eq!(slices::first_word(&String::from("hello world")), 5);
    assert_eq!(slices::first_word(&String::from("hello")), 5);
}

#[test]
fn first_word_as_slice() {
    assert_eq!(slices::first_word_slice(&String::from("hello world")), "hello");
    assert_eq!(slices::first_word_slice_parameters("hello world"), "hello");
    assert_eq!(slices::first_word_slice_parameters("hello"), "hello");
}
