use book_examples::borrowing::no_dangle;
use std::ops::Deref;

struct MyBox<T>(T);

impl<T> MyBox<T> {
    fn new(x: T) -> MyBox<T> {
        MyBox(x)
    }
}

impl<T> Deref for MyBox<T> {
    type Target = T;

    fn deref(&self) -> &T {
        &self.0
    }
}

fn hello(name: &str) -> String {
    format!("Hello, {}!", name)
}

#[test]
fn simple_dereference() {
    let x = 5;
    let y = &x;

    assert_eq!(5, x);
    assert_eq!(5, *y);
}

#[test]
fn box_dereference() {
    let x = 5;
    let y = Box::new(x);

    assert_eq!(5, x);
    assert_eq!(5, *y);
}

#[test]
fn custom_smart_pointer() {
    let x = 5;
    let y = MyBox::new(x);

    assert_eq!(5, x);
    assert_eq!(5, *y);
}

#[test]
fn implicit_deref_coercion() {
    let m = MyBox::new(String::from("Rust"));
    assert_eq!(hello(&m), "Hello, Rust!");
}

#[test]
fn no_dangle_returns_owned_string() {
    assert_eq!(no_dangle(), "hello");
}
