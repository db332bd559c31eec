use book_examples::closures::Cacher;

#[test]
fn cacher_computes_once() {
    let mut c = Cacher::new(|a| a);

    let v1 = c.value(1);
    let v2 = c.value(2);

    assert_eq!(v1, 1);
    assert_eq!(v2, 1);
}

#[test]
fn cacher_remembers_first_result() {
    let mut c = Cacher::new(|a: u32| a * 10);

    assert_eq!(c.value(3), 30);
    assert_eq!(c.value(100), 30);
}
