use book_examples::areas::Rectangle;
use book_examples::areas::area;
use book_examples::areas::struct_area;
use book_examples::areas::tuple_area;
use book_examples::users::build_user;

#[test]
fn area_from_loose_values() {
    assert_eq!(area(30, 50), 1500);
}

#[test]
fn area_from_tuple() {
    assert_eq!(tuple_area((30, 50)), 1500);
}

#[test]
fn area_from_struct() {
    let rect1 = Rectangle { width: 30, height: 50 };
    assert_eq!(struct_area(&rect1), 1500);
}

#[test]
fn built_user_fields() {
    let user = build_user(String::from("me@example.com"), String::from("me"));
    assert_eq!(user.email, "me@example.com");
    assert_eq!(user.username, "me");
    assert!(user.active);
    assert_eq!(user.sign_in_count, 1);
}
