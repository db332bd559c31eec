use book_examples::blog;
use book_examples::typed_posts;

#[test]
fn oo_blog_workflow() {
    let mut post = blog::Post::new();

    post.add_text("I ate a salad for lunch today");
    assert_eq!("", post.content());

    post.request_review();
    post.add_text("This text should be ignored");
    assert_eq!("", post.content());

    post.reject();
    assert_eq!("", post.content());

    post.request_review();
    assert_eq!("", post.content());

    post.approve();
    post.add_text("This text should be ignored");
    assert_eq!("", post.content());

    post.approve();
    post.add_text("This text should be ignored");
    assert_eq!("I ate a salad for lunch today", post.content());
}

#[test]
fn states_as_types_workflow() {
    let mut post = typed_posts::Post::new();

    post.add_text("I ate a salad for lunch today");

    let post = post.request_review();
    let post = post.reject();
    let post = post.request_review();
    let post = post.approve();
    let post = post.reject();
    let post = post.request_review();
    let post = post.approve();
    let post = post.approve();

    assert_eq!("I ate a salad for lunch today", post.content());
}
