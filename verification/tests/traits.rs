use book_examples::summaries::Email;
use book_examples::summaries::NewsArticle;
use book_examples::summaries::Summary;
use book_examples::summaries::TextDisplay;
use book_examples::summaries::Tweet;
use book_examples::summaries::returns_summarizable;

#[test]
fn tweet_summary_overrides_default() {
    let tweet = Tweet {
        username: String::from("horse_ebooks"),
        content: String::from("of course, as you probably already know, people"),
        reply: false,
        retweet: false,
    };

    assert_eq!(
        tweet.summarize(),
        "horse_ebooks: of course, as you probably already know, people"
    );
    assert_eq!(tweet.summarize_author(), "@horse_ebooks");
}

#[test]
fn article_uses_default_summary() {
    let article = NewsArticle {
        headline: String::from("Penguins win the Stanley Cup Championship!"),
        location: String::from("Pittsburgh, PA, USA"),
        author: String::from("Iceburgh"),
        content: String::from("The Pittsburgh Penguins once again are the best hockey team in the NHL."),
    };

    assert_eq!(article.summarize(), "(Read more from @Iceburgh...)");
}

#[test]
fn email_displays_its_body() {
    let email = Email {
        to: String::from("abc@example.com"),
        from: String::from("deg@example.com"),
        subject: String::from("hi"),
        body: String::from("hello there!"),
    };

    assert_eq!(email.display(), "hello there!");
    assert_eq!(email.summarize(), "(Read more from From: deg@example.com...)");
}

#[test]
fn summarizable_is_a_tweet() {
    let tweet = returns_summarizable();
    assert_eq!(tweet.summarize_author(), "@horse_ebooks");
}
