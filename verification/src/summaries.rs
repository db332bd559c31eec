//! A trait for summarizing items, with a default summary built from the
//! author line, and three item types implementing it.

use vstd::prelude::*;
use vstd::string::StringExecFns;

verus! {

/// Something with an author line and a one-line summary.
pub trait Summary {
    /// The author line the implementor promises to produce.
    spec fn author_model(&self) -> Seq<char>;

    /// Returns the author line.
    fn summarize_author(&self) -> (r: String)
        ensures
            r@ == self.author_model(),
    ;

    /// Returns a one-line summary; unless an implementor overrides it,
    /// this is "(Read more from <author>...)".
    fn summarize(&self) -> (r: String)
        default_ensures
            r@ == "(Read more from "@ + self.author_model() + "...)"@,
    {
        let mut s = String::from_str("(Read more from ");
        let author = self.summarize_author();
        s.append(author.as_str());
        s.append("...)");
        s
    }
}

/// Something that can render itself as plain text.
pub trait TextDisplay {
    /// The text the implementor promises to show.
    spec fn display_model(&self) -> Seq<char>;

    /// Returns the text to show.
    fn display(&self) -> (r: String)
        ensures
            r@ == self.display_model(),
    ;
}

pub struct NewsArticle {
    pub headline: String,
    pub location: String,
    pub author: String,
    pub content: String,
}

impl Summary for NewsArticle {
    /// "@" followed by the author's name.
    open spec fn author_model(&self) -> Seq<char> {
        "@"@ + self.author@
    }

    fn summarize_author(&self) -> (r: String) {
        let mut s = String::from_str("@");
        s.append(self.author.as_str());
        s
    }
}

pub struct Tweet {
    pub username: String,
    pub content: String,
    pub reply: bool,
    pub retweet: bool,
}

impl Summary for Tweet {
    /// "@" followed by the user's name.
    open spec fn author_model(&self) -> Seq<char> {
        "@"@ + self.username@
    }

    fn summarize_author(&self) -> (r: String) {
        let mut s = String::from_str("@");
        s.append(self.username.as_str());
        s
    }

    /// A tweet's summary is the user's name and the tweet itself.
    fn summarize(&self) -> (r: String)
        ensures
            r@ == self.username@ + ": "@ + self.content@,
    {
        let mut s = self.username.clone();
        s.append(": ");
        s.append(self.content.as_str());
        s
    }
}

pub struct Email {
    pub to: String,
    pub from: String,
    pub subject: String,
    pub body: String,
}

impl Summary for Email {
    /// "From: " followed by the sender.
    open spec fn author_model(&self) -> Seq<char> {
        "From: "@ + self.from@
    }

    fn summarize_author(&self) -> (r: String) {
        let mut s = String::from_str("From: ");
        s.append(self.from.as_str());
        s
    }
}

impl TextDisplay for Email {
    /// An email displays its body.
    open spec fn display_model(&self) -> Seq<char> {
        self.body@
    }

    fn display(&self) -> (r: String) {
        self.body.clone()
    }
}

/// Builds a fixed example tweet, handed out as "anything summarizable".
pub fn returns_summarizable() -> (t: Tweet)
    ensures
        t.author_model() == "@"@ + "horse_ebooks"@,
{
    Tweet {
        username: String::from_str("horse_ebooks"),
        content: String::from_str("of course, as you probably already know, people"),
        reply: false,
        retweet: false,
    }
}

} // verus!
