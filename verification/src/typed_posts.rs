//! The same review workflow as `blog`, but with one type per stage, so
//! that the compiler already rules out calling a transition in the wrong
//! stage; the contracts state what each transition keeps.

use vstd::prelude::*;
use vstd::string::StringExecFns;

verus! {

/// A published post: its content is visible.
pub struct Post {
    content: String,
}

/// A post still being written.
pub struct DraftPost {
    content: String,
}

/// A post waiting for its first approval.
pub struct PendingReviewPost {
    content: String,
}

/// A post with one approval, waiting for the second.
pub struct PendingFinalReviewPost {
    content: String,
}

impl Post {
    /// The text of the published post.
    pub closed spec fn spec_text(&self) -> Seq<char> {
        self.content@
    }

    /// Starts a new, empty draft.
    pub fn new() -> (p: DraftPost)
        ensures
            p.spec_text() == Seq::<char>::empty(),
    {
        DraftPost { content: String::new() }
    }

    /// The content of the published post.
    pub fn content(&self) -> (r: &str)
        ensures
            r@ == self.spec_text(),
    {
        self.content.as_str()
    }
}

impl DraftPost {
    /// The text written so far.
    pub closed spec fn spec_text(&self) -> Seq<char> {
        self.content@
    }

    /// Appends `text` to the draft.
    pub fn add_text(&mut self, text: &str)
        ensures
            final(self).spec_text() == old(self).spec_text() + text@,
    {
        self.content.append(text);
    }

    /// Sends the draft off for review, keeping its text.
    pub fn request_review(self) -> (p: PendingReviewPost)
        ensures
            p.spec_text() == self.spec_text(),
    {
        PendingReviewPost { content: self.content }
    }
}

impl PendingReviewPost {
    /// The text under review.
    pub closed spec fn spec_text(&self) -> Seq<char> {
        self.content@
    }

    /// Records the first approval, keeping the text.
    pub fn approve(self) -> (p: PendingFinalReviewPost)
        ensures
            p.spec_text() == self.spec_text(),
    {
        PendingFinalReviewPost { content: self.content }
    }

    /// Sends the post back to the draft stage, keeping the text.
    pub fn reject(self) -> (p: DraftPost)
        ensures
            p.spec_text() == self.spec_text(),
    {
        DraftPost { content: self.content }
    }
}

impl PendingFinalReviewPost {
    /// The text under final review.
    pub closed spec fn spec_text(&self) -> Seq<char> {
        self.content@
    }

    /// Records the second approval and publishes, keeping the text.
    pub fn approve(self) -> (p: Post)
        ensures
            p.spec_text() == self.spec_text(),
    {
        Post { content: self.content }
    }

    /// Sends the post back to the draft stage, keeping the text.
    pub fn reject(self) -> (p: DraftPost)
        ensures
            p.spec_text() == self.spec_text(),
    {
        DraftPost { content: self.content }
    }
}

/// Drives one post from draft to publication, with a rejection and a
/// restart along the way, and checks that the text written at the start
/// is what the published post shows.
pub fn states_as_types_blog() {
    let mut post = Post::new();

    post.add_text("I ate a salad for lunch today");

    let post = post.request_review();
    let post = post.reject();
    let post = post.request_review();
    let post = post.approve();
    let post = post.reject();
    let post = post.request_review();
    let post = post.approve();
    let post = post.approve();

    let shown = post.content();
    assert(shown@ =~= "I ate a salad for lunch today"@);
}

} // verus!
