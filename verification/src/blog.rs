//! A blog post that moves through a review workflow held in one value.
//!
//! A post starts as a draft; text can only be added while it is a draft.
//! A review can be requested, after which a first approval is recorded
//! and a second approval publishes the post. Rejection sends the post
//! back to the draft state. Only a published post shows its content.

use vstd::prelude::*;
use vstd::string::StringExecFns;

verus! {

/// The stage a post is in.
pub enum PostState {
    /// Being written; text can still be added.
    Draft,
    /// Waiting for review; `has_approval` records whether one approval
    /// has already been given.
    PendingReview { has_approval: bool },
    /// Approved twice and visible to readers.
    Published,
}

/// Where a review request moves a post: a draft becomes pending with no
/// approval yet; any other state is left alone.
pub open spec fn after_request_review(s: PostState) -> PostState {
    match s {
        PostState::Draft => PostState::PendingReview { has_approval: false },
        _ => s,
    }
}

/// Where an approval moves a post: a first approval is recorded, a second
/// one publishes; drafts and published posts are left alone.
pub open spec fn after_approve(s: PostState) -> PostState {
    match s {
        PostState::PendingReview { has_approval } => {
            if has_approval {
                PostState::Published
            } else {
                PostState::PendingReview { has_approval: true }
            }
        },
        _ => s,
    }
}

/// Where a rejection moves a post: a pending post goes back to draft;
/// drafts and published posts are left alone.
pub open spec fn after_reject(s: PostState) -> PostState {
    match s {
        PostState::PendingReview { .. } => PostState::Draft,
        _ => s,
    }
}

/// A post together with the stage it is in.
pub struct Post {
    state: PostState,
    content: String,
}

impl Post {
    /// The stage this post is in.
    pub closed spec fn spec_state(&self) -> PostState {
        self.state
    }

    /// The text written so far, visible or not.
    pub closed spec fn spec_text(&self) -> Seq<char> {
        self.content@
    }

    /// A fresh post: an empty draft.
    pub fn new() -> (p: Post)
        ensures
            p.spec_state() is Draft,
            p.spec_text() == Seq::<char>::empty(),
    {
        Post { state: PostState::Draft, content: String::new() }
    }

    /// Appends `text` to the post if it is still a draft; in any other
    /// stage the text is ignored.
    pub fn add_text(&mut self, text: &str)
        ensures
            final(self).spec_state() == old(self).spec_state(),
            final(self).spec_text() == if old(self).spec_state() is Draft {
                old(self).spec_text() + text@
            } else {
                old(self).spec_text()
            },
    {
        match self.state {
            PostState::Draft => {
                self.content.append(text);
            },
            _ => {},
        }
    }

    /// The visible content: the text once the post is published, and the
    /// empty string before that.
    pub fn content(&self) -> (r: &str)
        ensures
            r@ == if self.spec_state() is Published {
                self.spec_text()
            } else {
                Seq::<char>::empty()
            },
    {
        match self.state {
            PostState::Published => self.content.as_str(),
            _ => {
                proof {
                    reveal_strlit("");
                    assert(""@ =~= Seq::<char>::empty());
                }
                ""
            },
        }
    }

    /// Asks for a review: `after_request_review` of the current stage.
    pub fn request_review(&mut self)
        ensures
            final(self).spec_text() == old(self).spec_text(),
            final(self).spec_state() == after_request_review(old(self).spec_state()),
    {
        match self.state {
            PostState::Draft => {
                self.state = PostState::PendingReview { has_approval: false };
            },
            _ => {},
        }
    }

    /// Gives one approval: `after_approve` of the current stage.
    pub fn approve(&mut self)
        ensures
            final(self).spec_text() == old(self).spec_text(),
            final(self).spec_state() == after_approve(old(self).spec_state()),
    {
        match self.state {
            PostState::PendingReview { has_approval } => {
                if has_approval {
                    self.state = PostState::Published;
                } else {
                    self.state = PostState::PendingReview { has_approval: true };
                }
            },
            _ => {},
        }
    }

    /// Withdraws the post from review: `after_reject` of the current stage.
    pub fn reject(&mut self)
        ensures
            final(self).spec_text() == old(self).spec_text(),
            final(self).spec_state() == after_reject(old(self).spec_state()),
    {
        match self.state {
            PostState::PendingReview { .. } => {
                self.state = PostState::Draft;
            },
            _ => {},
        }
    }
}

/// Walks one post through the whole workflow and checks at each step
/// which text is visible: nothing before publication, everything written
/// as a draft after it.
pub fn oo_blog() {
    let mut post = Post::new();

    post.add_text("I ate a salad for lunch today");
    let c1 = post.content();
    assert(c1@ == Seq::<char>::empty());

    post.request_review();
    post.add_text("This text should be ignored");
    let c2 = post.content();
    assert(c2@ == Seq::<char>::empty());

    post.reject();
    let c3 = post.content();
    assert(c3@ == Seq::<char>::empty());

    post.request_review();
    let c4 = post.content();
    assert(c4@ == Seq::<char>::empty());

    post.approve();
    post.add_text("This text should be ignored");
    let c5 = post.content();
    assert(c5@ == Seq::<char>::empty());

    post.approve();
    post.add_text("This text should be ignored");
    let shown = post.content();
    assert(shown@ =~= "I ate a salad for lunch today"@);
}

} // verus!
