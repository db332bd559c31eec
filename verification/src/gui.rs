//! A screen of drawable components behind one trait, so components of
//! different types can sit in the same list.

use vstd::prelude::*;
use vstd::string::StringExecFns;

verus! {

/// Something that can draw itself, handing back the line it would put
/// on the screen.
pub trait Draw {
    /// The line the implementor promises to draw; unverified
    /// implementors leave it at its default.
    open spec fn draw_model(&self) -> Seq<char> {
        Seq::<char>::empty()
    }

    /// Draws the component, handing back its line.
    fn draw(&self) -> (r: String)
        ensures
            r@ == self.draw_model(),
    ;
}

/// A screen holding any mix of drawable components.
pub struct Screen {
    pub components: Vec<Box<dyn Draw>>,
}

impl Screen {
    /// Draws every component in order and returns one line per
    /// component.
    pub fn run(&self) -> (lines: Vec<String>)
        ensures
            lines@.len() == self.components@.len(),
            forall|i: int| 0 <= i < lines@.len() ==> (#[trigger] lines@[i])@
                == self.components@[i].draw_model(),
    {
        let mut lines: Vec<String> = Vec::new();
        let mut i: usize = 0;
        while i < self.components.len()
            invariant
                i <= self.components@.len(),
                lines@.len() == i,
                forall|j: int| 0 <= j < i ==> (#[trigger] lines@[j])@
                    == self.components@[j].draw_model(),
            decreases self.components@.len() - i,
        {
            let line = self.components[i].draw();
            lines.push(line);
            i += 1;
        }
        lines
    }
}

/// A push button with a label.
pub struct Button {
    pub width: u32,
    pub height: u32,
    pub label: String,
}

impl Draw for Button {
    /// A button always draws the same line.
    open spec fn draw_model(&self) -> Seq<char> {
        "draw function called for Button."@
    }

    fn draw(&self) -> (r: String) {
        String::from_str("draw function called for Button.")
    }
}

} // verus!
