//! Character-display widgets: a label that redraws itself only when its text
//! changed, and an empty placeholder.
use vstd::prelude::*;

use core::marker::PhantomData;
use vstd::string::StringExecFns;

verus! {

/// A key event as the user interface sees it.
#[derive(Debug, Clone, Copy, PartialEq, Eq, Structural)]
pub enum UiEvent {
    Up,
    Down,
    Left,
    Right,
    Enter,
    Back,
}

/// A character display: a cursor position, text output and clearing.
pub trait CharacterDisplay {
    /// Moves the cursor to column `col` of row `row`.
    fn set_position(&mut self, col: u8, row: u8);

    /// Clears the display.
    fn clear(&mut self);

    /// Forgets the user-defined glyphs.
    fn reset_custom_chars(&mut self);

    /// Writes `s` at the cursor.
    fn put_str(&mut self, s: &str);

    /// Pads a line on which `len` columns are used up to `width` columns
    /// with spaces.
    fn finish_line(&mut self, width: usize, len: usize)
        requires
            len <= width,
    {
        let mut i: usize = len;
        while i < width
            invariant
                len <= i <= width,
            decreases width - i,
        {
            self.put_str(" ");
            i = i + 1;
        }
    }
}

/// A widget shown on a character display, fed with state of type `S` and
/// answering events with actions of type `A`.
pub trait Widget<S, A> {
    /// Marks the widget to be drawn at the next render.
    fn invalidate(&mut self);

    /// Hands the widget new state.
    fn update(&mut self, state: S);

    /// Draws the widget if it is marked.
    fn render<D: CharacterDisplay>(&mut self, display: &mut D);

    /// Answers an event; by default with nothing.
    fn event(&mut self, e: UiEvent) -> Option<A> {
        None
    }
}

/// A line of text at column `X` of row `Y`, padded to `LEN` columns.
#[derive(Debug)]
pub struct Label<A, const LEN: usize, const X: u8, const Y: u8> {
    pub state: String,
    pub invalidate: bool,
    pub phantom: PhantomData<A>,
}

impl<A, const LEN: usize, const X: u8, const Y: u8> Label<A, LEN, X, Y> {
    /// A label showing `val`, to be drawn at the next render.
    pub fn new(val: &str) -> (r: Self)
        ensures
            r.state@ == val@,
            r.invalidate,
    {
        Label { state: val.to_owned(), invalidate: true, phantom: PhantomData }
    }

    /// Appends `s` to the text; a non-empty `s` marks the label.
    pub fn write_str(&mut self, s: &str)
        ensures
            final(self).state@ == old(self).state@ + s@,
            final(self).invalidate == (old(self).invalidate || s@.len() > 0),
    {
        if !s.is_empty() {
            self.state.append(s);
            self.invalidate = true;
        } else {
            proof {
                assert(old(self).state@ + s@ =~= old(self).state@);
            }
        }
    }
}

impl<'a, A, const LEN: usize, const X: u8, const Y: u8> Widget<&'a str, A> for Label<A, LEN, X, Y> {
    fn invalidate(&mut self) {
        self.invalidate = true;
    }

    fn update(&mut self, state: &'a str) {
        let next = state.to_owned();
        if !(self.state == next) {
            self.state = next;
            self.invalidate = true;
        }
    }

    fn render<D: CharacterDisplay>(&mut self, display: &mut D) {
        if self.invalidate {
            display.reset_custom_chars();
            display.set_position(X, Y);
            display.put_str(self.state.as_str());
            let used = self.state.as_str().len();
            if used < LEN && (X as usize) < LEN - used {
                display.finish_line(LEN, used + X as usize);
            }
            self.invalidate = false;
        }
    }
}

/// A widget that shows nothing and answers nothing.
#[derive(Debug)]
pub struct Empty<A> {
    phantom: PhantomData<A>,
}

impl<A> Empty<A> {
    /// The empty widget.
    pub fn new() -> (r: Self) {
        Empty { phantom: PhantomData }
    }
}

impl<A> Widget<(), A> for Empty<A> {
    fn invalidate(&mut self) {
    }

    fn update(&mut self, _state: ()) {
    }

    fn render<D: CharacterDisplay>(&mut self, _display: &mut D) {
    }
}

} // verus!
