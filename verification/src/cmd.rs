//! Deferred terminal commands: side effects a draw call cannot express as
//! cell writes.  They are applied only after the whole buffer is flushed,
//! in emission order.

use vstd::prelude::*;

use crate::ansi;
use crate::ansi::move_to_seq;
use crate::ansi::show_cursor_seq;

verus! {

/// A deferred terminal command.
#[derive(Clone, Copy, Debug)]
pub enum Cmd {
    /// Move the cursor to the cell at the carried column and row.
    MoveTo(usize, usize),
    /// Make the cursor visible.
    ShowCursor,
}

/// The escape sequence one command writes.
pub open spec fn cmd_chars(c: Cmd) -> Seq<char> {
    match c {
        Cmd::MoveTo(x, y) => move_to_seq(x as nat, y as nat),
        Cmd::ShowCursor => show_cursor_seq(),
    }
}

impl Cmd {
    /// The escape sequence that performs this command.
    pub fn ansi(&self) -> (s: String)
        requires
            self matches Cmd::MoveTo(x, y) ==> x < usize::MAX && y < usize::MAX,
        ensures
            s@ == cmd_chars(*self),
    {
        let mut out: Vec<char> = Vec::new();
        match self {
            Cmd::MoveTo(x, y) => {
                ansi::push_move_to(&mut out, *x, *y);
            },
            Cmd::ShowCursor => {
                ansi::push_show_cursor(&mut out);
            },
        }
        ansi::chars_to_string(out)
    }
}

} // verus!
