//! The editable line of text behind a text-input widget: its characters
//! and a cursor position inside them.

use vstd::prelude::*;

use crate::ansi;
use crate::event::KeyCode;
use crate::event::KeyEvent;

verus! {

/// An editable line of text with a cursor.  The cursor sits between
/// characters: position 0 is before the first, `content.len()` after the
/// last.
#[derive(Clone, Debug)]
pub struct InputBuffer {
    pub content: Vec<char>,
    pub cursor: usize,
}

/// The text after one key press at cursor position `cursor`.
pub open spec fn content_after(content: Seq<char>, cursor: int, code: KeyCode) -> Seq<char> {
    match code {
        KeyCode::Char(ch) => content.insert(cursor, ch),
        KeyCode::Backspace => if cursor > 0 {
            content.remove(cursor - 1)
        } else {
            content
        },
        KeyCode::Delete => if cursor < content.len() {
            content.remove(cursor)
        } else {
            content
        },
        _ => content,
    }
}

/// The cursor after one key press at cursor position `cursor`.
pub open spec fn cursor_after(content: Seq<char>, cursor: int, code: KeyCode) -> int {
    match code {
        KeyCode::Char(_ch) => cursor + 1,
        KeyCode::Backspace => if cursor > 0 {
            cursor - 1
        } else {
            0
        },
        KeyCode::Delete => cursor,
        KeyCode::Left => if cursor > 0 {
            cursor - 1
        } else {
            0
        },
        KeyCode::Right => if cursor < content.len() {
            cursor + 1
        } else {
            cursor
        },
        KeyCode::Home => 0,
        KeyCode::End => content.len() as int,
        _ => cursor,
    }
}

impl InputBuffer {
    /// The cursor never passes the end of the content.
    pub open spec fn wf(self) -> bool {
        self.cursor <= self.content@.len()
    }

    /// An empty line with the cursor at the start.
    pub fn new() -> (b: InputBuffer)
        ensures
            b.wf(),
            b.content@ == Seq::<char>::empty(),
            b.cursor == 0,
    {
        InputBuffer { content: Vec::new(), cursor: 0 }
    }

    /// A line holding `value`, with the cursor after its last character.
    pub fn new_with_value(value: &str) -> (b: InputBuffer)
        ensures
            b.wf(),
            b.content@ == value@,
            b.cursor == value@.len(),
    {
        let content = ansi::str_chars(value);
        let cursor = content.len();
        InputBuffer { content, cursor }
    }

    /// The text as a string.
    pub fn get_content(&self) -> (s: String)
        ensures
            s@ == self.content@,
    {
        let copy = self.content.clone();
        ansi::chars_to_string(copy)
    }

    /// The cursor position, counted in characters from the start.
    pub fn get_cursor_location(&self) -> (c: usize)
        ensures
            c == self.cursor,
    {
        self.cursor
    }

    /// Move the cursor to `loc`, clamped to the end of the content.
    pub fn set_cursor_loc(&mut self, loc: usize)
        ensures
            final(self).content@ == old(self).content@,
            final(self).cursor == if loc as int <= old(self).content@.len() {
                loc as int
            } else {
                old(self).content@.len() as int
            },
            final(self).wf(),
    {
        if loc <= self.content.len() {
            self.cursor = loc;
        } else {
            self.cursor = self.content.len();
        }
    }

    /// React to one key press: printable characters are inserted at the
    /// cursor; backspace deletes before it, delete at it; the arrow, home
    /// and end keys move it; everything else is ignored.
    pub fn process_key_event(&mut self, key_event: KeyEvent)
        requires
            old(self).wf(),
        ensures
            final(self).wf(),
            final(self).content@ == content_after(
                old(self).content@,
                old(self).cursor as int,
                key_event.code,
            ),
            final(self).cursor as int == cursor_after(
                old(self).content@,
                old(self).cursor as int,
                key_event.code,
            ),
    {
        match key_event.code {
            KeyCode::Char(ch) => {
                self.content.insert(self.cursor, ch);
                let n: usize = self.content.len();
                assert(self.cursor < n);
                self.cursor = self.cursor + 1;
            },
            KeyCode::Backspace => {
                if self.cursor > 0 {
                    self.cursor = self.cursor - 1;
                    self.content.remove(self.cursor);
                }
            },
            KeyCode::Delete => {
                if self.cursor < self.content.len() {
                    self.content.remove(self.cursor);
                }
            },
            KeyCode::Left => {
                if self.cursor > 0 {
                    self.cursor = self.cursor - 1;
                }
            },
            KeyCode::Right => {
                if self.cursor < self.content.len() {
                    self.cursor = self.cursor + 1;
                }
            },
            KeyCode::Home => {
                self.cursor = 0;
            },
            KeyCode::End => {
                self.cursor = self.content.len();
            },
            _ => {},
        }
    }
}

} // verus!
