//! A single-line text field with a border and a cursor.

use vstd::prelude::*;

use crate::ansi;
use crate::buffer::cell_has_stroke;
use crate::buffer::grid_of;
use crate::buffer::text_cell_at;
use crate::buffer::Buffer;
use crate::canvas;
use crate::canvas::canvas_cells;
use crate::canvas::coord_in;
use crate::cmd::Cmd;
use crate::event::Event;
use crate::event::KeyEvent;
use crate::event::Msg;
use crate::input_buffer::content_after;
use crate::input_buffer::cursor_after;
use crate::input_buffer::InputBuffer;
use crate::layout::Rect;
use crate::style::sat_add_spec;
use crate::style::Dimension;
use crate::style::FlexDirection;
use crate::style::Style;
use crate::widget::button::border_fits;
use crate::widget::button::on_border;

verus! {

/// A text-input widget.
#[derive(Clone, Debug)]
pub struct TextInput {
    pub input_buffer: InputBuffer,
    pub is_rounded: bool,
    pub focused: bool,
    pub width: Option<usize>,
    pub height: Option<usize>,
}

impl TextInput {
    /// The widget is well formed when its edit buffer is.
    pub open spec fn wf(self) -> bool {
        self.input_buffer.wf()
    }

    /// The preferences this widget reports: the declared size, or the
    /// full parent width and three rows.
    pub open spec fn spec_style(self) -> Style {
        Style {
            width: match self.width {
                Some(w) => Dimension::Points(w),
                None => Dimension::Percent(100),
            },
            height: match self.height {
                Some(h) => Dimension::Points(h),
                None => Dimension::Points(3),
            },
            min_width: Dimension::Undefined,
            min_height: Dimension::Undefined,
            flex_direction: FlexDirection::Row,
        }
    }

    /// The characters shown inside the border: the content, clipped to
    /// the inner width.
    pub open spec fn spec_visible_text(self, rect: Rect) -> Seq<char> {
        if rect.width < 2 {
            Seq::empty()
        } else if self.input_buffer.content@.len() <= rect.width - 2 {
            self.input_buffer.content@
        } else {
            self.input_buffer.content@.take(rect.width - 2)
        }
    }

    /// What the visible text writes at `(i, j)`, where it fits on the
    /// machine's coordinate range.
    pub open spec fn spec_text_cell(self, rect: Rect, i: int, j: int) -> Option<char> {
        if rect.y + 1 > usize::MAX {
            None
        } else {
            text_cell_at(self.spec_visible_text(rect), rect.x + 1, rect.y + 1, i, j)
        }
    }

    /// The deferred commands a draw emits: nothing unfocused; focused, it
    /// shows the cursor and moves it to the edit position, one cell
    /// inside the corner.
    pub open spec fn spec_draw_cmds(self, rect: Rect) -> Seq<Cmd> {
        if self.focused {
            seq![
                Cmd::ShowCursor,
                Cmd::MoveTo(
                    sat_add_spec(
                        sat_add_spec(rect.x as nat, self.input_buffer.cursor as nat),
                        1,
                    ) as usize,
                    sat_add_spec(rect.y as nat, 1) as usize,
                ),
            ]
        } else {
            Seq::empty()
        }
    }

    /// Create a text input holding `value`.
    pub fn new(value: &str) -> (t: TextInput)
        ensures
            t.wf(),
            t.input_buffer.content@ == value@,
            !t.is_rounded,
            !t.focused,
            t.width is None,
            t.height is None,
    {
        TextInput {
            input_buffer: InputBuffer::new_with_value(value),
            is_rounded: false,
            focused: false,
            width: None,
            height: None,
        }
    }

    /// Hand one key press to the edit buffer.
    pub fn process_key(&mut self, key_event: KeyEvent)
        requires
            old(self).wf(),
        ensures
            final(self).wf(),
            final(self).is_rounded == old(self).is_rounded,
            final(self).focused == old(self).focused,
            final(self).width == old(self).width,
            final(self).height == old(self).height,
    {
        self.input_buffer.process_key_event(key_event);
    }

    /// Replace the text; the cursor moves to its end.
    pub fn set_value(&mut self, value: &str)
        ensures
            final(self).wf(),
            final(self).input_buffer.content@ == value@,
            final(self).is_rounded == old(self).is_rounded,
            final(self).focused == old(self).focused,
            final(self).width == old(self).width,
            final(self).height == old(self).height,
    {
        self.input_buffer = InputBuffer::new_with_value(value);
    }

    /// The current text.
    pub fn get_value(&self) -> (s: String)
        ensures
            s@ == self.input_buffer.content@,
    {
        self.input_buffer.get_content()
    }

    /// Choose rounded corners for the border.
    pub fn set_rounded(&mut self, rounded: bool)
        ensures
            final(self).is_rounded == rounded,
            final(self).input_buffer == old(self).input_buffer,
            final(self).focused == old(self).focused,
            final(self).width == old(self).width,
            final(self).height == old(self).height,
    {
        self.is_rounded = rounded;
    }

    /// Take or give up the input focus.
    pub fn set_focused(&mut self, focused: bool)
        ensures
            final(self).focused == focused,
            final(self).input_buffer == old(self).input_buffer,
            final(self).is_rounded == old(self).is_rounded,
            final(self).width == old(self).width,
            final(self).height == old(self).height,
    {
        self.focused = focused;
    }

    /// Declare a preferred size.
    pub fn set_size(&mut self, width: Option<usize>, height: Option<usize>)
        ensures
            final(self).width == width,
            final(self).height == height,
            final(self).input_buffer == old(self).input_buffer,
            final(self).is_rounded == old(self).is_rounded,
            final(self).focused == old(self).focused,
    {
        self.width = width;
        self.height = height;
    }

    /// The preferences handed to the layout solver.
    pub fn style(&self) -> (s: Style)
        ensures
            s == self.spec_style(),
    {
        Style {
            width: match self.width {
                Some(w) => Dimension::Points(w),
                None => Dimension::Percent(100),
            },
            height: match self.height {
                Some(h) => Dimension::Points(h),
                None => Dimension::Points(3),
            },
            min_width: Dimension::Undefined,
            min_height: Dimension::Undefined,
            flex_direction: FlexDirection::Row,
        }
    }

    /// Draw the border (thick while focused, else thin, rounded on
    /// request) and the clipped text one cell inside the corner.  The
    /// returned deferred commands place the terminal cursor at the edit
    /// position when focused.  Cells neither on the border nor on the
    /// text row are unchanged; every border cell the text does not cover
    /// holds a border glyph.
    pub fn draw(&self, buf: &mut Buffer, rect: Rect) -> (cmds: Vec<Cmd>)
        ensures
            grid_of(*final(buf)).len() == grid_of(*old(buf)).len(),
            forall|j: int|
                0 <= j < grid_of(*old(buf)).len() ==> (#[trigger] grid_of(*final(buf))[j]).len()
                    == grid_of(*old(buf))[j].len(),
            forall|j: int, i: int|
                0 <= j < grid_of(*old(buf)).len() && 0 <= i < grid_of(*old(buf))[j].len()
                    && !on_border(rect, i, j) && self.spec_text_cell(rect, i, j) is None
                    ==> #[trigger] grid_of(*final(buf))[j][i] == grid_of(*old(buf))[j][i],
            forall|j: int, i: int|
                0 <= j < grid_of(*old(buf)).len() && 0 <= i < grid_of(*old(buf))[j].len() ==> (
                self.spec_text_cell(rect, i, j) matches Some(ch) ==> (#[trigger] grid_of(
                    *final(buf),
                )[j][i]).spec_is_plain(ch)),
            border_fits(rect) ==> (forall|j: int, i: int|
                0 <= j < grid_of(*old(buf)).len() && 0 <= i < grid_of(*old(buf))[j].len()
                    && on_border(rect, i, j) && self.spec_text_cell(rect, i, j) is None
                    ==> cell_has_stroke(#[trigger] grid_of(*final(buf))[j][i])),
            cmds@ == self.spec_draw_cmds(rect),
    {
        if rect.width > 0 && rect.height > 0 && rect.x <= usize::MAX - rect.width && rect.y
            <= usize::MAX - rect.height {
            let mut cv = canvas::new_canvas();
            canvas::draw_rect(
                &mut cv,
                rect.x,
                rect.y,
                rect.x + rect.width - 1,
                rect.y + rect.height - 1,
                self.focused,
                self.is_rounded,
            );
            proof {
                assert forall|i: int, j: int|
                    coord_in(canvas_cells(cv), i, j) implies on_border(rect, i, j) by {
                    let k = choose|k: int|
                        0 <= k < canvas_cells(cv).len() && canvas_cells(cv)[k].0 == i
                            && canvas_cells(cv)[k].1 == j;
                    assert(canvas_cells(cv)[k].0 == i);
                }
            }
            buf.write_canvas(&cv);
            proof {
                assert forall|j: int, i: int|
                    0 <= j < grid_of(*old(buf)).len() && 0 <= i < grid_of(*old(buf))[j].len()
                        && on_border(rect, i, j) implies cell_has_stroke(
                    #[trigger] grid_of(*buf)[j][i],
                ) by {
                    assert(canvas::stroke_at(canvas_cells(cv), i, j));
                    let k = choose|k: int|
                        0 <= k < canvas_cells(cv).len() && canvas_cells(cv)[k].0 == i
                            && canvas_cells(cv)[k].1 == j && canvas_cells(cv)[k].2 != ' ';
                    assert(grid_of(*buf)[j][i].spec_is_plain(canvas_cells(cv)[k].2));
                }
            }
        }
        if rect.x <= usize::MAX - 1 && rect.y <= usize::MAX - 1 {
            let mut chars = ansi::str_chars(self.input_buffer.get_content().as_str());
            if rect.width >= 2 {
                if chars.len() > rect.width - 2 {
                    chars.truncate(rect.width - 2);
                }
            } else {
                chars.truncate(0);
            }
            proof {
                assert(chars@ =~= self.spec_visible_text(rect));
            }
            buf.write_text_row(rect.x + 1, rect.y + 1, &chars);
        }
        if self.focused {
            let cursor_loc = self.input_buffer.get_cursor_location();
            let cx = crate::style::sat_add(crate::style::sat_add(rect.x, cursor_loc), 1);
            let cy = crate::style::sat_add(rect.y, 1);
            let mut cmds: Vec<Cmd> = Vec::new();
            cmds.push(Cmd::ShowCursor);
            cmds.push(Cmd::MoveTo(cx, cy));
            proof {
                assert(cmds@ =~= self.spec_draw_cmds(rect));
            }
            cmds
        } else {
            Vec::new()
        }
    }

    /// React to an event: a key press edits the text; a pointer press
    /// moves the cursor to the pressed column, clamped into the text.
    pub fn process_event(&mut self, event: &Event, rect: Rect) -> (msgs: Vec<Msg>)
        requires
            old(self).wf(),
        ensures
            final(self).wf(),
            msgs@ == Seq::<Msg>::empty(),
            final(self).is_rounded == old(self).is_rounded,
            final(self).focused == old(self).focused,
            final(self).width == old(self).width,
            final(self).height == old(self).height,
            match event {
                Event::Key(ke) => {
                    &&& final(self).input_buffer.content@ == content_after(
                        old(self).input_buffer.content@,
                        old(self).input_buffer.cursor as int,
                        ke.code,
                    )
                    &&& final(self).input_buffer.cursor as int == cursor_after(
                        old(self).input_buffer.content@,
                        old(self).input_buffer.cursor as int,
                        ke.code,
                    )
                },
                Event::MouseDown(_b, px, _y, _m) => {
                    &&& final(self).input_buffer.content@ == old(self).input_buffer.content@
                    &&& {
                        let want = if *px as int >= rect.x {
                            *px - rect.x
                        } else {
                            old(self).input_buffer.content@.len() as int
                        };
                        final(self).input_buffer.cursor as int == if want <= old(
                            self,
                        ).input_buffer.content@.len() {
                            want
                        } else {
                            old(self).input_buffer.content@.len() as int
                        }
                    }
                },
                _ => *final(self) == *old(self),
            },
    {
        match event {
            Event::Key(ke) => {
                self.input_buffer.process_key_event(*ke);
                Vec::new()
            },
            Event::MouseDown(_b, px, _y, _m) => {
                let px = *px as usize;
                if px >= rect.x {
                    self.input_buffer.set_cursor_loc(px - rect.x);
                } else {
                    let end = self.input_buffer.content.len();
                    self.input_buffer.set_cursor_loc(end);
                }
                Vec::new()
            },
            _ => Vec::new(),
        }
    }
}

} // verus!
