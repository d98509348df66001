//! A checkbox: a togglable box with a label.

use vstd::prelude::*;

use crate::ansi;
use crate::buffer::grid_of;
use crate::buffer::Buffer;
use crate::event::Event;
use crate::event::Msg;
use crate::layout::Rect;
use crate::style::sat_add;
use crate::style::sat_add_spec;
use crate::style::Dimension;
use crate::style::Style;
use crate::symbol;

verus! {

/// A checkbox widget.
#[derive(Clone, Debug)]
pub struct Checkbox {
    pub label: String,
    pub is_checked: bool,
    pub id: Option<String>,
}

impl Checkbox {
    /// The preferences this widget reports: one row, wide enough for the
    /// box and the label.
    pub open spec fn spec_style(self) -> Style {
        Style {
            width: Dimension::Points(sat_add_spec(self.label@.len(), 3) as usize),
            height: Dimension::Points(1),
            min_width: Dimension::Points(sat_add_spec(self.label@.len(), 3) as usize),
            min_height: Dimension::Points(1),
            flex_direction: crate::style::FlexDirection::Row,
        }
    }

    /// The glyph drawn at the widget's corner.
    pub open spec fn spec_box_symbol(self) -> char {
        if self.is_checked {
            symbol::BOX_CHECKED
        } else {
            symbol::BOX_UNCHECKED
        }
    }

    /// What this widget writes at column `i`, row `j` of the buffer, given
    /// its resolved rectangle, or `None` where it writes nothing.
    pub open spec fn spec_drawn_cell(self, rect: Rect, i: int, j: int) -> Option<char> {
        if j == rect.y && i == rect.x {
            Some(self.spec_box_symbol())
        } else {
            crate::buffer::text_cell_at(self.label@, rect.x + 3, rect.y as int, i, j)
        }
    }

    /// Create a new checkbox with a label.
    pub fn new(label: String) -> (c: Checkbox)
        ensures
            c.label@ == label@,
            !c.is_checked,
            c.id is None,
    {
        Checkbox { label, is_checked: false, id: None }
    }

    /// Set the checkbox label.
    pub fn set_label(&mut self, label: String)
        ensures
            final(self).label@ == label@,
            final(self).is_checked == old(self).is_checked,
            final(self).id == old(self).id,
    {
        self.label = label;
    }

    /// Set the checked status.
    pub fn set_checked(&mut self, checked: bool)
        ensures
            final(self).is_checked == checked,
            final(self).label@ == old(self).label@,
            final(self).id == old(self).id,
    {
        self.is_checked = checked;
    }

    /// The preferences handed to the layout solver.
    pub fn style(&self) -> (s: Style)
        ensures
            s == self.spec_style(),
    {
        let w = sat_add(self.label.as_str().unicode_len(), 3);
        Style {
            width: Dimension::Points(w),
            height: Dimension::Points(1),
            min_width: Dimension::Points(w),
            min_height: Dimension::Points(1),
            flex_direction: crate::style::FlexDirection::Row,
        }
    }

    /// Draw the box and the label on one row, starting at the widget's
    /// corner.  Cells this widget does not cover are unchanged.
    pub fn draw(&self, buf: &mut Buffer, rect: Rect)
        ensures
            grid_of(*final(buf)).len() == grid_of(*old(buf)).len(),
            forall|j: int|
                0 <= j < grid_of(*old(buf)).len() ==> (#[trigger] grid_of(*final(buf))[j]).len()
                    == grid_of(*old(buf))[j].len(),
            forall|j: int, i: int|
                0 <= j < grid_of(*old(buf)).len() && 0 <= i < grid_of(*old(buf))[j].len()
                    && self.spec_drawn_cell(rect, i, j) is None ==> #[trigger] grid_of(*final(buf))[j][i] == grid_of(*old(buf))[j][i],
            forall|j: int, i: int|
                0 <= j < grid_of(*old(buf)).len() && 0 <= i < grid_of(*old(buf))[j].len() ==> (
                self.spec_drawn_cell(rect, i, j) matches Some(ch) ==> (#[trigger] grid_of(
                    *final(buf),
                )[j][i]).spec_is_plain(ch)),
    {
        buf.set_symbol(rect.x, rect.y, if self.is_checked {
            symbol::BOX_CHECKED
        } else {
            symbol::BOX_UNCHECKED
        });
        if rect.x <= usize::MAX - 3 {
            let chars = ansi::str_chars(self.label.as_str());
            buf.write_text_row(rect.x + 3, rect.y, &chars);
        }
    }

    /// React to an event: a pointer press toggles the checked state and
    /// reports the new value; every other event is ignored.
    pub fn process_event(&mut self, event: &Event) -> (msgs: Vec<Msg>)
        ensures
            match event {
                Event::MouseDown(_b, _x, _y, _m) => {
                    &&& final(self).is_checked == !old(self).is_checked
                    &&& final(self).label@ == old(self).label@
                    &&& final(self).id == old(self).id
                    &&& msgs@ == seq![Msg::InputChanged(!old(self).is_checked)]
                },
                _ => *final(self) == *old(self) && msgs@ == Seq::<Msg>::empty(),
            },
    {
        match event {
            Event::MouseDown(_b, _x, _y, _m) => {
                self.is_checked = !self.is_checked;
                let mut msgs: Vec<Msg> = Vec::new();
                msgs.push(Msg::InputChanged(self.is_checked));
                proof {
                    assert(msgs@ =~= seq![Msg::InputChanged(!old(self).is_checked)]);
                }
                msgs
            },
            _ => Vec::new(),
        }
    }

    /// Set the stable identifier.
    pub fn set_id(&mut self, id: String)
        ensures
            final(self).id matches Some(s) && s@ == id@,
            final(self).label@ == old(self).label@,
            final(self).is_checked == old(self).is_checked,
    {
        self.id = Some(id);
    }

    /// The stable identifier, if one was set.
    pub fn get_id(&self) -> (r: &Option<String>)
        ensures
            r == &self.id,
    {
        &self.id
    }
}

} // verus!
