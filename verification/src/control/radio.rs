//! A radio button: a round indicator with a label.

use vstd::prelude::*;

use crate::ansi;
use crate::buffer::grid_of;
use crate::buffer::text_cell_at;
use crate::buffer::Buffer;
use crate::layout::Rect;
use crate::style::sat_add;
use crate::style::sat_add_spec;
use crate::style::Dimension;
use crate::style::FlexDirection;
use crate::style::Style;
use crate::symbol;

verus! {

/// A radio button widget.
#[derive(Clone, Debug, Default)]
pub struct Radio {
    pub label: String,
    pub is_checked: bool,
}

impl Radio {
    /// The preferences this widget reports: one row, wide enough for the
    /// indicator and the label.
    pub open spec fn spec_style(self) -> Style {
        Style {
            width: Dimension::Points(sat_add_spec(self.label@.len(), 3) as usize),
            height: Dimension::Points(1),
            min_width: Dimension::Undefined,
            min_height: Dimension::Undefined,
            flex_direction: FlexDirection::Row,
        }
    }

    /// The indicator glyph.
    pub open spec fn spec_radio_symbol(self) -> char {
        if self.is_checked {
            symbol::RADIO_CHECKED
        } else {
            symbol::RADIO_UNCHECKED
        }
    }

    /// The label's starting column is pushed one cell right when checked.
    pub open spec fn spec_label_start(self, rect: Rect) -> int {
        rect.x + 3 + (if self.is_checked {
            1int
        } else {
            0int
        })
    }

    /// What this widget writes at `(i, j)`: the indicator one cell inside
    /// its corner, and the label beside it, both one row down.
    pub open spec fn spec_drawn_cell(self, rect: Rect, i: int, j: int) -> Option<char> {
        if rect.y + 1 > usize::MAX {
            None
        } else if j == rect.y + 1 && i == rect.x + 1 && rect.x + 1 <= usize::MAX {
            Some(self.spec_radio_symbol())
        } else {
            text_cell_at(self.label@, self.spec_label_start(rect), rect.y + 1, i, j)
        }
    }

    /// Create a new radio button with a label.
    pub fn new(label: &str) -> (r: Radio)
        ensures
            r.label@ == label@,
            !r.is_checked,
    {
        Radio { label: label.to_owned(), is_checked: false }
    }

    /// Set the label.
    pub fn set_label(&mut self, label: &str)
        ensures
            final(self).label@ == label@,
            final(self).is_checked == old(self).is_checked,
    {
        self.label = label.to_owned();
    }

    /// Set the checked status.
    pub fn set_checked(&mut self, checked: bool)
        ensures
            final(self).is_checked == checked,
            final(self).label@ == old(self).label@,
    {
        self.is_checked = checked;
    }

    /// The preferences handed to the layout solver.
    pub fn style(&self) -> (s: Style)
        ensures
            s == self.spec_style(),
    {
        let w = sat_add(self.label.as_str().unicode_len(), 3);
        Style {
            width: Dimension::Points(w),
            height: Dimension::Points(1),
            min_width: Dimension::Undefined,
            min_height: Dimension::Undefined,
            flex_direction: FlexDirection::Row,
        }
    }

    /// Draw the indicator and the label, one row below the widget's
    /// corner.  Cells this widget does not cover are unchanged.
    pub fn draw(&self, buf: &mut Buffer, rect: Rect)
        ensures
            grid_of(*final(buf)).len() == grid_of(*old(buf)).len(),
            forall|j: int|
                0 <= j < grid_of(*old(buf)).len() ==> (#[trigger] grid_of(*final(buf))[j]).len()
                    == grid_of(*old(buf))[j].len(),
            forall|j: int, i: int|
                0 <= j < grid_of(*old(buf)).len() && 0 <= i < grid_of(*old(buf))[j].len()
                    && self.spec_drawn_cell(rect, i, j) is None ==> #[trigger] grid_of(*final(buf))[j][i] == grid_of(*old(buf))[j][i],
            forall|j: int, i: int|
                0 <= j < grid_of(*old(buf)).len() && 0 <= i < grid_of(*old(buf))[j].len() ==> (
                self.spec_drawn_cell(rect, i, j) matches Some(ch) ==> (#[trigger] grid_of(
                    *final(buf),
                )[j][i]).spec_is_plain(ch)),
    {
        if rect.y <= usize::MAX - 1 {
            let row = rect.y + 1;
            let off: usize = if self.is_checked {
                1
            } else {
                0
            };
            let limit = usize::MAX - 3 - off;
            if rect.x <= limit {
                let chars = ansi::str_chars(self.label.as_str());
                buf.write_text_row(rect.x + 3 + off, row, &chars);
            }
            if rect.x <= usize::MAX - 1 {
                buf.set_symbol(rect.x + 1, row, if self.is_checked {
                    symbol::RADIO_CHECKED
                } else {
                    symbol::RADIO_UNCHECKED
                });
            }
        }
    }
}

} // verus!
