//! A push button: a bordered box with a label.

use vstd::prelude::*;

use crate::ansi;
use crate::buffer::cell_has_stroke;
use crate::buffer::grid_of;
use crate::buffer::text_cell_at;
use crate::buffer::Buffer;
use crate::canvas;
use crate::canvas::canvas_cells;
use crate::canvas::coord_in;
use crate::layout::Rect;
use crate::style::sat_add;
use crate::style::sat_add_spec;
use crate::style::Dimension;
use crate::style::FlexDirection;
use crate::style::Style;

verus! {

/// A button widget.
#[derive(Clone, Debug)]
pub struct Button {
    pub label: String,
    pub is_rounded: bool,
    pub width: Option<usize>,
    pub height: Option<usize>,
}

/// What the label writes at `(i, j)`: its characters one cell inside
/// the corner, where they fit on the machine's coordinate range.
pub open spec fn label_cell_at(label: Seq<char>, rect: Rect, i: int, j: int) -> Option<char> {
    if rect.y + 1 > usize::MAX {
        None
    } else {
        crate::buffer::text_cell_at(label, rect.x + 1, rect.y + 1, i, j)
    }
}

/// Whether `(i, j)` lies on the border of `rect`.
pub open spec fn on_border(rect: Rect, i: int, j: int) -> bool {
    &&& rect.width > 0 && rect.height > 0
    &&& rect.x <= i < rect.x + rect.width
    &&& rect.y <= j < rect.y + rect.height
    &&& (i == rect.x || i == rect.x + rect.width - 1 || j == rect.y || j == rect.y + rect.height
        - 1)
}

/// Whether the border of `rect` is drawn at all: a degenerate or
/// machine-overflowing rectangle is skipped.
pub open spec fn border_fits(rect: Rect) -> bool {
    &&& rect.width > 0 && rect.height > 0
    &&& rect.x + rect.width <= usize::MAX
    &&& rect.y + rect.height <= usize::MAX
}

impl Button {
    /// The preferences this widget reports: the declared size, or room
    /// for the label in a three-row box.
    pub open spec fn spec_style(self) -> Style {
        Style {
            width: match self.width {
                Some(w) => Dimension::Points(w),
                None => Dimension::Points(sat_add_spec(self.label@.len(), 2) as usize),
            },
            height: match self.height {
                Some(h) => Dimension::Points(h),
                None => Dimension::Points(3),
            },
            min_width: match self.width {
                Some(w) => Dimension::Points(w),
                None => Dimension::Undefined,
            },
            min_height: match self.height {
                Some(h) => Dimension::Points(h),
                None => Dimension::Undefined,
            },
            flex_direction: FlexDirection::Row,
        }
    }

    /// Create a new button with a label.
    pub fn new(label: &str) -> (b: Button)
        ensures
            b.label@ == label@,
            !b.is_rounded,
            b.width is None,
            b.height is None,
    {
        Button { label: label.to_owned(), is_rounded: false, width: None, height: None }
    }

    /// Set the label.
    pub fn set_label(&mut self, label: &str)
        ensures
            final(self).label@ == label@,
            final(self).is_rounded == old(self).is_rounded,
            final(self).width == old(self).width,
            final(self).height == old(self).height,
    {
        self.label = label.to_owned();
    }

    /// Choose rounded corners for the border.
    pub fn set_rounded(&mut self, rounded: bool)
        ensures
            final(self).is_rounded == rounded,
            final(self).label@ == old(self).label@,
            final(self).width == old(self).width,
            final(self).height == old(self).height,
    {
        self.is_rounded = rounded;
    }

    /// Declare a preferred size.
    pub fn set_size(&mut self, width: Option<usize>, height: Option<usize>)
        ensures
            final(self).width == width,
            final(self).height == height,
            final(self).label@ == old(self).label@,
            final(self).is_rounded == old(self).is_rounded,
    {
        self.width = width;
        self.height = height;
    }

    /// The preferences handed to the layout solver.
    pub fn style(&self) -> (s: Style)
        ensures
            s == self.spec_style(),
    {
        Style {
            width: match self.width {
                Some(w) => Dimension::Points(w),
                None => Dimension::Points(sat_add(self.label.as_str().unicode_len(), 2)),
            },
            height: match self.height {
                Some(h) => Dimension::Points(h),
                None => Dimension::Points(3),
            },
            min_width: match self.width {
                Some(w) => Dimension::Points(w),
                None => Dimension::Undefined,
            },
            min_height: match self.height {
                Some(h) => Dimension::Points(h),
                None => Dimension::Undefined,
            },
            flex_direction: FlexDirection::Row,
        }
    }

    /// Draw the border and the label one cell inside the corner.  Cells
    /// neither on the border nor on the label row are unchanged; the
    /// label's cells show its characters, and every other border cell
    /// holds a border glyph.
    pub fn draw(&self, buf: &mut Buffer, rect: Rect)
        ensures
            grid_of(*final(buf)).len() == grid_of(*old(buf)).len(),
            forall|j: int|
                0 <= j < grid_of(*old(buf)).len() ==> (#[trigger] grid_of(*final(buf))[j]).len()
                    == grid_of(*old(buf))[j].len(),
            forall|j: int, i: int|
                0 <= j < grid_of(*old(buf)).len() && 0 <= i < grid_of(*old(buf))[j].len()
                    && !on_border(rect, i, j) && label_cell_at(self.label@, rect, i, j) is None
                    ==> #[trigger] grid_of(*final(buf))[j][i] == grid_of(*old(buf))[j][i],
            forall|j: int, i: int|
                0 <= j < grid_of(*old(buf)).len() && 0 <= i < grid_of(*old(buf))[j].len() ==> (
                label_cell_at(self.label@, rect, i, j) matches Some(ch) ==> (#[trigger] grid_of(
                    *final(buf),
                )[j][i]).spec_is_plain(ch)),
            border_fits(rect) ==> (forall|j: int, i: int|
                0 <= j < grid_of(*old(buf)).len() && 0 <= i < grid_of(*old(buf))[j].len()
                    && on_border(rect, i, j) && label_cell_at(self.label@, rect, i, j) is None
                    ==> cell_has_stroke(#[trigger] grid_of(*final(buf))[j][i])),
    {
        if rect.width > 0 && rect.height > 0 && rect.x <= usize::MAX - rect.width && rect.y
            <= usize::MAX - rect.height {
            let mut cv = canvas::new_canvas();
            canvas::draw_rect(
                &mut cv,
                rect.x,
                rect.y,
                rect.x + rect.width - 1,
                rect.y + rect.height - 1,
                false,
                self.is_rounded,
            );
            proof {
                assert forall|i: int, j: int|
                    coord_in(canvas_cells(cv), i, j) implies on_border(rect, i, j) by {
                    let k = choose|k: int|
                        0 <= k < canvas_cells(cv).len() && canvas_cells(cv)[k].0 == i
                            && canvas_cells(cv)[k].1 == j;
                    assert(canvas_cells(cv)[k].0 == i);
                }
            }
            buf.write_canvas(&cv);
            proof {
                assert forall|j: int, i: int|
                    0 <= j < grid_of(*old(buf)).len() && 0 <= i < grid_of(*old(buf))[j].len()
                        && on_border(rect, i, j) implies cell_has_stroke(
                    #[trigger] grid_of(*buf)[j][i],
                ) by {
                    assert(canvas::stroke_at(canvas_cells(cv), i, j));
                    let k = choose|k: int|
                        0 <= k < canvas_cells(cv).len() && canvas_cells(cv)[k].0 == i
                            && canvas_cells(cv)[k].1 == j && canvas_cells(cv)[k].2 != ' ';
                    assert(grid_of(*buf)[j][i].spec_is_plain(canvas_cells(cv)[k].2));
                }
            }
        }
        if rect.x <= usize::MAX - 1 && rect.y <= usize::MAX - 1 {
            let chars = ansi::str_chars(self.label.as_str());
            buf.write_text_row(rect.x + 1, rect.y + 1, &chars);
        }
    }
}

} // verus!
