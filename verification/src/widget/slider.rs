//! A slider: a horizontal track with a handle at a position given in
//! thousandths of the track width.

use vstd::prelude::*;

use crate::buffer::cell_has_stroke;
use crate::buffer::grid_of;
use crate::buffer::Buffer;
use crate::canvas;
use crate::canvas::canvas_cells;
use crate::canvas::coord_in;
use crate::event::Event;
use crate::event::Msg;
use crate::layout::Rect;
use crate::style::Dimension;
use crate::style::FlexDirection;
use crate::style::Style;
use crate::symbol;

verus! {

/// A slider widget.  `value` is the handle position in thousandths of
/// the track, from 0 to 1000.
#[derive(Clone, Debug)]
pub struct Slider {
    pub value: u16,
    pub width: Option<usize>,
    pub id: Option<String>,
    pub use_thick_track: bool,
}

impl Slider {
    /// The preferences this widget reports: the full parent width, one
    /// row.
    pub open spec fn spec_style(self) -> Style {
        Style {
            width: Dimension::Percent(100),
            height: Dimension::Points(1),
            min_width: Dimension::Percent(100),
            min_height: Dimension::Points(1),
            flex_direction: FlexDirection::Row,
        }
    }

    /// The handle's column offset within the track for a given width.
    pub open spec fn spec_handle_offset(value: u16, width: usize) -> int {
        (value * width) / 1000
    }

    /// The new value after a press at column `px`: the offset into the
    /// track as thousandths of the width, clamped to 0..=1000.
    pub open spec fn spec_value_at(rect: Rect, px: int) -> u16 {
        if rect.width == 0 || px < rect.x {
            0u16
        } else if (px - rect.x) * 1000 / rect.width as int > 1000 {
            1000u16
        } else {
            (((px - rect.x) * 1000) / rect.width as int) as u16
        }
    }

    /// Create a new slider with a value in thousandths.
    pub fn new(value: u16) -> (s: Slider)
        requires
            value <= 1000,
        ensures
            s.value == value,
            s.width is None,
            s.id is None,
            !s.use_thick_track,
    {
        Slider { value, width: None, id: None, use_thick_track: false }
    }

    /// Set the value in thousandths.
    pub fn set_value(&mut self, value: u16)
        requires
            value <= 1000,
        ensures
            final(self).value == value,
            final(self).width == old(self).width,
            final(self).id == old(self).id,
            final(self).use_thick_track == old(self).use_thick_track,
    {
        self.value = value;
    }

    /// Choose a thick track.
    pub fn use_thick_track(&mut self, use_thick: bool)
        ensures
            final(self).use_thick_track == use_thick,
            final(self).value == old(self).value,
            final(self).width == old(self).width,
            final(self).id == old(self).id,
    {
        self.use_thick_track = use_thick;
    }

    /// Declare a preferred width; the height is always one row.
    pub fn set_size(&mut self, width: Option<usize>, _height: Option<usize>)
        ensures
            final(self).width == width,
            final(self).value == old(self).value,
            final(self).id == old(self).id,
            final(self).use_thick_track == old(self).use_thick_track,
    {
        self.width = width;
    }

    /// The preferences handed to the layout solver.
    pub fn style(&self) -> (s: Style)
        ensures
            s == self.spec_style(),
    {
        Style {
            width: Dimension::Percent(100),
            height: Dimension::Points(1),
            min_width: Dimension::Percent(100),
            min_height: Dimension::Points(1),
            flex_direction: FlexDirection::Row,
        }
    }

    /// Draw the track along the widget's row and the handle at the
    /// value's position.  Cells off that row, or outside the track and
    /// handle columns, are unchanged; every track cell the handle does
    /// not cover holds a line glyph.
    pub fn draw(&self, buf: &mut Buffer, rect: Rect)
        requires
            self.value <= 1000,
        ensures
            grid_of(*final(buf)).len() == grid_of(*old(buf)).len(),
            forall|j: int|
                0 <= j < grid_of(*old(buf)).len() ==> (#[trigger] grid_of(*final(buf))[j]).len()
                    == grid_of(*old(buf))[j].len(),
            forall|j: int, i: int|
                0 <= j < grid_of(*old(buf)).len() && 0 <= i < grid_of(*old(buf))[j].len() && !(j
                    == rect.y && rect.x <= i <= rect.x + rect.width) ==> #[trigger] grid_of(
                    *final(buf),
                )[j][i] == grid_of(*old(buf))[j][i],
            rect.x + Slider::spec_handle_offset(self.value, rect.width) <= usize::MAX ==> (forall|
                j: int,
                i: int,
            |
                0 <= j < grid_of(*old(buf)).len() && 0 <= i < grid_of(*old(buf))[j].len() && j
                    == rect.y && i == rect.x + Slider::spec_handle_offset(self.value, rect.width)
                    ==> (#[trigger] grid_of(*final(buf))[j][i]).spec_is_plain(
                    symbol::MIDDLE_BLOCK,
                )),
            (rect.width >= 3 && rect.x + rect.width <= usize::MAX) ==> (forall|j: int, i: int|
                0 <= j < grid_of(*old(buf)).len() && 0 <= i < grid_of(*old(buf))[j].len() && j
                    == rect.y && rect.x + 1 <= i <= rect.x + rect.width - 2 && i != rect.x
                    + Slider::spec_handle_offset(self.value, rect.width) ==> cell_has_stroke(
                    #[trigger] grid_of(*final(buf))[j][i],
                )),
    {
        if rect.width >= 3 && rect.x <= usize::MAX - rect.width {
            let mut cv = canvas::new_canvas();
            canvas::draw_horizontal_line(
                &mut cv,
                rect.x + 1,
                rect.x + rect.width - 2,
                rect.y,
                self.use_thick_track,
            );
            proof {
                assert forall|i: int, j: int|
                    coord_in(canvas_cells(cv), i, j) implies (j == rect.y && rect.x <= i <= rect.x
                    + rect.width) by {
                    let k = choose|k: int|
                        0 <= k < canvas_cells(cv).len() && canvas_cells(cv)[k].0 == i
                            && canvas_cells(cv)[k].1 == j;
                    assert(canvas_cells(cv)[k].0 == i);
                }
            }
            buf.write_canvas(&cv);
            proof {
                assert forall|j: int, i: int|
                    0 <= j < grid_of(*old(buf)).len() && 0 <= i < grid_of(*old(buf))[j].len() && j
                        == rect.y && rect.x + 1 <= i <= rect.x + rect.width - 2 implies
                    cell_has_stroke(#[trigger] grid_of(*buf)[j][i]) by {
                    assert(canvas::stroke_at(canvas_cells(cv), i, j));
                    let k = choose|k: int|
                        0 <= k < canvas_cells(cv).len() && canvas_cells(cv)[k].0 == i
                            && canvas_cells(cv)[k].1 == j && canvas_cells(cv)[k].2 != ' ';
                    assert(grid_of(*buf)[j][i].spec_is_plain(canvas_cells(cv)[k].2));
                }
            }
        }
        proof {
            assert((self.value as u128) * (rect.width as u128) <= 1000u128 * (u64::MAX as u128))
                by (nonlinear_arith)
                requires
                    self.value <= 1000,
                    rect.width as u128 <= u64::MAX as u128,
            ;
        }
        let prod: u128 = (self.value as u128) * (rect.width as u128);
        let off128: u128 = prod / 1000;
        proof {
            assert(off128 <= rect.width as u128) by (nonlinear_arith)
                requires
                    off128 == (self.value as u128) * (rect.width as u128) / 1000,
                    self.value <= 1000,
            ;
        }
        let off: usize = off128 as usize;
        if rect.x <= usize::MAX - off {
            buf.set_symbol(rect.x + off, rect.y, symbol::MIDDLE_BLOCK);
        }
    }

    /// React to an event: a pointer press moves the handle to the
    /// pressed column; no event makes the slider report a message.
    pub fn process_event(&mut self, event: &Event, rect: Rect) -> (msgs: Vec<Msg>)
        ensures
            msgs@ == Seq::<Msg>::empty(),
            match event {
                Event::MouseDown(_b, px, _y, _m) => {
                    &&& final(self).value == Slider::spec_value_at(rect, *px as int)
                    &&& final(self).value <= 1000
                    &&& final(self).width == old(self).width
                    &&& final(self).id == old(self).id
                    &&& final(self).use_thick_track == old(self).use_thick_track
                },
                _ => *final(self) == *old(self),
            },
    {
        match event {
            Event::MouseDown(_b, px, _y, _m) => {
                let px = *px as usize;
                let v: u16 = if rect.width == 0 || px < rect.x {
                    0
                } else {
                    let num: u64 = ((px - rect.x) as u64) * 1000;
                    let q: u64 = num / (rect.width as u64);
                    if q > 1000 {
                        1000
                    } else {
                        q as u16
                    }
                };
                self.value = v;
                Vec::new()
            },
            _ => Vec::new(),
        }
    }

    /// Set the stable identifier.
    pub fn set_id(&mut self, id: String)
        ensures
            final(self).id matches Some(s) && s@ == id@,
            final(self).value == old(self).value,
            final(self).width == old(self).width,
            final(self).use_thick_track == old(self).use_thick_track,
    {
        self.id = Some(id);
    }

    /// The stable identifier, if one was set.
    pub fn get_id(&self) -> (r: &Option<String>)
        ensures
            r == &self.id,
    {
        &self.id
    }
}

} // verus!
