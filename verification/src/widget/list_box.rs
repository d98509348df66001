//! A list box: a bordered box showing one item per divided row.

use vstd::prelude::*;

use crate::ansi;
use crate::buffer::cell_has_stroke;
use crate::buffer::text_cell_at;
use crate::buffer::grid_of;
use crate::buffer::Buffer;
use crate::canvas;
use crate::canvas::canvas_cells;
use crate::canvas::coord_in;
use crate::event::Msg;
use crate::layout::Rect;
use crate::style::Dimension;
use crate::style::FlexDirection;
use crate::style::Style;
use crate::widget::button::border_fits;
use crate::widget::button::on_border;

verus! {

/// A list-box widget.
#[derive(Clone, Debug)]
pub struct ListBox {
    pub list: Vec<String>,
    pub width: Option<usize>,
    pub height: Option<usize>,
    pub use_divider: bool,
    pub id: Option<String>,
}

impl ListBox {
    /// The preferences this widget reports: the declared size, or the
    /// full parent extent.
    pub open spec fn spec_style(self) -> Style {
        Style {
            width: match self.width {
                Some(w) => Dimension::Points(w),
                None => Dimension::Percent(100),
            },
            height: match self.height {
                Some(h) => Dimension::Points(h),
                None => Dimension::Percent(100),
            },
            min_width: match self.width {
                Some(w) => Dimension::Points(w),
                None => Dimension::Auto,
            },
            min_height: match self.height {
                Some(h) => Dimension::Points(h),
                None => Dimension::Points(1),
            },
            flex_direction: FlexDirection::Row,
        }
    }

    /// The rows this widget's items and dividers may touch: everything
    /// from one row below the corner on, within or below the box.
    pub open spec fn spec_item_region(self, rect: Rect, i: int, j: int) -> bool {
        j > rect.y && rect.x <= i
    }

    /// Whether item `k` is drawn at all: dividers are on and its rows fit
    /// the machine's coordinate range.
    pub open spec fn spec_item_fits(self, rect: Rect, k: int) -> bool {
        &&& self.use_divider
        &&& 0 <= k < self.list@.len()
        &&& k <= (usize::MAX - 2) / 2
        &&& rect.y <= usize::MAX - 2 - 2 * k
        &&& rect.x <= usize::MAX - 2
    }

    /// What item `k`'s text writes at `(i, j)`: its characters two cells
    /// inside the left edge, on its own row.
    pub open spec fn spec_item_cell(self, rect: Rect, k: int, i: int, j: int) -> Option<char> {
        if self.spec_item_fits(rect, k) {
            text_cell_at(self.list@[k]@, rect.x + 2, rect.y + 1 + 2 * k, i, j)
        } else {
            None
        }
    }

    /// Whether `(i, j)` lies on the divider line below item `k`.
    pub open spec fn spec_on_divider(self, rect: Rect, k: int, i: int, j: int) -> bool {
        &&& self.spec_item_fits(rect, k)
        &&& rect.width >= 4 && rect.x + rect.width <= usize::MAX
        &&& j == rect.y + 2 + 2 * k
        &&& rect.x + 1 <= i <= rect.x + rect.width - 2
    }

    /// Whether any item's text or divider writes at `(i, j)`.
    pub open spec fn spec_items_touch(self, rect: Rect, i: int, j: int) -> bool {
        ||| exists|k: int| (#[trigger] self.spec_item_cell(rect, k, i, j)) is Some
        ||| exists|k: int| #[trigger] self.spec_on_divider(rect, k, i, j)
    }

    /// Create a new, empty list box.
    pub fn new() -> (l: ListBox)
        ensures
            l.list@.len() == 0,
            l.width is None,
            l.height is None,
            l.use_divider,
            l.id is None,
    {
        ListBox { list: Vec::new(), width: None, height: None, use_divider: true, id: None }
    }

    /// Replace the items.
    pub fn set_list(&mut self, list: Vec<String>)
        ensures
            final(self).list == list,
            final(self).width == old(self).width,
            final(self).height == old(self).height,
            final(self).use_divider == old(self).use_divider,
            final(self).id == old(self).id,
    {
        self.list = list;
    }

    /// The preferences handed to the layout solver.
    pub fn style(&self) -> (s: Style)
        ensures
            s == self.spec_style(),
    {
        Style {
            width: match self.width {
                Some(w) => Dimension::Points(w),
                None => Dimension::Percent(100),
            },
            height: match self.height {
                Some(h) => Dimension::Points(h),
                None => Dimension::Percent(100),
            },
            min_width: match self.width {
                Some(w) => Dimension::Points(w),
                None => Dimension::Auto,
            },
            min_height: match self.height {
                Some(h) => Dimension::Points(h),
                None => Dimension::Points(1),
            },
            flex_direction: FlexDirection::Row,
        }
    }

    /// Draw the border.  Only border cells may change, and every border
    /// cell holds a border glyph afterwards.
    pub fn draw_border(&self, buf: &mut Buffer, rect: Rect)
        ensures
            grid_of(*final(buf)).len() == grid_of(*old(buf)).len(),
            forall|j: int|
                0 <= j < grid_of(*old(buf)).len() ==> (#[trigger] grid_of(*final(buf))[j]).len()
                    == grid_of(*old(buf))[j].len(),
            forall|j: int, i: int|
                0 <= j < grid_of(*old(buf)).len() && 0 <= i < grid_of(*old(buf))[j].len()
                    && !on_border(rect, i, j) ==> #[trigger] grid_of(*final(buf))[j][i] == grid_of(
                    *old(buf),
                )[j][i],
            border_fits(rect) ==> (forall|j: int, i: int|
                0 <= j < grid_of(*old(buf)).len() && 0 <= i < grid_of(*old(buf))[j].len()
                    && on_border(rect, i, j) ==> cell_has_stroke(
                    #[trigger] grid_of(*final(buf))[j][i],
                )),
    {
        if rect.width > 0 && rect.height > 0 && rect.x <= usize::MAX - rect.width && rect.y
            <= usize::MAX - rect.height {
            let mut cv = canvas::new_canvas();
            canvas::draw_rect(
                &mut cv,
                rect.x,
                rect.y,
                rect.x + rect.width - 1,
                rect.y + rect.height - 1,
                false,
                false,
            );
            proof {
                assert forall|i: int, j: int|
                    coord_in(canvas_cells(cv), i, j) implies on_border(rect, i, j) by {
                    let k = choose|k: int|
                        0 <= k < canvas_cells(cv).len() && canvas_cells(cv)[k].0 == i
                            && canvas_cells(cv)[k].1 == j;
                    assert(canvas_cells(cv)[k].0 == i);
                }
            }
            buf.write_canvas(&cv);
            proof {
                assert forall|j: int, i: int|
                    0 <= j < grid_of(*old(buf)).len() && 0 <= i < grid_of(*old(buf))[j].len()
                        && on_border(rect, i, j) implies cell_has_stroke(
                    #[trigger] grid_of(*buf)[j][i],
                ) by {
                    assert(canvas::stroke_at(canvas_cells(cv), i, j));
                    let k = choose|k: int|
                        0 <= k < canvas_cells(cv).len() && canvas_cells(cv)[k].0 == i
                            && canvas_cells(cv)[k].1 == j && canvas_cells(cv)[k].2 != ' ';
                    assert(grid_of(*buf)[j][i].spec_is_plain(canvas_cells(cv)[k].2));
                }
            }
        }
    }

    /// Draw the items: each on its own row two cells inside the left
    /// edge, with a divider line below it when dividers are on.  Cells no
    /// item's text or divider reaches are unchanged; item text cells show
    /// their characters and divider cells hold a line glyph.
    pub fn draw_items(&self, buf: &mut Buffer, rect: Rect)
        ensures
            grid_of(*final(buf)).len() == grid_of(*old(buf)).len(),
            forall|j: int|
                0 <= j < grid_of(*old(buf)).len() ==> (#[trigger] grid_of(*final(buf))[j]).len()
                    == grid_of(*old(buf))[j].len(),
            forall|j: int, i: int|
                0 <= j < grid_of(*old(buf)).len() && 0 <= i < grid_of(*old(buf))[j].len()
                    && !self.spec_items_touch(rect, i, j) ==> #[trigger] grid_of(*final(buf))[j][i]
                    == grid_of(*old(buf))[j][i],
            forall|k: int, j: int, i: int|
                0 <= j < grid_of(*old(buf)).len() && 0 <= i < grid_of(*old(buf))[j].len() ==> ((
                #[trigger] self.spec_item_cell(rect, k, i, j)) matches Some(ch) ==> grid_of(
                    *final(buf),
                )[j][i].spec_is_plain(ch)),
            forall|k: int, j: int, i: int|
                0 <= j < grid_of(*old(buf)).len() && 0 <= i < grid_of(*old(buf))[j].len()
                    && #[trigger] self.spec_on_divider(rect, k, i, j) ==> cell_has_stroke(
                    grid_of(*final(buf))[j][i],
                ),
    {
        let n = self.list.len();
        let mut k: usize = 0;
        while k < n
            invariant
                k <= n,
                n == self.list@.len(),
                grid_of(*buf).len() == grid_of(*old(buf)).len(),
                forall|j: int|
                    0 <= j < grid_of(*old(buf)).len() ==> (#[trigger] grid_of(*buf)[j]).len()
                        == grid_of(*old(buf))[j].len(),
                forall|j: int, i: int|
                    0 <= j < grid_of(*old(buf)).len() && 0 <= i < grid_of(*old(buf))[j].len()
                        && !self.spec_items_touch(rect, i, j) ==> #[trigger] grid_of(
                        *buf,
                    )[j][i] == grid_of(*old(buf))[j][i],
                forall|kk: int, j: int, i: int|
                    kk < k && 0 <= j < grid_of(*old(buf)).len() && 0 <= i < grid_of(
                        *old(buf),
                    )[j].len() ==> ((#[trigger] self.spec_item_cell(rect, kk, i, j)) matches Some(
                        ch,
                    ) ==> grid_of(*buf)[j][i].spec_is_plain(ch)),
                forall|kk: int, j: int, i: int|
                    kk < k && 0 <= j < grid_of(*old(buf)).len() && 0 <= i < grid_of(
                        *old(buf),
                    )[j].len() && #[trigger] self.spec_on_divider(rect, kk, i, j)
                        ==> cell_has_stroke(grid_of(*buf)[j][i]),
            decreases n - k,
        {
            if self.use_divider && k <= (usize::MAX - 2) / 2 && rect.y <= usize::MAX - 2 - 2 * k
                && rect.x <= usize::MAX - 2 {
                let row = rect.y + 1 + 2 * k;
                let chars = ansi::str_chars(self.list[k].as_str());
                buf.write_text_row(rect.x + 2, row, &chars);
                proof {
                    assert forall|j: int, i: int|
                        0 <= j < grid_of(*old(buf)).len() && 0 <= i < grid_of(
                            *old(buf),
                        )[j].len() implies ((#[trigger] self.spec_item_cell(rect, k as int, i, j))
                        matches Some(ch) ==> grid_of(*buf)[j][i].spec_is_plain(ch)) by {
                        assert(self.spec_item_cell(rect, k as int, i, j) == text_cell_at(
                            chars@,
                            rect.x + 2,
                            row as int,
                            i,
                            j,
                        ));
                    }
                }
                if rect.width >= 4 && rect.x <= usize::MAX - rect.width && row <= usize::MAX - 1 {
                    let mut cv = canvas::new_canvas();
                    canvas::draw_horizontal_line(
                        &mut cv,
                        rect.x + 1,
                        rect.x + rect.width - 2,
                        row + 1,
                        false,
                    );
                    proof {
                        assert forall|i: int, j: int|
                            coord_in(canvas_cells(cv), i, j) implies self.spec_on_divider(
                            rect,
                            k as int,
                            i,
                            j,
                        ) by {
                            let kk = choose|kk: int|
                                0 <= kk < canvas_cells(cv).len() && canvas_cells(cv)[kk].0 == i
                                    && canvas_cells(cv)[kk].1 == j;
                            assert(canvas_cells(cv)[kk].0 == i);
                        }
                    }
                    buf.write_canvas(&cv);
                    proof {
                        assert forall|j: int, i: int|
                            0 <= j < grid_of(*old(buf)).len() && 0 <= i < grid_of(
                                *old(buf),
                            )[j].len() && self.spec_on_divider(rect, k as int, i, j) implies
                        cell_has_stroke(#[trigger] grid_of(*buf)[j][i]) by {
                            assert(canvas::stroke_at(canvas_cells(cv), i, j));
                            let kk = choose|kk: int|
                                0 <= kk < canvas_cells(cv).len() && canvas_cells(cv)[kk].0 == i
                                    && canvas_cells(cv)[kk].1 == j && canvas_cells(cv)[kk].2
                                    != ' ';
                            assert(grid_of(*buf)[j][i].spec_is_plain(canvas_cells(cv)[kk].2));
                        }
                    }
                }
            }
            proof {
                assert forall|j: int, i: int|
                    0 <= j < grid_of(*old(buf)).len() && 0 <= i < grid_of(*old(buf))[j].len()
                        && !self.spec_items_touch(rect, i, j) implies #[trigger] grid_of(
                    *buf,
                )[j][i] == grid_of(*old(buf))[j][i] by {
                    assert(self.spec_item_cell(rect, k as int, i, j) is None);
                    assert(!self.spec_on_divider(rect, k as int, i, j));
                }
            }
            k = k + 1;
        }
    }

    /// Draw the border, then the items on their divided rows.  Cells
    /// neither on the border nor under any item are unchanged; item text
    /// cells show their characters, divider cells and the border cells no
    /// item covers hold line glyphs.
    pub fn draw(&self, buf: &mut Buffer, rect: Rect)
        ensures
            grid_of(*final(buf)).len() == grid_of(*old(buf)).len(),
            forall|j: int|
                0 <= j < grid_of(*old(buf)).len() ==> (#[trigger] grid_of(*final(buf))[j]).len()
                    == grid_of(*old(buf))[j].len(),
            forall|j: int, i: int|
                0 <= j < grid_of(*old(buf)).len() && 0 <= i < grid_of(*old(buf))[j].len()
                    && !on_border(rect, i, j) && !self.spec_items_touch(rect, i, j)
                    ==> #[trigger] grid_of(*final(buf))[j][i] == grid_of(*old(buf))[j][i],
            forall|k: int, j: int, i: int|
                0 <= j < grid_of(*old(buf)).len() && 0 <= i < grid_of(*old(buf))[j].len() ==> ((
                #[trigger] self.spec_item_cell(rect, k, i, j)) matches Some(ch) ==> grid_of(
                    *final(buf),
                )[j][i].spec_is_plain(ch)),
            forall|k: int, j: int, i: int|
                0 <= j < grid_of(*old(buf)).len() && 0 <= i < grid_of(*old(buf))[j].len()
                    && #[trigger] self.spec_on_divider(rect, k, i, j) ==> cell_has_stroke(
                    grid_of(*final(buf))[j][i],
                ),
            border_fits(rect) ==> (forall|j: int, i: int|
                0 <= j < grid_of(*old(buf)).len() && 0 <= i < grid_of(*old(buf))[j].len()
                    && on_border(rect, i, j) && !self.spec_items_touch(rect, i, j)
                    ==> cell_has_stroke(#[trigger] grid_of(*final(buf))[j][i])),
    {
        self.draw_border(buf, rect);
        self.draw_items(buf, rect);
    }

    /// React to an event: the list box ignores them all.
    pub fn process_event(&mut self, _event: &crate::event::Event) -> (msgs: Vec<Msg>)
        ensures
            *final(self) == *old(self),
            msgs@ == Seq::<Msg>::empty(),
    {
        Vec::new()
    }

    /// Set the stable identifier.
    pub fn set_id(&mut self, id: String)
        ensures
            final(self).id matches Some(s) && s@ == id@,
            final(self).list == old(self).list,
    {
        self.id = Some(id);
    }

    /// The stable identifier, if one was set.
    pub fn get_id(&self) -> (r: &Option<String>)
        ensures
            r == &self.id,
    {
        &self.id
    }
}

} // verus!
