//! The unicode line canvas the bordered widgets draw with, and its
//! transfer into the cell buffer.  The canvas merges box-drawing strokes
//! cell by cell; that merge is the outside crate's own logic, so the
//! contracts here say only which cells a drawing step may touch.

use vstd::prelude::*;

use crate::buffer::grid_of;
use crate::buffer::Buffer;
use ito_canvas::unicode_canvas::Border;
use ito_canvas::unicode_canvas::Canvas;

verus! {

#[verifier::external_type_specification]
#[verifier::external_body]
pub struct ExCanvas(Canvas);

/// What the canvas resolves to: the distinct cells it would hand out,
/// each an `(x, y, glyph)` triple, ordered by column then row.
pub uninterp spec fn canvas_cells(c: Canvas) -> Seq<(usize, usize, char)>;

/// Whether the canvas is fresh: nothing has been drawn on it yet.  The
/// stroke wrappers promise the presence of their strokes only on a fresh
/// canvas, where the crate's fragment table resolves every single-stroke
/// combination.
pub uninterp spec fn canvas_untouched(c: Canvas) -> bool;

/// Whether some cell of `cells` sits at column `i`, row `j`.
pub open spec fn coord_in(cells: Seq<(usize, usize, char)>, i: int, j: int) -> bool {
    exists|k: int| 0 <= k < cells.len() && cells[k].0 == i && cells[k].1 == j
}

/// Whether `cells` holds a glyph other than a blank at column `i`,
/// row `j`.
pub open spec fn stroke_at(cells: Seq<(usize, usize, char)>, i: int, j: int) -> bool {
    exists|k: int|
        0 <= k < cells.len() && cells[k].0 == i && cells[k].1 == j && cells[k].2 != ' '
}

/// Relies on `Canvas::new`: a fresh canvas holds no cells.
#[verifier::external_body]
pub fn new_canvas() -> (c: Canvas)
    ensures
        canvas_cells(c).len() == 0,
        canvas_untouched(c),
{
    Canvas::new()
}

/// Relies on `Canvas::draw_horizontal_line`: it only touches cells on the
/// segment from `(x1, y)` to `(x2, y)`, and on a fresh canvas every cell
/// of the segment resolves to a line glyph.
#[verifier::external_body]
pub fn draw_horizontal_line(c: &mut Canvas, x1: usize, x2: usize, y: usize, thick: bool)
    requires
        x1 <= x2,
        x2 - x1 < usize::MAX,
    ensures
        forall|k: int|
            0 <= k < canvas_cells(*final(c)).len() ==> {
                let cell = #[trigger] canvas_cells(*final(c))[k];
                coord_in(canvas_cells(*old(c)), cell.0 as int, cell.1 as int) || (x1 <= cell.0
                    <= x2 && cell.1 == y)
            },
        canvas_untouched(*old(c)) ==> (forall|px: int|
            x1 <= px <= x2 ==> stroke_at(canvas_cells(*final(c)), px, y as int)),
{
    c.draw_horizontal_line((x1, y), (x2, y), thick)
}

/// Relies on `Canvas::draw_vertical_line`: it only touches cells on the
/// segment from `(x, y1)` to `(x, y2)`, and on a fresh canvas every cell
/// of the segment resolves to a line glyph.
#[verifier::external_body]
pub fn draw_vertical_line(c: &mut Canvas, x: usize, y1: usize, y2: usize, thick: bool)
    requires
        y1 <= y2,
        y2 - y1 < usize::MAX,
    ensures
        forall|k: int|
            0 <= k < canvas_cells(*final(c)).len() ==> {
                let cell = #[trigger] canvas_cells(*final(c))[k];
                coord_in(canvas_cells(*old(c)), cell.0 as int, cell.1 as int) || (cell.0 == x && y1
                    <= cell.1 <= y2)
            },
        canvas_untouched(*old(c)) ==> (forall|py: int|
            y1 <= py <= y2 ==> stroke_at(canvas_cells(*final(c)), x as int, py)),
{
    c.draw_vertical_line((x, y1), (x, y2), thick)
}

/// Relies on `Canvas::draw_rect`: it only touches cells on the border of
/// the rectangle with corners `(x1, y1)` and `(x2, y2)`, and on a fresh
/// canvas every border cell resolves to a line or corner glyph.
#[verifier::external_body]
pub fn draw_rect(c: &mut Canvas, x1: usize, y1: usize, x2: usize, y2: usize, thick: bool, rounded: bool)
    requires
        x1 <= x2,
        y1 <= y2,
        x2 - x1 < usize::MAX,
        y2 - y1 < usize::MAX,
    ensures
        forall|k: int|
            0 <= k < canvas_cells(*final(c)).len() ==> {
                let cell = #[trigger] canvas_cells(*final(c))[k];
                coord_in(canvas_cells(*old(c)), cell.0 as int, cell.1 as int) || (x1 <= cell.0
                    <= x2 && y1 <= cell.1 <= y2 && (cell.0 == x1 || cell.0 == x2 || cell.1 == y1
                    || cell.1 == y2))
            },
        canvas_untouched(*old(c)) ==> (forall|px: int, py: int|
            x1 <= px <= x2 && y1 <= py <= y2 && (px == x1 || px == x2 || py == y1 || py == y2)
                ==> stroke_at(canvas_cells(*final(c)), px, py)),
{
    let border = Border {
        use_thick_border: thick,
        has_top: true,
        has_bottom: true,
        has_left: true,
        has_right: true,
        is_top_left_rounded: rounded && !thick,
        is_top_right_rounded: rounded && !thick,
        is_bottom_left_rounded: rounded && !thick,
        is_bottom_right_rounded: rounded && !thick,
    };
    c.draw_rect((x1, y1), (x2, y2), border)
}

/// Relies on `Canvas::get_cells`: it yields exactly the canvas's resolved
/// cells, one triple per touched position, with distinct positions; the
/// resolving table maps only to line, corner and block glyphs, never to a
/// blank.
#[verifier::external_body]
pub fn canvas_cell_list(c: &Canvas) -> (r: Vec<(usize, usize, char)>)
    ensures
        r@ == canvas_cells(*c),
        forall|k1: int, k2: int|
            0 <= k1 < k2 < r@.len() ==> !(r@[k1].0 == r@[k2].0 && r@[k1].1 == r@[k2].1),
        forall|k: int| 0 <= k < r@.len() ==> (#[trigger] r@[k]).2 != ' ',
{
    c.get_cells().collect()
}

impl Buffer {
    /// Copy every resolved cell of the canvas into the buffer as a
    /// default-styled glyph.  Cells at positions the canvas never touched
    /// are unchanged.
    pub fn write_canvas(&mut self, c: &Canvas)
        ensures
            grid_of(*final(self)).len() == grid_of(*old(self)).len(),
            forall|j: int|
                0 <= j < grid_of(*old(self)).len() ==> (#[trigger] grid_of(*final(self))[j]).len()
                    == grid_of(*old(self))[j].len(),
            forall|j: int, i: int|
                0 <= j < grid_of(*old(self)).len() && 0 <= i < grid_of(*old(self))[j].len()
                    && !coord_in(canvas_cells(*c), i, j) ==> #[trigger] grid_of(*final(self))[j][i] == grid_of(*old(self))[j][i],
            forall|k: int|
                0 <= k < canvas_cells(*c).len() ==> {
                    let cell = #[trigger] canvas_cells(*c)[k];
                    cell.1 < grid_of(*old(self)).len() && cell.0 < grid_of(
                        *old(self),
                    )[cell.1 as int].len() ==> grid_of(*final(self))[cell.1 as int][cell.0 as int].spec_is_plain(cell.2)
                },
    {
        let cells = canvas_cell_list(c);
        let n = cells.len();
        let mut k: usize = 0;
        while k < n
            invariant
                k <= n,
                n == cells@.len(),
                cells@ == canvas_cells(*c),
                forall|k1: int, k2: int|
                    0 <= k1 < k2 < n ==> !((#[trigger] cells@[k1]).0 == (
                    #[trigger] cells@[k2]).0 && cells@[k1].1 == cells@[k2].1),
                grid_of(*self).len() == grid_of(*old(self)).len(),
                forall|j: int|
                    0 <= j < grid_of(*old(self)).len() ==> (#[trigger] grid_of(*self)[j]).len()
                        == grid_of(*old(self))[j].len(),
                forall|j: int, i: int|
                    0 <= j < grid_of(*old(self)).len() && 0 <= i < grid_of(*old(self))[j].len()
                        && !coord_in(canvas_cells(*c), i, j) ==> #[trigger] grid_of(*self)[j][i]
                        == grid_of(*old(self))[j][i],
                forall|kk: int|
                    0 <= kk < k ==> {
                        let cell = #[trigger] cells@[kk];
                        cell.1 < grid_of(*old(self)).len() && cell.0 < grid_of(
                            *old(self),
                        )[cell.1 as int].len() ==> grid_of(*self)[cell.1 as int][cell.0 as int].spec_is_plain(cell.2)
                    },
            decreases n - k,
        {
            let cell = cells[k];
            self.set_symbol(cell.0, cell.1, cell.2);
            k = k + 1;
        }
    }
}

} // verus!
