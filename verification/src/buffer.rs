//! A full-frame grid of styled character cells, and its serialization to
//! ANSI escape sequences.

use vstd::prelude::*;

use crate::ansi;
use crate::ansi::attr_seq;
use crate::ansi::bg_seq;
use crate::ansi::fg_seq;
use crate::ansi::reset_seq;

verus! {

/// An indexed terminal color.  The named variants carry the conventional
/// 256-color indices 0 through 15; `AnsiValue` selects any index directly.
#[derive(Clone, Copy, Debug)]
pub enum Color {
    Black,
    DarkRed,
    DarkGreen,
    DarkYellow,
    DarkBlue,
    DarkMagenta,
    DarkCyan,
    Grey,
    DarkGrey,
    Red,
    Green,
    Yellow,
    Blue,
    Magenta,
    Cyan,
    White,
    AnsiValue(u8),
}

impl Color {
    /// The 256-color index this color selects.
    pub open spec fn spec_code(self) -> u8 {
        match self {
            Color::Black => 0,
            Color::DarkRed => 1,
            Color::DarkGreen => 2,
            Color::DarkYellow => 3,
            Color::DarkBlue => 4,
            Color::DarkMagenta => 5,
            Color::DarkCyan => 6,
            Color::Grey => 7,
            Color::DarkGrey => 8,
            Color::Red => 9,
            Color::Green => 10,
            Color::Yellow => 11,
            Color::Blue => 12,
            Color::Magenta => 13,
            Color::Cyan => 14,
            Color::White => 15,
            Color::AnsiValue(v) => v,
        }
    }

    /// The 256-color index this color selects.
    pub fn code(&self) -> (c: u8)
        ensures
            c == self.spec_code(),
    {
        match self {
            Color::Black => 0,
            Color::DarkRed => 1,
            Color::DarkGreen => 2,
            Color::DarkYellow => 3,
            Color::DarkBlue => 4,
            Color::DarkMagenta => 5,
            Color::DarkCyan => 6,
            Color::Grey => 7,
            Color::DarkGrey => 8,
            Color::Red => 9,
            Color::Green => 10,
            Color::Yellow => 11,
            Color::Blue => 12,
            Color::Magenta => 13,
            Color::Cyan => 14,
            Color::White => 15,
            Color::AnsiValue(v) => *v,
        }
    }
}

/// One display attribute that a cell may turn on.
#[derive(Clone, Copy, Debug)]
pub enum Attribute {
    Bold,
    Dim,
    Italic,
    Underlined,
    Reverse,
    Hidden,
    CrossedOut,
}

/// The set of display attributes of one cell.
#[derive(Clone, Copy, Debug)]
pub struct Attributes {
    pub bold: bool,
    pub dim: bool,
    pub italic: bool,
    pub underlined: bool,
    pub reverse: bool,
    pub hidden: bool,
    pub crossed_out: bool,
}

impl Attributes {
    /// True when no attribute is turned on.
    pub open spec fn spec_is_empty(self) -> bool {
        !self.bold && !self.dim && !self.italic && !self.underlined && !self.reverse
            && !self.hidden && !self.crossed_out
    }

    /// The empty attribute set.
    pub fn none() -> (a: Attributes)
        ensures
            a.spec_is_empty(),
    {
        Attributes {
            bold: false,
            dim: false,
            italic: false,
            underlined: false,
            reverse: false,
            hidden: false,
            crossed_out: false,
        }
    }

    /// The attribute set with `attr` turned on in addition to `self`.
    pub open spec fn spec_with(self, attr: Attribute) -> Attributes {
        match attr {
            Attribute::Bold => Attributes { bold: true, ..self },
            Attribute::Dim => Attributes { dim: true, ..self },
            Attribute::Italic => Attributes { italic: true, ..self },
            Attribute::Underlined => Attributes { underlined: true, ..self },
            Attribute::Reverse => Attributes { reverse: true, ..self },
            Attribute::Hidden => Attributes { hidden: true, ..self },
            Attribute::CrossedOut => Attributes { crossed_out: true, ..self },
        }
    }

    /// Turn on one attribute.
    pub fn set(&mut self, attr: Attribute)
        ensures
            *final(self) == old(self).spec_with(attr),
    {
        match attr {
            Attribute::Bold => self.bold = true,
            Attribute::Dim => self.dim = true,
            Attribute::Italic => self.italic = true,
            Attribute::Underlined => self.underlined = true,
            Attribute::Reverse => self.reverse = true,
            Attribute::Hidden => self.hidden = true,
            Attribute::CrossedOut => self.crossed_out = true,
        }
    }
}

/// The attribute set after turning on each attribute of `attrs` in order.
pub open spec fn apply_attrs(a: Attributes, attrs: Seq<Attribute>) -> Attributes
    decreases attrs.len(),
{
    if attrs.len() == 0 {
        a
    } else {
        apply_attrs(a.spec_with(attrs[0]), attrs.drop_first())
    }
}

/// The style of one cell: optional foreground and background colors and a
/// set of attributes.
#[derive(Clone, Copy, Debug)]
pub struct ContentStyle {
    pub foreground_color: Option<Color>,
    pub background_color: Option<Color>,
    pub attributes: Attributes,
}

impl ContentStyle {
    /// The default style: no colors, no attributes.
    pub open spec fn spec_is_default(self) -> bool {
        self.foreground_color is None && self.background_color is None
            && self.attributes.spec_is_empty()
    }

    /// The default style value.
    pub fn plain() -> (s: ContentStyle)
        ensures
            s.spec_is_default(),
    {
        ContentStyle {
            foreground_color: None,
            background_color: None,
            attributes: Attributes::none(),
        }
    }
}

/// One terminal character cell: a glyph and its style.
#[derive(Clone, Debug)]
pub struct Cell {
    pub symbol: String,
    pub style: ContentStyle,
}

/// The SGR codes of the attributes that are turned on, in a fixed order
/// (1, 2, 3, 4, 7, 8, 9).
pub open spec fn sgr_codes(a: Attributes) -> Seq<u8> {
    let s = Seq::<u8>::empty();
    let s = if a.bold {
        s.push(1u8)
    } else {
        s
    };
    let s = if a.dim {
        s.push(2u8)
    } else {
        s
    };
    let s = if a.italic {
        s.push(3u8)
    } else {
        s
    };
    let s = if a.underlined {
        s.push(4u8)
    } else {
        s
    };
    let s = if a.reverse {
        s.push(7u8)
    } else {
        s
    };
    let s = if a.hidden {
        s.push(8u8)
    } else {
        s
    };
    if a.crossed_out {
        s.push(9u8)
    } else {
        s
    }
}

/// The attribute sequences for the codes of `codes` from position `i` on.
pub open spec fn concat_attr_seqs(codes: Seq<u8>, i: int) -> Seq<char>
    decreases codes.len() - i,
{
    if i < 0 || i >= codes.len() {
        Seq::empty()
    } else {
        attr_seq(codes[i] as nat) + concat_attr_seqs(codes, i + 1)
    }
}

/// The attribute sequences a cell's attribute set emits, in a fixed order.
pub open spec fn attrs_chars(a: Attributes) -> Seq<char> {
    concat_attr_seqs(sgr_codes(a), 0)
}

/// The style-change sequences emitted immediately before a cell's glyph:
/// background color first, then foreground color, then attributes.  A
/// default-styled cell emits nothing here.
pub open spec fn style_prefix(s: ContentStyle) -> Seq<char> {
    (match s.background_color {
        Some(c) => bg_seq(c.spec_code() as nat),
        None => Seq::empty(),
    }) + (match s.foreground_color {
        Some(c) => fg_seq(c.spec_code() as nat),
        None => Seq::empty(),
    }) + attrs_chars(s.attributes)
}

/// Everything one cell contributes to the frame: its style prefix, its
/// glyph, and a style reset immediately after the glyph.
pub open spec fn cell_chars(c: Cell) -> Seq<char> {
    style_prefix(c.style) + c.symbol@ + reset_seq()
}

/// A cell carrying a default style emits its glyph and the reset only:
/// no style-change sequence at all.
pub proof fn lemma_default_cell_emits_no_style(c: Cell)
    requires
        c.style.spec_is_default(),
    ensures
        cell_chars(c) == c.symbol@ + reset_seq(),
{
    assert(sgr_codes(c.style.attributes) == Seq::<u8>::empty());
    assert(style_prefix(c.style) =~= Seq::<char>::empty());
    assert(cell_chars(c) =~= c.symbol@ + reset_seq());
}

/// Every cell's glyph is followed immediately by the style reset, so no
/// style bleeds into the next cell.
pub proof fn lemma_cell_resets_after_glyph(c: Cell)
    ensures
        cell_chars(c) == style_prefix(c.style) + (c.symbol@ + reset_seq()),
{
    assert(cell_chars(c) =~= style_prefix(c.style) + (c.symbol@ + reset_seq()));
}

impl Cell {
    /// True when the cell shows `ch` with the default style.
    pub open spec fn spec_is_plain(self, ch: char) -> bool {
        self.symbol@ == seq![ch] && self.style.spec_is_default()
    }

    /// A cell showing `symbol` with the default style.
    pub fn new(symbol: String) -> (c: Cell)
        ensures
            c.symbol@ == symbol@,
            c.style.spec_is_default(),
    {
        Cell { symbol, style: ContentStyle::plain() }
    }

    /// A cell showing one character with the default style.
    pub fn from_char(ch: char) -> (c: Cell)
        ensures
            c.spec_is_plain(ch),
    {
        let mut v: Vec<char> = Vec::new();
        v.push(ch);
        let symbol = ansi::chars_to_string(v);
        Cell { symbol, style: ContentStyle::plain() }
    }

    /// A blank cell: a space with the default style.
    pub fn empty() -> (c: Cell)
        ensures
            c.spec_is_plain(' '),
    {
        Cell::from_char(' ')
    }

    /// Turn on each attribute in `attributes`.
    pub fn attributes(&mut self, attributes: Vec<Attribute>)
        ensures
            final(self).style.attributes == apply_attrs(
                old(self).style.attributes,
                attributes@,
            ),
            final(self).symbol@ == old(self).symbol@,
            final(self).style.foreground_color == old(self).style.foreground_color,
            final(self).style.background_color == old(self).style.background_color,
    {
        let ghost goal = apply_attrs(old(self).style.attributes, attributes@);
        proof {
            assert(attributes@.skip(0) =~= attributes@);
        }
        let n = attributes.len();
        let mut k: usize = 0;
        while k < n
            invariant
                n == attributes@.len(),
                k <= n,
                apply_attrs(self.style.attributes, attributes@.skip(k as int)) == goal,
                self.symbol@ == old(self).symbol@,
                self.style.foreground_color == old(self).style.foreground_color,
                self.style.background_color == old(self).style.background_color,
            decreases n - k,
        {
            proof {
                assert(attributes@.skip(k as int).drop_first() =~= attributes@.skip(k as int + 1));
                assert(attributes@.skip(k as int)[0] == attributes@[k as int]);
            }
            self.style.attributes.set(attributes[k]);
            k = k + 1;
        }
        proof {
            assert(attributes@.skip(n as int) =~= Seq::<Attribute>::empty());
        }
    }

    /// Set the foreground color.
    pub fn color(&mut self, color: Color)
        ensures
            final(self).style.foreground_color == Some(color),
            final(self).symbol@ == old(self).symbol@,
            final(self).style.background_color == old(self).style.background_color,
            final(self).style.attributes == old(self).style.attributes,
    {
        self.style.foreground_color = Some(color);
    }

    /// Set the background color.
    pub fn background(&mut self, color: Color)
        ensures
            final(self).style.background_color == Some(color),
            final(self).symbol@ == old(self).symbol@,
            final(self).style.foreground_color == old(self).style.foreground_color,
            final(self).style.attributes == old(self).style.attributes,
    {
        self.style.background_color = Some(color);
    }

    /// Append the attribute sequences of `a` to `out`, in the fixed order.
    pub fn push_attrs(a: &Attributes, out: &mut Vec<char>)
        ensures
            final(out)@ == old(out)@ + attrs_chars(*a),
    {
        let mut codes: Vec<u8> = Vec::new();
        if a.bold {
            codes.push(1);
        }
        if a.dim {
            codes.push(2);
        }
        if a.italic {
            codes.push(3);
        }
        if a.underlined {
            codes.push(4);
        }
        if a.reverse {
            codes.push(7);
        }
        if a.hidden {
            codes.push(8);
        }
        if a.crossed_out {
            codes.push(9);
        }
        proof {
            assert(codes@ == sgr_codes(*a));
        }
        let ghost cs = codes@;
        let n = codes.len();
        let mut k: usize = 0;
        while k < n
            invariant
                n == cs.len(),
                k <= n,
                codes@ == cs,
                out@ + concat_attr_seqs(cs, k as int) == old(out)@ + attrs_chars(*a),
            decreases n - k,
        {
            ansi::push_attr(out, codes[k]);
            proof {
                assert(out@ + concat_attr_seqs(cs, k as int + 1) =~= old(out)@ + attrs_chars(*a));
            }
            k = k + 1;
        }
        proof {
            assert(out@ =~= old(out)@ + attrs_chars(*a));
        }
    }

    /// Append the style-change sequences this cell's style emits to `out`.
    pub fn push_style_prefix(style: &ContentStyle, out: &mut Vec<char>)
        ensures
            final(out)@ == old(out)@ + style_prefix(*style),
    {
        match &style.background_color {
            Some(c) => {
                let code = c.code();
                ansi::push_bg(out, code);
            },
            None => {},
        }
        match &style.foreground_color {
            Some(c) => {
                let code = c.code();
                ansi::push_fg(out, code);
            },
            None => {},
        }
        let ghost after_fg = out@;
        Cell::push_attrs(&style.attributes, out);
        proof {
            assert(out@ =~= old(out)@ + style_prefix(*style));
        }
    }

    /// Append everything this cell contributes to the frame to `out`.
    pub fn push_ansi(&self, out: &mut Vec<char>)
        ensures
            final(out)@ == old(out)@ + cell_chars(*self),
    {
        Cell::push_style_prefix(&self.style, out);
        let mut sym = ansi::str_chars(self.symbol.as_str());
        out.append(&mut sym);
        ansi::push_reset(out);
        assert(out@ =~= old(out)@ + cell_chars(*self));
    }

    /// The ANSI serialization of this single cell.
    pub fn to_ansi_string(&self) -> (s: String)
        ensures
            s@ == cell_chars(*self),
    {
        let mut out: Vec<char> = Vec::new();
        self.push_ansi(&mut out);
        ansi::chars_to_string(out)
    }
}

/// A height x width grid of cells, row major.
#[derive(Debug)]
pub struct Buffer {
    pub cells: Vec<Vec<Cell>>,
}

/// The grid of a buffer as a sequence of rows of cells.
pub open spec fn grid_of(b: Buffer) -> Seq<Seq<Cell>> {
    b.cells@.map_values(|r: Vec<Cell>| r@)
}

/// The serialization of the cells of `row` from position `i` on.
pub open spec fn row_chars_from(row: Seq<Cell>, i: int) -> Seq<char>
    decreases row.len() - i,
{
    if i < 0 || i >= row.len() {
        Seq::empty()
    } else {
        cell_chars(row[i]) + row_chars_from(row, i + 1)
    }
}

/// The serialization of the rows of `g` from row `j` on.
pub open spec fn grid_chars_from(g: Seq<Seq<Cell>>, j: int) -> Seq<char>
    decreases g.len() - j,
{
    if j < 0 || j >= g.len() {
        Seq::empty()
    } else {
        row_chars_from(g[j], 0) + grid_chars_from(g, j + 1)
    }
}

/// The full frame a buffer renders to: every cell in row-major order.
pub open spec fn buffer_chars(b: Buffer) -> Seq<char> {
    grid_chars_from(grid_of(b), 0)
}

/// The glyph-only serialization of `row` from position `i` on: each cell's
/// glyph followed by the style reset, with no style-change sequences.
pub open spec fn plain_row_chars_from(row: Seq<Cell>, i: int) -> Seq<char>
    decreases row.len() - i,
{
    if i < 0 || i >= row.len() {
        Seq::empty()
    } else {
        (row[i].symbol@ + reset_seq()) + plain_row_chars_from(row, i + 1)
    }
}

/// The glyph-only serialization of `g` from row `j` on.
pub open spec fn plain_grid_chars_from(g: Seq<Seq<Cell>>, j: int) -> Seq<char>
    decreases g.len() - j,
{
    if j < 0 || j >= g.len() {
        Seq::empty()
    } else {
        plain_row_chars_from(g[j], 0) + plain_grid_chars_from(g, j + 1)
    }
}

/// Every cell of `g` carries the default style.
pub open spec fn grid_all_default(g: Seq<Seq<Cell>>) -> bool {
    forall|j: int, i: int|
        0 <= j < g.len() && 0 <= i < g[j].len() ==> (#[trigger] g[j][i]).style.spec_is_default()
}

proof fn lemma_plain_row(row: Seq<Cell>, i: int)
    requires
        forall|k: int| 0 <= k < row.len() ==> (#[trigger] row[k]).style.spec_is_default(),
    ensures
        row_chars_from(row, i) == plain_row_chars_from(row, i),
    decreases row.len() - i,
{
    if 0 <= i < row.len() {
        lemma_plain_row(row, i + 1);
        lemma_default_cell_emits_no_style(row[i]);
    }
}

proof fn lemma_plain_grid(g: Seq<Seq<Cell>>, j: int)
    requires
        grid_all_default(g),
    ensures
        grid_chars_from(g, j) == plain_grid_chars_from(g, j),
    decreases g.len() - j,
{
    if 0 <= j < g.len() {
        lemma_plain_grid(g, j + 1);
        lemma_plain_row(g[j], 0);
    }
}

/// Rendering a buffer whose cells all carry the default style emits no
/// style-change sequence: the frame is exactly each glyph followed by the
/// style reset, row major.
pub proof fn lemma_default_buffer_emits_no_style(b: Buffer)
    requires
        grid_all_default(grid_of(b)),
    ensures
        buffer_chars(b) == plain_grid_chars_from(grid_of(b), 0),
{
    lemma_plain_grid(grid_of(b), 0);
}

impl Buffer {
    /// The grid as a sequence of rows.
    pub open spec fn view(self) -> Seq<Seq<Cell>> {
        grid_of(self)
    }

    /// A `width` x `height` grid where every row has length `width`.
    pub open spec fn spec_is_grid(self, width: int, height: int) -> bool {
        &&& grid_of(self).len() == height
        &&& forall|j: int| 0 <= j < height ==> (#[trigger] grid_of(self)[j]).len() == width
    }

    /// Create a buffer of blank, default-styled cells.
    pub fn new(width: usize, height: usize) -> (b: Buffer)
        ensures
            b.spec_is_grid(width as int, height as int),
            forall|j: int, i: int|
                0 <= j < height && 0 <= i < width ==> (#[trigger] grid_of(b)[j][i]).spec_is_plain(
                    ' ',
                ),
    {
        let mut cells: Vec<Vec<Cell>> = Vec::new();
        let mut j: usize = 0;
        while j < height
            invariant
                j <= height,
                cells@.len() == j,
                forall|jj: int| 0 <= jj < j ==> (#[trigger] cells@[jj])@.len() == width,
                forall|jj: int, ii: int|
                    0 <= jj < j && 0 <= ii < width ==> (#[trigger] cells@[jj]@[ii]).spec_is_plain(
                        ' ',
                    ),
            decreases height - j,
        {
            let mut row: Vec<Cell> = Vec::new();
            let mut i: usize = 0;
            while i < width
                invariant
                    i <= width,
                    row@.len() == i,
                    forall|ii: int| 0 <= ii < i ==> (#[trigger] row@[ii]).spec_is_plain(' '),
                decreases width - i,
            {
                row.push(Cell::empty());
                i = i + 1;
            }
            cells.push(row);
            j = j + 1;
        }
        Buffer { cells }
    }

    /// Reset every cell to blank with the default style; the dimensions are
    /// kept.
    pub fn reset(&mut self)
        ensures
            grid_of(*final(self)).len() == grid_of(*old(self)).len(),
            forall|j: int|
                0 <= j < grid_of(*old(self)).len() ==> (#[trigger] grid_of(*final(self))[j]).len()
                    == grid_of(*old(self))[j].len(),
            forall|j: int, i: int|
                0 <= j < grid_of(*old(self)).len() && 0 <= i < grid_of(*old(self))[j].len() ==> (
                #[trigger] grid_of(*final(self))[j][i]).spec_is_plain(' '),
    {
        let height = self.cells.len();
        let mut j: usize = 0;
        while j < height
            invariant
                height == self.cells@.len(),
                j <= height,
                self.cells@.len() == old(self).cells@.len(),
                forall|jj: int|
                    0 <= jj < height ==> (#[trigger] self.cells@[jj])@.len() == old(
                        self,
                    ).cells@[jj]@.len(),
                forall|jj: int, ii: int|
                    0 <= jj < j && 0 <= ii < self.cells@[jj]@.len() ==> (
                    #[trigger] self.cells@[jj]@[ii]).spec_is_plain(' '),
            decreases height - j,
        {
            let width = self.cells[j].len();
            let mut i: usize = 0;
            while i < width
                invariant
                    height == self.cells@.len(),
                    j < height,
                    width == self.cells@[j as int]@.len(),
                    i <= width,
                    self.cells@.len() == old(self).cells@.len(),
                    forall|jj: int|
                        0 <= jj < height ==> (#[trigger] self.cells@[jj])@.len() == old(
                            self,
                        ).cells@[jj]@.len(),
                    forall|jj: int, ii: int|
                        0 <= jj < j && 0 <= ii < self.cells@[jj]@.len() ==> (
                        #[trigger] self.cells@[jj]@[ii]).spec_is_plain(' '),
                    forall|ii: int|
                        0 <= ii < i ==> (#[trigger] self.cells@[j as int]@[ii]).spec_is_plain(' '),
                decreases width - i,
            {
                self.cells[j][i] = Cell::empty();
                i = i + 1;
            }
            j = j + 1;
        }
    }

    /// Write `new_cell` at column `x`, row `y`.  A position outside the grid
    /// is silently dropped; no other cell ever changes.
    pub fn set_cell(&mut self, x: usize, y: usize, new_cell: Cell)
        ensures
            grid_of(*final(self)).len() == grid_of(*old(self)).len(),
            forall|j: int|
                0 <= j < grid_of(*old(self)).len() ==> (#[trigger] grid_of(*final(self))[j]).len()
                    == grid_of(*old(self))[j].len(),
            forall|j: int, i: int|
                0 <= j < grid_of(*old(self)).len() && 0 <= i < grid_of(*old(self))[j].len() && !(j
                    == y as int && i == x as int) ==> #[trigger] grid_of(*final(self))[j][i] == grid_of(
                    *old(self),
                )[j][i],
            y < grid_of(*old(self)).len() && x < grid_of(*old(self))[y as int].len() ==> grid_of(
                *final(self),
            )[y as int][x as int] == new_cell,
    {
        if y < self.cells.len() {
            if x < self.cells[y].len() {
                self.cells[y][x] = new_cell;
            }
        }
    }

    /// Write a single default-styled character at column `x`, row `y`, with
    /// the same silent bounds check as `set_cell`.
    pub fn set_symbol(&mut self, x: usize, y: usize, symbol: char)
        ensures
            grid_of(*final(self)).len() == grid_of(*old(self)).len(),
            forall|j: int|
                0 <= j < grid_of(*old(self)).len() ==> (#[trigger] grid_of(*final(self))[j]).len()
                    == grid_of(*old(self))[j].len(),
            forall|j: int, i: int|
                0 <= j < grid_of(*old(self)).len() && 0 <= i < grid_of(*old(self))[j].len() && !(j
                    == y as int && i == x as int) ==> #[trigger] grid_of(*final(self))[j][i] == grid_of(
                    *old(self),
                )[j][i],
            y < grid_of(*old(self)).len() && x < grid_of(*old(self))[y as int].len() ==> grid_of(
                *final(self),
            )[y as int][x as int].spec_is_plain(symbol),
    {
        self.set_cell(x, y, Cell::from_char(symbol));
    }

    /// Serialize the whole grid, row major, to one ANSI string.
    pub fn render(&self) -> (s: String)
        ensures
            s@ == buffer_chars(*self),
    {
        let ghost g = grid_of(*self);
        let mut out: Vec<char> = Vec::new();
        let height = self.cells.len();
        let mut j: usize = 0;
        while j < height
            invariant
                g == grid_of(*self),
                height == g.len(),
                j <= height,
                out@ + grid_chars_from(g, j as int) == buffer_chars(*self),
            decreases height - j,
        {
            proof {
                assert(out@ + (row_chars_from(g[j as int], 0) + grid_chars_from(g, j as int + 1))
                    =~= out@ + row_chars_from(g[j as int], 0) + grid_chars_from(g, j as int + 1));
            }
            let row = &self.cells[j];
            let width = row.len();
            let mut i: usize = 0;
            while i < width
                invariant
                    g == grid_of(*self),
                    height == g.len(),
                    j < height,
                    width == g[j as int].len(),
                    row@ == g[j as int],
                    i <= width,
                    out@ + row_chars_from(g[j as int], i as int) + grid_chars_from(g, j + 1)
                        == buffer_chars(*self),
                decreases width - i,
            {
                row[i].push_ansi(&mut out);
                proof {
                    assert(out@ + row_chars_from(g[j as int], i + 1) + grid_chars_from(g, j + 1)
                        =~= buffer_chars(*self));
                }
                i = i + 1;
            }
            proof {
                assert(out@ + grid_chars_from(g, j + 1) =~= buffer_chars(*self));
            }
            j = j + 1;
        }
        proof {
            assert(out@ =~= buffer_chars(*self));
        }
        ansi::chars_to_string(out)
    }
}


/// Whether the cell shows some single glyph other than a blank, with
/// the default style: the mark a box-drawing stroke leaves.
pub open spec fn cell_has_stroke(c: Cell) -> bool {
    exists|ch: char| ch != ' ' && c.spec_is_plain(ch)
}

/// What a row of text starting at column `x` of row `y` writes at
/// position `(i, j)`: the character of `chars` that lands there, or
/// `None` where the text does not reach.
pub open spec fn text_cell_at(chars: Seq<char>, x: int, y: int, i: int, j: int) -> Option<char> {
    if j == y && x <= i < x + chars.len() && i <= usize::MAX {
        Some(chars[i - x])
    } else {
        None
    }
}

impl Buffer {
    /// Write `chars` left to right on row `y` starting at column `x`,
    /// each as a default-styled glyph.  Positions past the machine limit
    /// are not written; every other cell is unchanged.
    pub fn write_text_row(&mut self, x: usize, y: usize, chars: &Vec<char>)
        ensures
            grid_of(*final(self)).len() == grid_of(*old(self)).len(),
            forall|j: int|
                0 <= j < grid_of(*old(self)).len() ==> (#[trigger] grid_of(*final(self))[j]).len()
                    == grid_of(*old(self))[j].len(),
            forall|j: int, i: int|
                0 <= j < grid_of(*old(self)).len() && 0 <= i < grid_of(*old(self))[j].len()
                    && text_cell_at(chars@, x as int, y as int, i, j) is None ==> #[trigger] grid_of(
                    *final(self),
                )[j][i] == grid_of(*old(self))[j][i],
            forall|j: int, i: int|
                0 <= j < grid_of(*old(self)).len() && 0 <= i < grid_of(*old(self))[j].len() ==> (
                text_cell_at(chars@, x as int, y as int, i, j) matches Some(ch) ==> (
                #[trigger] grid_of(*final(self))[j][i]).spec_is_plain(ch)),
    {
        let n = chars.len();
        let mut t: usize = 0;
        while t < n && t <= usize::MAX - x
            invariant
                t <= n,
                n == chars@.len(),
                t > 0 ==> x + t - 1 <= usize::MAX,
                grid_of(*self).len() == grid_of(*old(self)).len(),
                forall|j: int|
                    0 <= j < grid_of(*old(self)).len() ==> (#[trigger] grid_of(*self)[j]).len()
                        == grid_of(*old(self))[j].len(),
                forall|j: int, i: int|
                    0 <= j < grid_of(*old(self)).len() && 0 <= i < grid_of(*old(self))[j].len()
                        && !(j == y as int && x <= i < x + t) ==> #[trigger] grid_of(
                        *self,
                    )[j][i] == grid_of(*old(self))[j][i],
                forall|j: int, i: int|
                    0 <= j < grid_of(*old(self)).len() && 0 <= i < grid_of(*old(self))[j].len() && j
                        == y as int && x <= i < x + t ==> (#[trigger] grid_of(
                        *self,
                    )[j][i]).spec_is_plain(chars@[i - x]),
            decreases n - t,
        {
            self.set_symbol(x + t, y, chars[t]);
            t = t + 1;
        }
    }
}

} // verus!
