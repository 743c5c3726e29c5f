//! In-memory cell grid: the canonical data the renderer paints each frame.
//!
//! The grid stores one [`Cell`] per `(x, y)` position, where `x` is the
//! column and `y` is the row, in row-major order. Colours and attributes are
//! kept as the terminal widgets wrote them; the paint pipeline resolves them
//! to RGB at draw time.
use vstd::prelude::*;

verus! {

broadcast use vstd::seq::group_seq_axioms, vstd::seq_lib::group_seq_properties;

/// A terminal colour.
#[derive(Debug, Clone, Copy, PartialEq, Eq, Structural)]
pub enum Color {
    Reset,
    Black,
    Red,
    Green,
    Yellow,
    Blue,
    Magenta,
    Cyan,
    Gray,
    DarkGray,
    LightRed,
    LightGreen,
    LightYellow,
    LightBlue,
    LightMagenta,
    LightCyan,
    White,
    Rgb(u8, u8, u8),
    Indexed(u8),
}

/// Text attribute bits of a cell.
pub type Attrs = u16;

pub const ATTR_BOLD: u16 = 0x0001;
pub const ATTR_DIM: u16 = 0x0002;
pub const ATTR_ITALIC: u16 = 0x0004;
pub const ATTR_UNDERLINED: u16 = 0x0008;
pub const ATTR_SLOW_BLINK: u16 = 0x0010;
pub const ATTR_RAPID_BLINK: u16 = 0x0020;
pub const ATTR_REVERSED: u16 = 0x0040;
pub const ATTR_HIDDEN: u16 = 0x0080;
pub const ATTR_CROSSED_OUT: u16 = 0x0100;

/// One cell in the grid.
#[derive(Debug, Clone, PartialEq, Eq)]
pub struct Cell {
    pub symbol: String,
    pub fg: Color,
    pub bg: Color,
    pub attrs: Attrs,
}

/// Abstract value of a [`Cell`].
pub struct CellView {
    pub symbol: Seq<char>,
    pub fg: Color,
    pub bg: Color,
    pub attrs: Attrs,
}

impl View for Cell {
    type V = CellView;

    open spec fn view(&self) -> CellView {
        CellView { symbol: self.symbol@, fg: self.fg, bg: self.bg, attrs: self.attrs }
    }
}

/// The blank cell: a space with default colours and no attributes.
pub open spec fn blank_cell() -> CellView {
    CellView { symbol: seq![' '], fg: Color::Reset, bg: Color::Reset, attrs: 0 }
}

impl Cell {
    /// A copy of this cell.
    pub fn duplicate(&self) -> (r: Cell)
        ensures
            r@ == self@,
    {
        Cell { symbol: self.symbol.clone(), fg: self.fg, bg: self.bg, attrs: self.attrs }
    }
}

/// `" ".to_string()`.
fn space_string() -> (s: String)
    ensures
        s@ == seq![' '],
{
    let s = " ".to_owned();
    proof {
        reveal_strlit(" ");
    }
    s
}

impl Default for Cell {
    /// A blank cell.
    fn default() -> (r: Cell)
        ensures
            r@ == blank_cell(),
    {
        Cell { symbol: space_string(), fg: Color::Reset, bg: Color::Reset, attrs: 0 }
    }
}

/// Rectangular grid of [`Cell`]s, addressed `(x, y)` with `x` along the row.
#[derive(Debug, Clone)]
pub struct Grid {
    cols: u16,
    rows: u16,
    cells: Vec<Cell>,
}

/// Abstract value of a [`Grid`].
pub struct GridView {
    pub cols: u16,
    pub rows: u16,
    pub cells: Seq<CellView>,
}

/// Position of `(x, y)` in the row-major cell sequence.
pub open spec fn cell_index(cols: u16, x: u16, y: u16) -> int {
    y as int * cols as int + x as int
}

impl GridView {
    /// The grid holds exactly one cell per position.
    pub open spec fn wf(self) -> bool {
        self.cells.len() == self.cols as int * self.rows as int
    }

    pub open spec fn in_bounds(self, x: u16, y: u16) -> bool {
        x < self.cols && y < self.rows
    }

    /// The cell at `(x, y)`, when in bounds.
    pub open spec fn cell_at(self, x: u16, y: u16) -> Option<CellView> {
        if self.in_bounds(x, y) {
            Some(self.cells[cell_index(self.cols, x, y)])
        } else {
            None
        }
    }

    /// The grid with `(x, y)` set to `c`; unchanged when out of bounds.
    pub open spec fn with_cell(self, x: u16, y: u16, c: CellView) -> GridView {
        if self.in_bounds(x, y) {
            GridView { cells: self.cells.update(cell_index(self.cols, x, y), c), ..self }
        } else {
            self
        }
    }

    /// A `cols` × `rows` grid of blank cells.
    pub open spec fn blank(cols: u16, rows: u16) -> GridView {
        GridView { cols, rows, cells: Seq::new((cols as int * rows as int) as nat, |i: int| blank_cell()) }
    }

    /// Every cell replaced by `c`.
    pub open spec fn filled(self, c: CellView) -> GridView {
        GridView { cells: Seq::new(self.cells.len(), |i: int| c), ..self }
    }
}

impl View for Grid {
    type V = GridView;

    closed spec fn view(&self) -> GridView {
        GridView { cols: self.cols, rows: self.rows, cells: self.cells@.map_values(|c: Cell| c@) }
    }
}

/// Index arithmetic for in-bounds positions.
proof fn lemma_index_in_bounds(cols: u16, rows: u16, x: u16, y: u16)
    requires
        x < cols,
        y < rows,
    ensures
        0 <= cell_index(cols, x, y) < cols as int * rows as int,
{
    assert((y as int) * (cols as int) + (x as int) < (y as int + 1) * (cols as int)) by (nonlinear_arith)
        requires
            x < cols,
    ;
    assert((y as int + 1) * (cols as int) <= (rows as int) * (cols as int)) by (nonlinear_arith)
        requires
            y < rows,
    ;
    assert((rows as int) * (cols as int) == (cols as int) * (rows as int)) by (nonlinear_arith);
    assert(0 <= (y as int) * (cols as int)) by (nonlinear_arith);
}

/// A grid of `u16` sides has fewer cells than `u32::MAX`, so its cell
/// count fits in a `usize`.
proof fn lemma_cell_count_fits(cols: u16, rows: u16)
    ensures
        cols as int * rows as int <= usize::MAX,
{
    assert(cols as int * rows as int <= 0xffff * 0xffff) by (nonlinear_arith)
        requires
            cols <= 0xffff,
            rows <= 0xffff,
    ;
}

/// `n` blank cells.
fn blank_cells(n: usize) -> (v: Vec<Cell>)
    ensures
        v@.len() == n,
        forall|i: int| 0 <= i < n ==> #[trigger] v@[i]@ == blank_cell(),
{
    let mut v: Vec<Cell> = Vec::new();
    let mut i: usize = 0;
    while i < n
        invariant
            i <= n,
            v@.len() == i,
            forall|j: int| 0 <= j < i ==> #[trigger] v@[j]@ == blank_cell(),
        decreases n - i,
    {
        v.push(Cell::default());
        i = i + 1;
    }
    v
}

impl Grid {
    /// A grid of blank cells.
    pub fn new(cols: u16, rows: u16) -> (r: Grid)
        ensures
            r@ == GridView::blank(cols, rows),
            r@.wf(),
    {
        proof {
            lemma_cell_count_fits(cols, rows);
        }
        let len = cols as usize * rows as usize;
        let cells = blank_cells(len);
        let r = Grid { cols, rows, cells };
        assert(r@.cells =~= GridView::blank(cols, rows).cells);
        r
    }

    pub fn cols(&self) -> (r: u16)
        ensures
            r == self@.cols,
    {
        self.cols
    }

    pub fn rows(&self) -> (r: u16)
        ensures
            r == self@.rows,
    {
        self.rows
    }

    /// All cells, row by row.
    pub fn cells(&self) -> (r: &[Cell])
        ensures
            r@.map_values(|c: Cell| c@) == self@.cells,
    {
        self.cells.as_slice()
    }

    /// Resizes and clears the grid. Existing contents are discarded; callers
    /// that want to keep text across a resize must redraw.
    pub fn resize(&mut self, cols: u16, rows: u16)
        ensures
            final(self)@ == GridView::blank(cols, rows),
            final(self)@.wf(),
    {
        self.cols = cols;
        self.rows = rows;
        self.cells.clear();
        proof {
            lemma_cell_count_fits(cols, rows);
        }
        self.cells = blank_cells(cols as usize * rows as usize);
        assert(self@.cells =~= GridView::blank(cols, rows).cells);
    }

    /// Writes `cell` at `(x, y)`. Out-of-range positions are ignored, as a
    /// terminal clips them.
    pub fn set(&mut self, x: u16, y: u16, cell: Cell)
        requires
            old(self)@.wf(),
        ensures
            final(self)@ == old(self)@.with_cell(x, y, cell@),
            final(self)@.wf(),
    {
        if x >= self.cols || y >= self.rows {
            return;
        }
        let n = self.cells.len();
        proof {
            lemma_index_in_bounds(self.cols, self.rows, x, y);
            assert((y as int) * (self.cols as int) <= cell_index(self.cols, x, y));
        }
        let idx = y as usize * self.cols as usize + x as usize;
        self.cells.set(idx, cell);
        assert(self@.cells =~= old(self)@.cells.update(cell_index(self.cols, x, y), cell@));
    }

    /// The cell at `(x, y)`, or `None` when out of range.
    pub fn get(&self, x: u16, y: u16) -> (r: Option<&Cell>)
        requires
            self@.wf(),
        ensures
            match r {
                Some(c) => self@.cell_at(x, y) == Some(c@),
                None => self@.cell_at(x, y) is None,
            },
    {
        if x >= self.cols || y >= self.rows {
            return None;
        }
        let n = self.cells.len();
        proof {
            lemma_index_in_bounds(self.cols, self.rows, x, y);
            assert((y as int) * (self.cols as int) <= cell_index(self.cols, x, y));
        }
        let idx = y as usize * self.cols as usize + x as usize;
        Some(&self.cells[idx])
    }

    /// Overwrites every cell with a copy of `cell`.
    pub fn fill(&mut self, cell: Cell)
        requires
            old(self)@.wf(),
        ensures
            final(self)@ == old(self)@.filled(cell@),
            final(self)@.wf(),
    {
        let n = self.cells.len();
        let mut i: usize = 0;
        while i < n
            invariant
                n == self.cells@.len(),
                i <= n,
                self.cols == old(self).cols,
                self.rows == old(self).rows,
                old(self)@.wf(),
                n == old(self)@.cells.len(),
                forall|j: int| 0 <= j < i ==> #[trigger] self.cells@[j]@ == cell@,
            decreases n - i,
        {
            self.cells.set(i, cell.duplicate());
            i = i + 1;
        }
        assert(self@.cells =~= old(self)@.filled(cell@).cells);
    }
}

/// Reading a position after writing it gives back what was written; every
/// other position is unaffected.
pub proof fn law_get_after_set(g: GridView, x: u16, y: u16, c: CellView, x2: u16, y2: u16)
    requires
        g.wf(),
    ensures
        g.with_cell(x, y, c).wf(),
        g.in_bounds(x, y) ==> g.with_cell(x, y, c).cell_at(x, y) == Some(c),
        (x2 != x || y2 != y) ==> g.with_cell(x, y, c).cell_at(x2, y2) == g.cell_at(x2, y2),
{
    if g.in_bounds(x, y) {
        lemma_index_in_bounds(g.cols, g.rows, x, y);
    }
    if g.in_bounds(x2, y2) {
        lemma_index_in_bounds(g.cols, g.rows, x2, y2);
        if g.in_bounds(x, y) && (x2 != x || y2 != y) {
            if y2 == y {
                assert(cell_index(g.cols, x, y) != cell_index(g.cols, x2, y2));
            } else if y2 < y {
                assert((y2 as int) * (g.cols as int) + (g.cols as int) <= (y as int) * (g.cols as int))
                    by (nonlinear_arith)
                    requires
                        y2 < y,
                ;
            } else {
                assert((y as int) * (g.cols as int) + (g.cols as int) <= (y2 as int) * (g.cols as int))
                    by (nonlinear_arith)
                    requires
                        y < y2,
                ;
            }
        }
    }
}

} // verus!
