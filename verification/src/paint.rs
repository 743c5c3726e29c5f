//! What the paint pipeline draws: the clear colour, the RGB values of the
//! terminal colours, and the text runs built from a [`Grid`] — one styled
//! run per maximal range of equally styled cells in a row, rows separated by
//! newlines. The GPU side turns these runs into shaped glyphs.
use vstd::prelude::*;
use vstd::string::StringExecFns;
use crate::grid::{Attrs, Cell, CellView, Color, Grid, GridView, ATTR_BOLD, ATTR_ITALIC, cell_index};

verus! {

broadcast use vstd::seq::group_seq_axioms, vstd::seq_lib::group_seq_properties;

/// 0–255 RGBA background colour the surface is cleared to.
#[derive(Debug, Clone, Copy)]
pub struct ClearColor(pub [u8; 4]);

impl Default for ClearColor {
    /// A near-black, opaque background.
    fn default() -> (r: ClearColor)
        ensures
            r.0@ == seq![0x12u8, 0x12u8, 0x12u8, 0xffu8],
    {
        let r = ClearColor([0x12, 0x12, 0x12, 0xff]);
        assert(r.0@ =~= seq![0x12u8, 0x12u8, 0x12u8, 0xffu8]);
        r
    }
}

/// Text attributes of a run: colour (`None` for the default), bold, italic.
/// Runs are always set in the monospace family.
#[derive(Debug, Clone, Copy, PartialEq, Eq)]
pub struct GlyphAttrs {
    pub color: Option<(u8, u8, u8)>,
    pub bold: bool,
    pub italic: bool,
}

/// One styled run of text.
#[derive(Debug, Clone)]
pub struct PaintSpan {
    pub text: String,
    pub attrs: GlyphAttrs,
}

/// One row's worth of runs.
#[derive(Debug, Clone)]
pub struct PaintLine {
    pub spans: Vec<PaintSpan>,
}

/// RGB value a terminal colour is drawn with; `None` keeps the default
/// text colour.
pub open spec fn rgb_of(c: Color) -> Option<(u8, u8, u8)> {
    match c {
        Color::Reset => None,
        Color::Black => Some((0u8, 0u8, 0u8)),
        Color::Red => Some((0xccu8, 0x33u8, 0x33u8)),
        Color::Green => Some((0x33u8, 0xccu8, 0x33u8)),
        Color::Yellow => Some((0xccu8, 0xccu8, 0x33u8)),
        Color::Blue => Some((0x33u8, 0x33u8, 0xccu8)),
        Color::Magenta => Some((0xccu8, 0x33u8, 0xccu8)),
        Color::Cyan => Some((0x33u8, 0xccu8, 0xccu8)),
        Color::Gray => Some((0xaau8, 0xaau8, 0xaau8)),
        Color::DarkGray => Some((0x55u8, 0x55u8, 0x55u8)),
        Color::LightRed => Some((0xffu8, 0x66u8, 0x66u8)),
        Color::LightGreen => Some((0x66u8, 0xffu8, 0x66u8)),
        Color::LightYellow => Some((0xffu8, 0xffu8, 0x66u8)),
        Color::LightBlue => Some((0x66u8, 0x66u8, 0xffu8)),
        Color::LightMagenta => Some((0xffu8, 0x66u8, 0xffu8)),
        Color::LightCyan => Some((0x66u8, 0xffu8, 0xffu8)),
        Color::White => Some((0xffu8, 0xffu8, 0xffu8)),
        Color::Rgb(r, g, b) => Some((r, g, b)),
        Color::Indexed(_) => None,
    }
}

/// The RGB value `c` is drawn with.
pub fn color_rgb(c: Color) -> (r: Option<(u8, u8, u8)>)
    ensures
        r == rgb_of(c),
{
    match c {
        Color::Reset => None,
        Color::Black => Some((0, 0, 0)),
        Color::Red => Some((0xcc, 0x33, 0x33)),
        Color::Green => Some((0x33, 0xcc, 0x33)),
        Color::Yellow => Some((0xcc, 0xcc, 0x33)),
        Color::Blue => Some((0x33, 0x33, 0xcc)),
        Color::Magenta => Some((0xcc, 0x33, 0xcc)),
        Color::Cyan => Some((0x33, 0xcc, 0xcc)),
        Color::Gray => Some((0xaa, 0xaa, 0xaa)),
        Color::DarkGray => Some((0x55, 0x55, 0x55)),
        Color::LightRed => Some((0xff, 0x66, 0x66)),
        Color::LightGreen => Some((0x66, 0xff, 0x66)),
        Color::LightYellow => Some((0xff, 0xff, 0x66)),
        Color::LightBlue => Some((0x66, 0x66, 0xff)),
        Color::LightMagenta => Some((0xff, 0x66, 0xff)),
        Color::LightCyan => Some((0x66, 0xff, 0xff)),
        Color::White => Some((0xff, 0xff, 0xff)),
        Color::Rgb(r, g, b) => Some((r, g, b)),
        Color::Indexed(_) => None,
    }
}

/// Attributes of a run drawn in `fg` with attribute bits `attrs`: the
/// foreground colour, bold and italic. The background is not drawn.
pub open spec fn glyph_attrs(fg: Color, attrs: Attrs) -> GlyphAttrs {
    GlyphAttrs { color: rgb_of(fg), bold: attrs & ATTR_BOLD != 0, italic: attrs & ATTR_ITALIC != 0 }
}

/// Attributes of the row separator: default colour, regular weight.
pub open spec fn plain_attrs() -> GlyphAttrs {
    GlyphAttrs { color: None, bold: false, italic: false }
}

/// Turns a finished run into a span.
pub fn state_to_span(fg: Color, bg: Color, attrs: Attrs, text: String) -> (r: PaintSpan)
    ensures
        r.text@ == text@,
        r.attrs == glyph_attrs(fg, attrs),
{
    let a = GlyphAttrs {
        color: color_rgb(fg),
        bold: attrs & ATTR_BOLD != 0,
        italic: attrs & ATTR_ITALIC != 0,
    };
    PaintSpan { text, attrs: a }
}

/// Style key of a cell: runs break where it changes.
pub open spec fn style_of(c: CellView) -> (Color, Color, Attrs) {
    (c.fg, c.bg, c.attrs)
}

/// Maximal runs of equally styled cells, each with the concatenation of
/// its cells' symbols.
pub open spec fn runs(row: Seq<CellView>) -> Seq<((Color, Color, Attrs), Seq<char>)>
    decreases row.len(),
{
    if row.len() == 0 {
        seq![]
    } else {
        let prev = runs(row.drop_last());
        let c = row.last();
        if prev.len() > 0 && prev.last().0 == style_of(c) {
            prev.update(prev.len() - 1, (prev.last().0, prev.last().1 + c.symbol))
        } else {
            prev.push((style_of(c), c.symbol))
        }
    }
}

/// A run as drawn: its text and glyph attributes.
pub open spec fn run_span(r: ((Color, Color, Attrs), Seq<char>)) -> (Seq<char>, GlyphAttrs) {
    (r.1, glyph_attrs(r.0.0, r.0.2))
}

/// The cells of row `y`.
pub open spec fn row_cells(g: GridView, y: int) -> Seq<CellView> {
    g.cells.subrange(y * g.cols as int, (y + 1) * g.cols as int)
}

/// The spans of row `y`: its runs, then a newline unless it is the last row.
pub open spec fn line_spans(g: GridView, y: int) -> Seq<(Seq<char>, GlyphAttrs)> {
    runs(row_cells(g, y)).map_values(|r: ((Color, Color, Attrs), Seq<char>)| run_span(r)) + if y
        + 1 < g.rows {
        seq![(seq!['\n'], plain_attrs())]
    } else {
        seq![]
    }
}

pub open spec fn span_view(s: PaintSpan) -> (Seq<char>, GlyphAttrs) {
    (s.text@, s.attrs)
}

/// Texts and attributes of a sequence of spans.
pub open spec fn spans_view(v: Seq<PaintSpan>) -> Seq<(Seq<char>, GlyphAttrs)> {
    v.map_values(|s: PaintSpan| span_view(s))
}

/// Mapping over a sequence extended by one element.
proof fn lemma_map_push<A, B>(s: Seq<A>, x: A, f: spec_fn(A) -> B)
    ensures
        s.push(x).map_values(f) == s.map_values(f).push(f(x)),
{
    assert(s.push(x).map_values(f) =~= s.map_values(f).push(f(x)));
}

/// The runs of row `y`, as spans.
fn build_line(grid: &Grid, y: u16) -> (r: Vec<PaintSpan>)
    requires
        grid@.wf(),
        y < grid@.rows,
    ensures
        spans_view(r@) == line_spans(grid@, y as int),
{
    let ghost g = grid@;
    let ghost row = row_cells(g, y as int);
    let cols = grid.cols();
    proof {
        assert((y as int + 1) * (cols as int) <= (g.rows as int) * (cols as int)) by (nonlinear_arith)
            requires
                y < g.rows,
        ;
        assert((g.rows as int) * (cols as int) == (cols as int) * (g.rows as int)) by (nonlinear_arith);
        assert((y as int + 1) * (cols as int) == (y as int) * (cols as int) + cols as int) by (nonlinear_arith);
        assert(0 <= (y as int) * (cols as int)) by (nonlinear_arith);
    }
    let mut spans: Vec<PaintSpan> = Vec::new();
    let mut has_cur = false;
    let mut cur_fg = Color::Reset;
    let mut cur_bg = Color::Reset;
    let mut cur_attrs: Attrs = 0;
    let mut cur_text = String::new();
    let mut x: u16 = 0;
    while x < cols
        invariant
            g == grid@,
            g.wf(),
            cols == g.cols,
            y < g.rows,
            row == row_cells(g, y as int),
            row.len() == cols,
            0 <= (y as int) * (cols as int),
            (y as int + 1) * (cols as int) == (y as int) * (cols as int) + cols as int,
            (y as int + 1) * (cols as int) <= g.cells.len(),
            x <= cols,
            has_cur == (x > 0),
            has_cur ==> runs(row.take(x as int)).len() > 0 && runs(row.take(x as int)).last() == (
                (cur_fg, cur_bg, cur_attrs),
                cur_text@,
            ),
            spans_view(spans@) == (if has_cur {
                runs(row.take(x as int)).drop_last()
            } else {
                runs(row.take(x as int))
            }).map_values(|r: ((Color, Color, Attrs), Seq<char>)| run_span(r)),
        decreases cols - x,
    {
        let cell = grid.get(x, y).unwrap();
        proof {
            assert(g.cells[cell_index(cols, x, y)] == cell@);
            assert(row[x as int] == g.cells[(y as int) * (cols as int) + x as int]);
            assert(row[x as int] == cell@);
            assert(row.take(x + 1).drop_last() =~= row.take(x as int));
            assert(row.take(x + 1).last() == row[x as int]);
        }
        let ghost prev = runs(row.take(x as int));
        if has_cur && cur_fg == cell.fg && cur_bg == cell.bg && cur_attrs == cell.attrs {
            cur_text.append(cell.symbol.as_str());
            proof {
                assert(spans_view(spans@) =~= runs(
                    row.take(x + 1),
                ).drop_last().map_values(|r: ((Color, Color, Attrs), Seq<char>)| run_span(r)));
            }
        } else {
            if has_cur {
                let span = state_to_span(cur_fg, cur_bg, cur_attrs, cur_text);
                let ghost old_spans = spans@;
                spans.push(span);
                proof {
                    assert(prev.drop_last().push(prev.last()) =~= prev);
                    lemma_map_push(old_spans, span, |s: PaintSpan| span_view(s));
                    lemma_map_push(prev.drop_last(), prev.last(), |r: ((Color, Color, Attrs), Seq<char>)| run_span(r));
                    assert(spans_view(spans@) =~= prev.map_values(
                        |r: ((Color, Color, Attrs), Seq<char>)| run_span(r),
                    ));
                }
            }
            cur_fg = cell.fg;
            cur_bg = cell.bg;
            cur_attrs = cell.attrs;
            cur_text = cell.symbol.clone();
            has_cur = true;
            proof {
                assert(runs(row.take(x + 1)) == prev.push(((cur_fg, cur_bg, cur_attrs), cur_text@)));
                assert(runs(row.take(x + 1)).drop_last() =~= prev);
            }
        }
        x = x + 1;
    }
    proof {
        assert(row.take(cols as int) =~= row);
    }
    if has_cur {
        let span = state_to_span(cur_fg, cur_bg, cur_attrs, cur_text);
        let ghost old_spans = spans@;
        spans.push(span);
        proof {
            let rs = runs(row);
            assert(rs.drop_last().push(rs.last()) =~= rs);
            lemma_map_push(old_spans, span, |s: PaintSpan| span_view(s));
            lemma_map_push(rs.drop_last(), rs.last(), |r: ((Color, Color, Attrs), Seq<char>)| run_span(r));
        }
    }
    let ghost body = spans_view(spans@);
    assert(body == runs(row).map_values(|r: ((Color, Color, Attrs), Seq<char>)| run_span(r)));
    if y as u32 + 1 < grid.rows() as u32 {
        let nl = "\n".to_owned();
        proof {
            reveal_strlit("\n");
            assert(nl@ =~= seq!['\n']);
        }
        let nls = PaintSpan { text: nl, attrs: GlyphAttrs { color: None, bold: false, italic: false } };
        let ghost old_spans = spans@;
        spans.push(nls);
        proof {
            lemma_map_push(old_spans, nls, |s: PaintSpan| span_view(s));
            assert(spans_view(spans@) == body.push((seq!['\n'], plain_attrs())));
            assert(body.push((seq!['\n'], plain_attrs())) =~= body + seq![(seq!['\n'], plain_attrs())]);
        }
    } else {
        assert(body =~= body + Seq::<(Seq<char>, GlyphAttrs)>::empty());
    }
    assert(spans_view(spans@) =~= line_spans(g, y as int));
    spans
}

/// Number of places in `row` where a cell's style differs from the one
/// before it.
pub open spec fn style_changes(row: Seq<CellView>) -> int
    decreases row.len(),
{
    if row.len() <= 1 {
        0
    } else {
        style_changes(row.drop_last()) + if style_of(row.last()) != style_of(row[row.len() - 2]) {
            1int
        } else {
            0int
        }
    }
}

/// Index of the run that cell `x` belongs to: the style changes up to it.
pub open spec fn run_of_cell(row: Seq<CellView>, x: int) -> int {
    style_changes(row.take(x + 1))
}

/// The symbols of the cells of `row` that belong to run `j`, in order.
pub open spec fn run_cells_text(row: Seq<CellView>, j: int) -> Seq<char>
    decreases row.len(),
{
    if row.len() == 0 {
        seq![]
    } else {
        run_cells_text(row.drop_last(), j) + if style_changes(row) == j {
            row.last().symbol
        } else {
            seq![]
        }
    }
}

proof fn lemma_cells_text_beyond(row: Seq<CellView>, j: int)
    requires
        j > style_changes(row),
    ensures
        run_cells_text(row, j) == Seq::<char>::empty(),
    decreases row.len(),
{
    if row.len() > 0 {
        if row.len() > 1 {
            lemma_changes_mono(row);
        }
        lemma_cells_text_beyond(row.drop_last(), j);
        assert(run_cells_text(row, j) =~= Seq::<char>::empty());
    }
}

proof fn lemma_changes_mono(row: Seq<CellView>)
    requires
        row.len() > 1,
    ensures
        style_changes(row.drop_last()) <= style_changes(row),
{
}

proof fn lemma_changes_nonneg(row: Seq<CellView>)
    ensures
        style_changes(row) >= 0,
    decreases row.len(),
{
    if row.len() > 1 {
        lemma_changes_nonneg(row.drop_last());
    }
}

/// A row is drawn as one run per stretch of equally styled cells: there
/// is one more run than there are style changes between neighbouring
/// cells, every cell lies in the run its position calls for and that run
/// has the cell's own style (colours and attributes), and each run's text
/// is the symbols of exactly its cells, in order.
pub proof fn law_runs_follow_styles(row: Seq<CellView>)
    requires
        row.len() > 0,
    ensures
        runs(row).len() == style_changes(row) + 1,
        forall|x: int|
            0 <= x < row.len() ==> #[trigger] runs(row)[run_of_cell(row, x)].0 == style_of(row[x]),
        forall|j: int| 0 <= j < runs(row).len() ==> #[trigger] runs(row)[j].1 == run_cells_text(row, j),
    decreases row.len(),
{
    let p = row.drop_last();
    let c = row.last();
    let n = row.len() as int;
    lemma_changes_nonneg(row);
    if n == 1 {
        assert(p =~= Seq::<CellView>::empty());
        assert(runs(p) =~= Seq::<((Color, Color, Attrs), Seq<char>)>::empty());
        assert(runs(row) == seq![(style_of(c), c.symbol)]);
        assert(row.take(1) =~= row);
        assert forall|j: int| 0 <= j < runs(row).len() implies #[trigger] runs(row)[j].1
            == run_cells_text(row, j) by {
            assert(run_cells_text(p, j) =~= Seq::<char>::empty());
            assert(run_cells_text(row, j) =~= c.symbol);
        }
    } else {
        law_runs_follow_styles(p);
        lemma_changes_nonneg(p);
        let rp = runs(p);
        assert(p.last() == row[n - 2]);
        let last_idx = style_changes(p);
        assert(rp.last().0 == style_of(p.last())) by {
            assert(run_of_cell(p, n - 2) == last_idx) by {
                assert(p.take(n - 1) =~= p);
            }
        }
        assert forall|x: int| 0 <= x < n - 1 implies #[trigger] run_of_cell(row, x) == run_of_cell(p, x) by {
            assert(row.take(x + 1) =~= p.take(x + 1));
        }
        assert(row.take(n) =~= row);
        assert(run_of_cell(row, n - 1) == style_changes(row));
        if style_of(c) == style_of(row[n - 2]) {
            assert(style_changes(row) == last_idx);
            assert(runs(row) == rp.update(rp.len() - 1, (rp.last().0, rp.last().1 + c.symbol)));
            assert forall|x: int| 0 <= x < row.len() implies #[trigger] runs(row)[run_of_cell(row, x)].0
                == style_of(row[x]) by {
                if x < n - 1 {
                    lemma_changes_nonneg(p.take(x + 1));
                    lemma_prefix_changes(p, x + 1);
                    assert(0 <= run_of_cell(p, x) < rp.len());
                    assert(runs(p)[run_of_cell(p, x)].0 == style_of(p[x]));
                } else {
                    assert(runs(row)[last_idx].0 == rp.last().0);
                }
            }
            assert forall|j: int| 0 <= j < runs(row).len() implies #[trigger] runs(row)[j].1
                == run_cells_text(row, j) by {
                assert(rp[j].1 == run_cells_text(p, j));
                if j == last_idx {
                    assert(run_cells_text(row, j) == run_cells_text(p, j) + c.symbol);
                } else {
                    assert(run_cells_text(row, j) =~= run_cells_text(p, j));
                }
            }
        } else {
            assert(style_changes(row) == last_idx + 1);
            assert forall|x: int| 0 <= x < row.len() implies #[trigger] runs(row)[run_of_cell(row, x)].0
                == style_of(row[x]) by {
                if x < n - 1 {
                    assert(runs(p)[run_of_cell(p, x)].0 == style_of(p[x]));
                    assert(0 <= run_of_cell(p, x) < rp.len()) by {
                        lemma_changes_nonneg(p.take(x + 1));
                        lemma_prefix_changes(p, x + 1);
                    }
                }
            }
            assert forall|j: int| 0 <= j < runs(row).len() implies #[trigger] runs(row)[j].1
                == run_cells_text(row, j) by {
                if j <= last_idx {
                    assert(rp[j].1 == run_cells_text(p, j));
                    assert(run_cells_text(row, j) =~= run_cells_text(p, j));
                } else {
                    lemma_cells_text_beyond(p, j);
                    assert(run_cells_text(row, j) =~= c.symbol);
                }
            }
        }
    }
}

proof fn lemma_prefix_changes(row: Seq<CellView>, k: int)
    requires
        1 <= k <= row.len(),
    ensures
        style_changes(row.take(k)) <= style_changes(row),
    decreases row.len() - k,
{
    if k < row.len() {
        lemma_prefix_changes(row, k + 1);
        assert(row.take(k + 1).drop_last() =~= row.take(k));
        lemma_changes_mono(row.take(k + 1));
    } else {
        assert(row.take(k) =~= row);
    }
}

/// In a painted row every cell is drawn with its own colour and
/// attributes: the span of the run it belongs to has `glyph_attrs` of the
/// cell's foreground and attribute bits, and neighbouring cells whose
/// styles differ never share a span.
pub proof fn law_cells_keep_their_attrs(g: GridView, y: int)
    requires
        g.wf(),
        0 <= y < g.rows,
        g.cols > 0,
    ensures
        forall|x: int|
            0 <= x < g.cols ==> #[trigger] line_spans(g, y)[run_of_cell(row_cells(g, y), x)].1
                == glyph_attrs(row_cells(g, y)[x].fg, row_cells(g, y)[x].attrs),
        forall|x: int|
            0 < x < g.cols && style_of(row_cells(g, y)[x]) != style_of(row_cells(g, y)[x - 1])
                ==> #[trigger] run_of_cell(row_cells(g, y), x) == run_of_cell(row_cells(g, y), x - 1)
                + 1,
{
    let row = row_cells(g, y);
    assert((y + 1) * (g.cols as int) <= (g.rows as int) * (g.cols as int)) by (nonlinear_arith)
        requires
            y < g.rows,
    ;
    assert((g.rows as int) * (g.cols as int) == (g.cols as int) * (g.rows as int)) by (nonlinear_arith);
    assert((y + 1) * (g.cols as int) == y * (g.cols as int) + g.cols as int) by (nonlinear_arith);
    assert(0 <= y * (g.cols as int)) by (nonlinear_arith)
        requires
            0 <= y,
    ;
    assert(row.len() == g.cols);
    law_runs_follow_styles(row);
    let rs = runs(row);
    assert forall|x: int| 0 <= x < g.cols implies #[trigger] line_spans(g, y)[run_of_cell(row, x)].1
        == glyph_attrs(row[x].fg, row[x].attrs) by {
        let j = run_of_cell(row, x);
        lemma_changes_nonneg(row.take(x + 1));
        lemma_prefix_changes(row, x + 1);
        assert(0 <= j < rs.len());
        assert(rs[j].0 == style_of(row[x]));
    }
    assert forall|x: int|
        0 < x < g.cols && style_of(row[x]) != style_of(row[x - 1]) implies #[trigger] run_of_cell(row, x)
        == run_of_cell(row, x - 1) + 1 by {
        assert(row.take(x + 1).drop_last() =~= row.take(x));
        assert(row.take(x + 1)[x - 1] == row[x - 1]);
    }
}

/// The text runs of every row of `grid`, top to bottom.
pub fn build_lines(grid: &Grid) -> (r: Vec<PaintLine>)
    requires
        grid@.wf(),
    ensures
        r@.len() == grid@.rows,
        forall|y: int|
            0 <= y < grid@.rows ==> #[trigger] spans_view(r@[y].spans@)
                == line_spans(grid@, y),
{
    let mut lines: Vec<PaintLine> = Vec::new();
    let rows = grid.rows();
    let mut y: u16 = 0;
    while y < rows
        invariant
            rows == grid@.rows,
            grid@.wf(),
            y <= rows,
            lines@.len() == y,
            forall|j: int|
                0 <= j < y ==> #[trigger] spans_view(lines@[j].spans@)
                    == line_spans(grid@, j),
        decreases rows - y,
    {
        let spans = build_line(grid, y);
        lines.push(PaintLine { spans });
        y = y + 1;
    }
    lines
}

} // verus!
