use pi_oven::backend::RatatuiGridBackend;
use pi_oven::grid::{Cell, Color, Grid, ATTR_BOLD, ATTR_ITALIC, ATTR_UNDERLINED};
use pi_oven::paint::{build_lines, color_rgb, state_to_span, ClearColor};

fn cell(s: &str, fg: Color, attrs: u16) -> Cell {
    Cell { symbol: s.to_string(), fg, bg: Color::Reset, attrs }
}

#[test]
fn new_grid_is_blank() {
    let g = Grid::new(3, 2);
    assert_eq!(g.cols(), 3);
    assert_eq!(g.rows(), 2);
    assert_eq!(g.cells().len(), 6);
    for c in g.cells() {
        assert_eq!(c, &Cell::default());
        assert_eq!(c.symbol, " ");
    }
}

#[test]
fn get_after_set_reads_back_the_cell() {
    let mut g = Grid::new(4, 3);
    g.set(2, 1, cell("x", Color::Red, ATTR_BOLD));
    assert_eq!(g.get(2, 1), Some(&cell("x", Color::Red, ATTR_BOLD)));
    assert_eq!(g.cells()[1 * 4 + 2].symbol, "x");
    assert_eq!(g.get(1, 2), Some(&Cell::default()));
}

#[test]
fn out_of_range_is_ignored() {
    let mut g = Grid::new(2, 2);
    g.set(2, 0, cell("x", Color::Red, 0));
    g.set(0, 2, cell("x", Color::Red, 0));
    assert!(g.cells().iter().all(|c| c == &Cell::default()));
    assert_eq!(g.get(2, 0), None);
    assert_eq!(g.get(0, 2), None);
}

#[test]
fn resize_and_fill() {
    let mut g = Grid::new(2, 2);
    g.set(0, 0, cell("a", Color::Blue, 0));
    g.resize(3, 1);
    assert_eq!((g.cols(), g.rows()), (3, 1));
    assert_eq!(g.cells().len(), 3);
    assert_eq!(g.get(0, 0), Some(&Cell::default()));
    g.fill(cell("#", Color::Green, 0));
    assert!(g.cells().iter().all(|c| c.symbol == "#" && c.fg == Color::Green));
}

#[test]
fn backend_draw_marks_rows_dirty() {
    let mut b = RatatuiGridBackend::new(5, 3);
    assert_eq!(b.size(), (5, 3));
    b.draw_cell(0, 2, cell("p", Color::Reset, 0));
    b.draw_cell(1, 0, cell("i", Color::Reset, 0));
    b.draw_cell(2, 2, cell("-", Color::Reset, 0));
    b.draw_cell(9, 1, cell("z", Color::Reset, 0));
    assert_eq!(b.grid().get(0, 2).map(|c| c.symbol.as_str()), Some("p"));
    assert_eq!(b.grid().get(1, 0).map(|c| c.symbol.as_str()), Some("i"));
    assert_eq!(b.take_dirty_rows(), vec![0, 1, 2]);
    assert_eq!(b.take_dirty_rows(), Vec::<u16>::new());
}

#[test]
fn backend_cursor_and_clear() {
    let mut b = RatatuiGridBackend::new(4, 4);
    assert!(b.cursor_visible());
    b.hide_cursor();
    assert!(!b.cursor_visible());
    b.show_cursor();
    assert!(b.cursor_visible());
    b.set_cursor_position(3, 2);
    assert_eq!(b.get_cursor_position(), (3, 2));
    b.resize(2, 2);
    assert_eq!(b.get_cursor_position(), (1, 1));
    assert_eq!(b.size(), (2, 2));
    b.draw_cell(1, 1, cell("q", Color::Red, 0));
    b.clear();
    assert!(b.grid().cells().iter().all(|c| c == &Cell::default()));
}

#[test]
fn grid_mut_edits_the_backend_grid() {
    let mut b = RatatuiGridBackend::new(2, 1);
    b.grid_mut().set(1, 0, cell("k", Color::Cyan, 0));
    assert_eq!(b.grid().get(1, 0).map(|c| c.fg), Some(Color::Cyan));
}

#[test]
fn clear_color_default() {
    let c = ClearColor::default();
    assert_eq!(c.0, [0x12, 0x12, 0x12, 0xff]);
}

#[test]
fn colour_table() {
    assert_eq!(color_rgb(Color::Reset), None);
    assert_eq!(color_rgb(Color::Red), Some((0xcc, 0x33, 0x33)));
    assert_eq!(color_rgb(Color::LightCyan), Some((0x66, 0xff, 0xff)));
    assert_eq!(color_rgb(Color::Rgb(1, 2, 3)), Some((1, 2, 3)));
    assert_eq!(color_rgb(Color::Indexed(7)), None);
}

#[test]
fn span_style_from_attributes() {
    let s = state_to_span(Color::Green, Color::Red, ATTR_BOLD | ATTR_UNDERLINED, "ab".to_string());
    assert_eq!(s.text, "ab");
    assert_eq!(s.attrs.color, Some((0x33, 0xcc, 0x33)));
    assert!(s.attrs.bold);
    assert!(!s.attrs.italic);
    let s = state_to_span(Color::Reset, Color::Reset, ATTR_ITALIC, String::new());
    assert_eq!(s.attrs.color, None);
    assert!(!s.attrs.bold);
    assert!(s.attrs.italic);
}

#[test]
fn rows_become_runs_of_equal_style() {
    let mut g = Grid::new(4, 2);
    g.set(0, 0, cell("a", Color::Red, 0));
    g.set(1, 0, cell("b", Color::Red, 0));
    g.set(2, 0, cell("c", Color::Blue, 0));
    let lines = build_lines(&g);
    assert_eq!(lines.len(), 2);
    let texts: Vec<&str> = lines[0].spans.iter().map(|s| s.text.as_str()).collect();
    assert_eq!(texts, vec!["ab", "c", " ", "\n"]);
    assert_eq!(lines[0].spans[0].attrs.color, Some((0xcc, 0x33, 0x33)));
    assert_eq!(lines[0].spans[1].attrs.color, Some((0x33, 0x33, 0xcc)));
    let last: Vec<&str> = lines[1].spans.iter().map(|s| s.text.as_str()).collect();
    assert_eq!(last, vec!["    "]);
}

#[test]
fn empty_grid_has_no_lines() {
    let g = Grid::new(0, 0);
    assert!(build_lines(&g).is_empty());
}
