use std::io;

use pi_oven::backend::RatatuiGridBackend;
use pi_oven::grid::{Cell, Color, Grid};
use ratatui::backend::{Backend, WindowSize};
use ratatui::buffer::Cell as RatatuiCell;
use ratatui::layout::{Position, Rect, Size};
use ratatui::style::Color as RColor;
use ratatui::widgets::Paragraph;
use ratatui::Terminal;

/// The grid backend driven by a ratatui `Terminal`.
struct GridBackend(RatatuiGridBackend);

fn color(c: RColor) -> Color {
    match c {
        RColor::Red => Color::Red,
        RColor::Reset => Color::Reset,
        other => panic!("colour not used here: {other:?}"),
    }
}

impl Backend for GridBackend {
    fn draw<'a, I>(&mut self, content: I) -> io::Result<()>
    where
        I: Iterator<Item = (u16, u16, &'a RatatuiCell)>,
    {
        for (x, y, c) in content {
            let cell = Cell {
                symbol: c.symbol().to_string(),
                fg: color(c.fg),
                bg: color(c.bg),
                attrs: c.modifier.bits(),
            };
            self.0.draw_cell(x, y, cell);
        }
        Ok(())
    }

    fn hide_cursor(&mut self) -> io::Result<()> {
        self.0.hide_cursor();
        Ok(())
    }

    fn show_cursor(&mut self) -> io::Result<()> {
        self.0.show_cursor();
        Ok(())
    }

    fn get_cursor_position(&mut self) -> io::Result<Position> {
        let (x, y) = self.0.get_cursor_position();
        Ok(Position::new(x, y))
    }

    fn set_cursor_position<P: Into<Position>>(&mut self, position: P) -> io::Result<()> {
        let p = position.into();
        self.0.set_cursor_position(p.x, p.y);
        Ok(())
    }

    fn clear(&mut self) -> io::Result<()> {
        self.0.clear();
        Ok(())
    }

    fn size(&self) -> io::Result<Size> {
        let (w, h) = self.0.size();
        Ok(Size::new(w, h))
    }

    fn window_size(&mut self) -> io::Result<WindowSize> {
        let (w, h) = self.0.size();
        Ok(WindowSize { columns_rows: Size::new(w, h), pixels: Size::new(0, 0) })
    }

    fn flush(&mut self) -> io::Result<()> {
        Ok(())
    }
}

#[test]
fn paragraph_writes_into_grid_at_the_layout_position() {
    let backend = GridBackend(RatatuiGridBackend::new(20, 5));
    let mut terminal = Terminal::new(backend).expect("terminal");

    terminal
        .draw(|f| {
            let area = Rect::new(0, 0, f.area().width, 1);
            f.render_widget(Paragraph::new("pi-oven"), area);
        })
        .expect("draw");

    let grid: &Grid = terminal.backend().0.grid();
    let row0: String = (0..7).map(|x| grid.get(x, 0).expect("cell").symbol.clone()).collect();
    assert_eq!(row0, "pi-oven");
}

#[test]
fn styled_paragraph_preserves_fg_in_grid() {
    let backend = GridBackend(RatatuiGridBackend::new(20, 5));
    let mut terminal = Terminal::new(backend).expect("terminal");

    terminal
        .draw(|f| {
            let area = Rect::new(0, 0, f.area().width, 1);
            f.render_widget(
                Paragraph::new("X").style(ratatui::style::Style::default().fg(RColor::Red)),
                area,
            );
        })
        .expect("draw");

    let grid: &Grid = terminal.backend().0.grid();
    let cell = grid.get(0, 0).expect("cell");
    assert_eq!(cell.symbol, "X");
    assert_eq!(cell.fg, Color::Red);
}
