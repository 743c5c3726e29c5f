//! Terminal backend state that writes draw diffs into a [`Grid`] instead of
//! emitting escape sequences: the grid, the cursor, its visibility, and the
//! rows touched since the painter last looked.
use vstd::prelude::*;
use crate::grid::{Cell, Grid, GridView, blank_cell};

verus! {

broadcast use vstd::seq::group_seq_axioms, vstd::seq_lib::group_seq_properties;

/// Owns a [`Grid`] and records the draw diffs written into it.
#[derive(Debug)]
pub struct RatatuiGridBackend {
    grid: Grid,
    cursor: (u16, u16),
    cursor_visible: bool,
    /// Rows that received at least one changed cell since the last
    /// [`take_dirty_rows`](Self::take_dirty_rows) call.
    dirty_rows: Vec<u16>,
}

/// Abstract value of a [`RatatuiGridBackend`].
pub struct BackendView {
    pub grid: GridView,
    pub cursor: (u16, u16),
    pub cursor_visible: bool,
    pub dirty_rows: Seq<u16>,
}

impl View for RatatuiGridBackend {
    type V = BackendView;

    closed spec fn view(&self) -> BackendView {
        BackendView {
            grid: self.grid@,
            cursor: self.cursor,
            cursor_visible: self.cursor_visible,
            dirty_rows: self.dirty_rows@,
        }
    }
}

pub open spec fn min_u16(a: u16, b: u16) -> u16 {
    if a <= b {
        a
    } else {
        b
    }
}

pub open spec fn sat_dec(a: u16) -> u16 {
    if a == 0 {
        0
    } else {
        (a - 1) as u16
    }
}

/// `s` is strictly increasing.
pub open spec fn strictly_increasing(s: Seq<u16>) -> bool {
    forall|i: int, j: int| 0 <= i < j < s.len() ==> s[i] < s[j]
}

impl RatatuiGridBackend {
    /// A backend over a blank `cols` × `rows` grid, cursor at the origin and
    /// visible, nothing dirty.
    pub fn new(cols: u16, rows: u16) -> (r: RatatuiGridBackend)
        ensures
            r@.grid == GridView::blank(cols, rows),
            r@.grid.wf(),
            r@.cursor == (0u16, 0u16),
            r@.cursor_visible,
            r@.dirty_rows == Seq::<u16>::empty(),
    {
        RatatuiGridBackend {
            grid: Grid::new(cols, rows),
            cursor: (0, 0),
            cursor_visible: true,
            dirty_rows: Vec::new(),
        }
    }

    pub fn grid(&self) -> (r: &Grid)
        ensures
            r@ == self@.grid,
    {
        &self.grid
    }

    pub fn grid_mut(&mut self) -> (r: &mut Grid)
        ensures
            (*r)@ == old(self)@.grid,
            final(self)@.grid == final(r)@,
            final(self)@.cursor == old(self)@.cursor,
            final(self)@.cursor_visible == old(self)@.cursor_visible,
            final(self)@.dirty_rows == old(self)@.dirty_rows,
    {
        &mut self.grid
    }

    /// Resizes (and clears) the grid, pulling the cursor back inside it.
    pub fn resize(&mut self, cols: u16, rows: u16)
        ensures
            final(self)@.grid == GridView::blank(cols, rows),
            final(self)@.grid.wf(),
            final(self)@.cursor == (
                min_u16(old(self)@.cursor.0, sat_dec(cols)),
                min_u16(old(self)@.cursor.1, sat_dec(rows)),
            ),
            final(self)@.cursor_visible == old(self)@.cursor_visible,
            final(self)@.dirty_rows == old(self)@.dirty_rows,
    {
        self.grid.resize(cols, rows);
        let max_x = if cols == 0 {
            0
        } else {
            cols - 1
        };
        let max_y = if rows == 0 {
            0
        } else {
            rows - 1
        };
        let x = if self.cursor.0 <= max_x {
            self.cursor.0
        } else {
            max_x
        };
        let y = if self.cursor.1 <= max_y {
            self.cursor.1
        } else {
            max_y
        };
        self.cursor = (x, y);
    }

    pub fn cursor_visible(&self) -> (r: bool)
        ensures
            r == self@.cursor_visible,
    {
        self.cursor_visible
    }

    /// The rows changed since the last call, in increasing order without
    /// repeats; clears the record. An empty result means the grid is
    /// unchanged since the previous frame.
    pub fn take_dirty_rows(&mut self) -> (r: Vec<u16>)
        ensures
            strictly_increasing(r@),
            forall|y: u16| r@.contains(y) <==> old(self)@.dirty_rows.contains(y),
            final(self)@.dirty_rows == Seq::<u16>::empty(),
            final(self)@.grid == old(self)@.grid,
            final(self)@.cursor == old(self)@.cursor,
            final(self)@.cursor_visible == old(self)@.cursor_visible,
    {
        let mut out: Vec<u16> = Vec::new();
        let n = self.dirty_rows.len();
        let mut i: usize = 0;
        while i < n
            invariant
                n == self.dirty_rows@.len(),
                i <= n,
                strictly_increasing(out@),
                forall|y: u16| out@.contains(y) <==> self.dirty_rows@.take(i as int).contains(y),
            decreases n - i,
        {
            let y = self.dirty_rows[i];
            let mut pos: usize = 0;
            while pos < out.len() && out[pos] < y
                invariant
                    pos <= out@.len(),
                    strictly_increasing(out@),
                    forall|j: int| 0 <= j < pos ==> out@[j] < y,
                decreases out@.len() - pos,
            {
                pos = pos + 1;
            }
            let ghost before = out@;
            if pos < out.len() && out[pos] == y {
                assert(out@[pos as int] == y);
                assert(out@.contains(y));
                assert forall|z: u16| out@.contains(z) <==> (before.contains(z) || z == y) by {}
            } else {
                out.insert(pos, y);
                proof {
                    assert forall|a: int, b: int| 0 <= a < b < out@.len() implies out@[a]
                        < out@[b] by {
                        if b < pos {
                        } else if b == pos {
                        } else if a < pos {
                            assert(before[b - 1] >= y) by {
                                assert(before[pos as int] > y);
                                if b - 1 > pos {
                                    assert(before[pos as int] < before[b - 1]);
                                }
                            }
                        } else if a == pos {
                            assert(before[pos as int] > y);
                            if b - 1 > pos {
                                assert(before[pos as int] < before[b - 1]);
                            }
                        } else {
                        }
                    }
                    assert forall|z: u16| out@.contains(z) <==> (before.contains(z) || z == y) by {
                        if out@.contains(z) {
                            let k = choose|k: int| 0 <= k < out@.len() && out@[k] == z;
                            if k < pos {
                                assert(before[k] == z);
                            } else if k > pos {
                                assert(before[k - 1] == z);
                            }
                        }
                        if before.contains(z) {
                            let k = choose|k: int| 0 <= k < before.len() && before[k] == z;
                            if k < pos {
                                assert(out@[k] == z);
                            } else {
                                assert(out@[k + 1] == z);
                            }
                        }
                        if z == y {
                            assert(out@[pos as int] == y);
                        }
                    }
                }
            }
            proof {
                assert(self.dirty_rows@.take(i + 1) =~= self.dirty_rows@.take(i as int).push(y));
                assert forall|z: u16|
                    self.dirty_rows@.take(i + 1).contains(z) <==> (self.dirty_rows@.take(
                        i as int,
                    ).contains(z) || z == y) by {
                    if self.dirty_rows@.take(i + 1).contains(z) && z != y {
                        let k = choose|k: int|
                            0 <= k < i + 1 && #[trigger] self.dirty_rows@.take(i + 1)[k] == z;
                        assert(k < i);
                        assert(self.dirty_rows@.take(i as int)[k] == z);
                    }
                    if z == y {
                        assert(self.dirty_rows@.take(i + 1)[i as int] == y);
                    }
                }
                assert forall|z: u16| out@.contains(z) <==> self.dirty_rows@.take(i + 1).contains(z)
                    by {
                    assert(out@.contains(z) <==> (before.contains(z) || z == y));
                }
            }
            i = i + 1;
        }
        proof {
            assert(self.dirty_rows@.take(n as int) =~= self.dirty_rows@);
        }
        self.dirty_rows = Vec::new();
        out
    }

    /// Writes one cell of a draw diff at `(x, y)` and records row `y` as
    /// dirty (even when the position is clipped).
    pub fn draw_cell(&mut self, x: u16, y: u16, cell: Cell)
        requires
            old(self)@.grid.wf(),
        ensures
            final(self)@.grid == old(self)@.grid.with_cell(x, y, cell@),
            final(self)@.grid.wf(),
            final(self)@.dirty_rows == old(self)@.dirty_rows.push(y),
            final(self)@.cursor == old(self)@.cursor,
            final(self)@.cursor_visible == old(self)@.cursor_visible,
    {
        self.dirty_rows.push(y);
        self.grid.set(x, y, cell);
    }

    pub fn hide_cursor(&mut self)
        ensures
            final(self)@ == (BackendView { cursor_visible: false, ..old(self)@ }),
    {
        self.cursor_visible = false;
    }

    pub fn show_cursor(&mut self)
        ensures
            final(self)@ == (BackendView { cursor_visible: true, ..old(self)@ }),
    {
        self.cursor_visible = true;
    }

    pub fn get_cursor_position(&self) -> (r: (u16, u16))
        ensures
            r == self@.cursor,
    {
        self.cursor
    }

    pub fn set_cursor_position(&mut self, x: u16, y: u16)
        ensures
            final(self)@ == (BackendView { cursor: (x, y), ..old(self)@ }),
    {
        self.cursor = (x, y);
    }

    /// Blanks every cell.
    pub fn clear(&mut self)
        requires
            old(self)@.grid.wf(),
        ensures
            final(self)@ == (BackendView { grid: old(self)@.grid.filled(blank_cell()), ..old(self)@ }),
            final(self)@.grid.wf(),
    {
        self.grid.fill(Cell::default());
    }

    /// The grid size as `(cols, rows)`.
    pub fn size(&self) -> (r: (u16, u16))
        ensures
            r == (self@.grid.cols, self@.grid.rows),
    {
        (self.grid.cols(), self.grid.rows())
    }
}

} // verus!
