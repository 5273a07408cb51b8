//! A model of the terminal screen as the shell draws it: a grid of
//! characters, the cursor, a count of the lines scrolled off the top, and
//! whether a full-screen program has switched to the alternate screen.
//! It is fed with the actions of an escape-sequence parser: printed
//! characters, control bytes and CSI sequences.

use vstd::prelude::*;
use crate::text::push_char;

verus! {

/// One character cell of the screen.
#[derive(Clone, Copy)]
pub struct Cell {
    pub ch: char,
}

/// The cell that nothing has been printed into.
pub open spec fn blank_cell() -> Cell {
    Cell { ch: ' ' }
}

impl Default for Cell {
    fn default() -> (c: Self)
        ensures
            c == blank_cell(),
    {
        Cell { ch: ' ' }
    }
}

/// The screen grid and cursor.
pub struct Screen {
    pub cols: u16,
    pub rows: u16,
    pub cells: Vec<Cell>,
    pub cursor_row: u16,
    pub cursor_col: u16,
    pub scroll_count: u64,
    /// Set while a full-screen program (vim, less, htop) uses the
    /// alternate screen buffer; the sprite is not drawn meanwhile.
    pub alt_screen: bool,
}

/// The mathematical state of a screen.
pub struct ScreenModel {
    pub cols: u16,
    pub rows: u16,
    pub cells: Seq<Cell>,
    pub cursor_row: u16,
    pub cursor_col: u16,
    pub scroll_count: u64,
    pub alt_screen: bool,
}

impl View for Screen {
    type V = ScreenModel;

    open spec fn view(&self) -> ScreenModel {
        ScreenModel {
            cols: self.cols,
            rows: self.rows,
            cells: self.cells@,
            cursor_row: self.cursor_row,
            cursor_col: self.cursor_col,
            scroll_count: self.scroll_count,
            alt_screen: self.alt_screen,
        }
    }
}

pub open spec fn min_int(a: int, b: int) -> int {
    if a < b { a } else { b }
}

pub open spec fn max_int(a: int, b: int) -> int {
    if a > b { a } else { b }
}

/// `a - b`, or 0 when that is negative.
pub open spec fn sat_sub(a: int, b: int) -> int {
    if a > b { a - b } else { 0 }
}

impl ScreenModel {
    /// One cell per (row, column); the cursor row is on screen (or 0 on a
    /// screen without rows); the cursor column is at most one past the last
    /// column (or at most 1 on a screen without columns).
    pub open spec fn wf(self) -> bool {
        &&& self.cells.len() == self.rows * self.cols
        &&& self.cursor_row < self.rows || self.cursor_row == 0
        &&& self.cursor_col <= self.cols || self.cursor_col <= 1
    }

    /// The index of cell (`row`, `col`).
    pub open spec fn idx(self, row: int, col: int) -> int {
        row * self.cols + col
    }

    /// The cell at (`row`, `col`), blank off screen.
    pub open spec fn cell(self, row: int, col: int) -> Cell {
        if 0 <= row < self.rows && 0 <= col < self.cols {
            self.cells[self.idx(row, col)]
        } else {
            blank_cell()
        }
    }

    /// The screen after `n` lines scrolled off the top: the remaining lines
    /// move up and blank lines come in at the bottom.
    pub open spec fn scrolled(self, n: u16) -> ScreenModel {
        let k = min_int(n as int, self.rows as int);
        ScreenModel {
            cells: self.cells.subrange(k * self.cols, self.cells.len() as int) + Seq::new(
                (k * self.cols) as nat,
                |i: int| blank_cell(),
            ),
            scroll_count: self.scroll_count.wrapping_add(n as u64),
            ..self
        }
    }

    /// The screen after a line feed: the cursor moves down, or the screen
    /// scrolls by one line when the cursor is on the last row.
    pub open spec fn advanced(self) -> ScreenModel {
        if self.cursor_row + 1 >= self.rows {
            self.scrolled(1)
        } else {
            ScreenModel { cursor_row: (self.cursor_row + 1) as u16, ..self }
        }
    }

    /// The screen after printing `ch`: past the last column the cursor wraps
    /// to the start of the next line first; the character goes into the
    /// cursor's cell and the cursor moves right.
    pub open spec fn printed(self, ch: char) -> ScreenModel {
        let m = if self.cursor_col >= self.cols {
            ScreenModel { cursor_col: 0, ..self }.advanced()
        } else {
            self
        };
        let i = m.idx(m.cursor_row as int, m.cursor_col as int);
        ScreenModel {
            cells: if i < m.cells.len() {
                m.cells.update(i, Cell { ch })
            } else {
                m.cells
            },
            cursor_col: (m.cursor_col + 1) as u16,
            ..m
        }
    }

    /// The screen after control byte `byte`: line feed, carriage return,
    /// backspace and tab move the cursor; other bytes change nothing.
    pub open spec fn executed(self, byte: u8) -> ScreenModel {
        if byte == 10 {
            self.advanced()
        } else if byte == 13 {
            ScreenModel { cursor_col: 0, ..self }
        } else if byte == 8 {
            if self.cursor_col > 0 {
                ScreenModel { cursor_col: (self.cursor_col - 1) as u16, ..self }
            } else {
                self
            }
        } else if byte == 9 {
            let next = (self.cursor_col / 8 + 1) * 8;
            ScreenModel {
                cursor_col: min_int(next, sat_sub(self.cols as int, 1)) as u16,
                ..self
            }
        } else {
            self
        }
    }

    /// The cells with indices in [`lo`, `hi`) blanked.
    pub open spec fn blanked(self, lo: int, hi: int) -> ScreenModel {
        ScreenModel {
            cells: Seq::new(
                self.cells.len(),
                |i: int|
                    if lo <= i < hi {
                        blank_cell()
                    } else {
                        self.cells[i]
                    },
            ),
            ..self
        }
    }

    /// The screen after the CSI sequence with parameters `ps`, intermediate
    /// bytes `inter` and final character `c`.
    pub open spec fn csi(self, ps: Seq<Seq<u16>>, inter: Seq<u8>, c: char) -> ScreenModel {
        if is_private_mode(inter, c) {
            ScreenModel {
                alt_screen: if names_alt_screen(ps) {
                    c == 'h'
                } else {
                    self.alt_screen
                },
                ..self
            }
        } else if c == 'H' || c == 'f' {
            ScreenModel {
                cursor_row: min_int(
                    sat_sub(param_or(ps, 0, 1) as int, 1),
                    sat_sub(self.rows as int, 1),
                ) as u16,
                cursor_col: min_int(
                    sat_sub(param_or(ps, 1, 1) as int, 1),
                    sat_sub(self.cols as int, 1),
                ) as u16,
                ..self
            }
        } else if c == 'A' {
            ScreenModel {
                cursor_row: sat_sub(self.cursor_row as int, count_param(ps)) as u16,
                ..self
            }
        } else if c == 'B' {
            ScreenModel {
                cursor_row: min_int(
                    self.cursor_row + count_param(ps),
                    sat_sub(self.rows as int, 1),
                ) as u16,
                ..self
            }
        } else if c == 'C' {
            ScreenModel {
                cursor_col: min_int(
                    self.cursor_col + count_param(ps),
                    sat_sub(self.cols as int, 1),
                ) as u16,
                ..self
            }
        } else if c == 'D' {
            ScreenModel {
                cursor_col: sat_sub(self.cursor_col as int, count_param(ps)) as u16,
                ..self
            }
        } else if c == 'J' {
            let mode = param_or(ps, 0, 0);
            let cur = self.idx(self.cursor_row as int, self.cursor_col as int);
            let total = self.cells.len() as int;
            if mode == 0 {
                self.blanked(min_int(cur, total), total)
            } else if mode == 1 {
                self.blanked(0, min_int(cur + 1, total))
            } else if mode == 2 || mode == 3 {
                self.blanked(0, total)
            } else {
                self
            }
        } else if c == 'K' {
            let mode = param_or(ps, 0, 0);
            let row_start = self.idx(self.cursor_row as int, 0);
            let line_end = row_start + self.cols;
            let cur = self.idx(self.cursor_row as int, self.cursor_col as int);
            if mode == 0 {
                self.blanked(cur, line_end)
            } else if mode == 1 {
                self.blanked(row_start, min_int(cur + 1, line_end))
            } else if mode == 2 {
                self.blanked(row_start, line_end)
            } else {
                self
            }
        } else {
            self
        }
    }

    /// The inputs on which a CSI sequence can be applied: the cursor
    /// arithmetic stays within 16 bits and an erased line lies inside the grid.
    pub open spec fn csi_ok(self, ps: Seq<Seq<u16>>, inter: Seq<u8>, c: char) -> bool {
        !is_private_mode(inter, c) ==> {
            &&& c == 'B' ==> self.cursor_row + count_param(ps) <= 0xffff
            &&& c == 'C' ==> self.cursor_col + count_param(ps) <= 0xffff
            &&& (c == 'K' && param_or(ps, 0, 0) <= 2) ==> !(self.rows == 0 && self.cols > 0)
            &&& (c == 'K' && param_or(ps, 0, 0) == 0) ==> self.cursor_col <= self.cols
        }
    }
}

/// The first value of parameter `k`, or `d` when it is missing or empty.
pub open spec fn param_or(ps: Seq<Seq<u16>>, k: int, d: u16) -> u16 {
    if 0 <= k < ps.len() && ps[k].len() > 0 {
        ps[k][0]
    } else {
        d
    }
}

/// The repeat count of a cursor movement: the first parameter, at least 1.
pub open spec fn count_param(ps: Seq<Seq<u16>>) -> int {
    max_int(param_or(ps, 0, 1) as int, 1)
}

/// A private mode set (`CSI ? .. h`) or reset (`CSI ? .. l`).
pub open spec fn is_private_mode(inter: Seq<u8>, c: char) -> bool {
    inter == seq![63u8] && (c == 'h' || c == 'l')
}

/// The private modes that switch to the alternate screen.
pub open spec fn is_alt_screen_mode(n: u16) -> bool {
    n == 1049 || n == 1047 || n == 47
}

/// Some parameter names an alternate-screen mode.
pub open spec fn names_alt_screen(ps: Seq<Seq<u16>>) -> bool {
    exists|k: int| 0 <= k < ps.len() && ps[k].len() > 0 && is_alt_screen_mode(#[trigger] ps[k][0])
}

/// The first value of parameter `k`, or `default` when it is missing or empty.
fn param_or_exec(params: &Vec<Vec<u16>>, k: usize, default: u16) -> (r: u16)
    ensures
        r == param_or(params.deep_view(), k as int, default),
{
    if k < params.len() && params[k].len() > 0 {
        params[k][0]
    } else {
        default
    }
}

/// The first value of the first parameter, or `default`.
pub fn first_param(params: &Vec<Vec<u16>>, default: u16) -> (r: u16)
    ensures
        r == param_or(params.deep_view(), 0, default),
{
    param_or_exec(params, 0, default)
}

fn min_u16(a: u16, b: u16) -> (r: u16)
    ensures
        r == min_int(a as int, b as int),
{
    if a < b { a } else { b }
}

fn min_usize(a: usize, b: usize) -> (r: usize)
    ensures
        r == min_int(a as int, b as int),
{
    if a < b { a } else { b }
}

impl Screen {
    pub open spec fn wf(&self) -> bool {
        self@.wf()
    }

    /// A blank screen of `cols` x `rows` cells with the cursor at the top left.
    pub fn new(cols: u16, rows: u16) -> (s: Self)
        ensures
            s.wf(),
            s@ == (ScreenModel {
                cols,
                rows,
                cells: Seq::new((rows * cols) as nat, |i: int| blank_cell()),
                cursor_row: 0,
                cursor_col: 0,
                scroll_count: 0,
                alt_screen: false,
            }),
    {
        proof {
            crate::arith::lemma_grid_index_fits(cols as int, rows as int, 0);
        }
        let n = (cols as usize) * (rows as usize);
        let mut cells: Vec<Cell> = Vec::new();
        while cells.len() < n
            invariant
                n == cols * rows,
                cells@.len() <= n,
                forall|i: int| 0 <= i < cells@.len() ==> cells@[i] == blank_cell(),
            decreases n - cells@.len(),
        {
            cells.push(Cell::default());
        }
        assert(cols * rows == rows * cols) by (nonlinear_arith);
        let s = Screen {
            cols,
            rows,
            cells,
            cursor_row: 0,
            cursor_col: 0,
            scroll_count: 0,
            alt_screen: false,
        };
        assert(s@.cells =~= Seq::new((rows * cols) as nat, |i: int| blank_cell()));
        s
    }

    /// The cell at (`row`, `col`); a blank cell off screen.
    pub fn cell_at(&self, row: u16, col: u16) -> (c: Cell)
        requires
            self.wf(),
        ensures
            c == self@.cell(row as int, col as int),
    {
        if row >= self.rows || col >= self.cols {
            return Cell::default();
        }
        proof {
            crate::arith::lemma_grid_index_in_bounds(
                row as int,
                col as int,
                self.cols as int,
                self.rows as int,
            );
            crate::arith::lemma_grid_index_fits(row as int, self.cols as int, col as int);
        }
        self.cells[(row as usize) * (self.cols as usize) + col as usize]
    }

    fn idx(&self, row: u16, col: u16) -> (i: usize)
        ensures
            i == self@.idx(row as int, col as int),
    {
        proof {
            crate::arith::lemma_grid_index_fits(row as int, self.cols as int, col as int);
        }
        (row as usize) * (self.cols as usize) + col as usize
    }

    /// Blanks the cells with indices in [`lo`, `hi`).
    fn blank_range(&mut self, lo: usize, hi: usize)
        requires
            lo <= hi <= old(self).cells@.len(),
        ensures
            final(self)@ == old(self)@.blanked(lo as int, hi as int),
    {
        let mut i = lo;
        while i < hi
            invariant
                lo <= i <= hi,
                hi <= self.cells@.len(),
                self.cells@.len() == old(self).cells@.len(),
                self.cols == old(self).cols,
                self.rows == old(self).rows,
                self.cursor_row == old(self).cursor_row,
                self.cursor_col == old(self).cursor_col,
                self.scroll_count == old(self).scroll_count,
                self.alt_screen == old(self).alt_screen,
                forall|j: int|
                    0 <= j < self.cells@.len() ==> #[trigger] self.cells@[j] == if lo <= j < i {
                        blank_cell()
                    } else {
                        old(self).cells@[j]
                    },
            decreases hi - i,
        {
            self.cells[i] = Cell::default();
            i = i + 1;
        }
        assert(self@.cells =~= old(self)@.blanked(lo as int, hi as int).cells);
    }

    fn scroll_up(&mut self, n: u16)
        requires
            old(self).wf(),
        ensures
            final(self)@ == old(self)@.scrolled(n),
            final(self).wf(),
    {
        self.scroll_count = self.scroll_count.wrapping_add(n as u64);
        let cols = self.cols as usize;
        let rows = self.rows as usize;
        let k = if (n as usize) < rows { n as usize } else { rows };
        proof {
            crate::arith::lemma_grid_index_fits(k as int, cols as int, 0);
            assert(k * cols <= rows * cols) by (nonlinear_arith)
                requires
                    k <= rows,
            ;
            assert(rows * cols == self.cells@.len()) by (nonlinear_arith)
                requires
                    self.cells@.len() == self.rows * self.cols,
                    rows == self.rows,
                    cols == self.cols,
            ;
        }
        let shift = k * cols;
        let len = self.cells.len();
        let ghost before = self.cells@;
        let mut i: usize = 0;
        while i + shift < len
            invariant
                shift <= len,
                len == self.cells@.len(),
                i + shift <= len,
                forall|j: int|
                    0 <= j < len ==> #[trigger] self.cells@[j] == if j < i {
                        before[j + shift]
                    } else {
                        before[j]
                    },
                self.cols == old(self).cols,
                self.rows == old(self).rows,
                self.cursor_row == old(self).cursor_row,
                self.cursor_col == old(self).cursor_col,
                self.alt_screen == old(self).alt_screen,
                self.scroll_count == old(self).scroll_count.wrapping_add(n as u64),
            decreases len - shift - i,
        {
            let c = self.cells[i + shift];
            self.cells[i] = c;
            i = i + 1;
        }
        let tail = i;
        while i < len
            invariant
                tail + shift == len,
                tail <= i <= len,
                len == self.cells@.len(),
                forall|j: int|
                    0 <= j < len ==> #[trigger] self.cells@[j] == if j < tail {
                        before[j + shift]
                    } else if j < i {
                        blank_cell()
                    } else {
                        before[j]
                    },
                self.cols == old(self).cols,
                self.rows == old(self).rows,
                self.cursor_row == old(self).cursor_row,
                self.cursor_col == old(self).cursor_col,
                self.alt_screen == old(self).alt_screen,
                self.scroll_count == old(self).scroll_count.wrapping_add(n as u64),
            decreases len - i,
        {
            self.cells[i] = Cell::default();
            i = i + 1;
        }
        assert(self@.cells =~= old(self)@.scrolled(n).cells);
    }

    fn advance_row(&mut self)
        requires
            old(self).wf(),
        ensures
            final(self)@ == old(self)@.advanced(),
            final(self).wf(),
    {
        if self.cursor_row as u32 + 1 >= self.rows as u32 {
            self.scroll_up(1);
        } else {
            self.cursor_row = self.cursor_row + 1;
        }
    }

    fn put_char(&mut self, ch: char)
        requires
            old(self).wf(),
        ensures
            final(self)@ == old(self)@.printed(ch),
            final(self).wf(),
    {
        if self.cursor_col >= self.cols {
            self.cursor_col = 0;
            self.advance_row();
        }
        let i = self.idx(self.cursor_row, self.cursor_col);
        if i < self.cells.len() {
            self.cells[i] = Cell { ch };
        }
        self.cursor_col = self.cursor_col + 1;
    }

    /// A printed character.
    pub fn print(&mut self, ch: char)
        requires
            old(self).wf(),
        ensures
            final(self)@ == old(self)@.printed(ch),
            final(self).wf(),
    {
        self.put_char(ch);
    }

    /// A control byte.
    pub fn execute(&mut self, byte: u8)
        requires
            old(self).wf(),
            byte == 9 ==> (old(self).cursor_col / 8 + 1) * 8 <= 0xffff,
        ensures
            final(self)@ == old(self)@.executed(byte),
            final(self).wf(),
    {
        if byte == 10 {
            self.advance_row();
        } else if byte == 13 {
            self.cursor_col = 0;
        } else if byte == 8 {
            if self.cursor_col > 0 {
                self.cursor_col = self.cursor_col - 1;
            }
        } else if byte == 9 {
            let next = ((self.cursor_col / 8) + 1) * 8;
            self.cursor_col = min_u16(next, self.cols.saturating_sub(1));
        }
    }

    /// A CSI sequence: cursor positioning and movement, erasing in the
    /// display and in the line, and the alternate-screen private modes.
    pub fn csi_dispatch(&mut self, params: &Vec<Vec<u16>>, intermediates: &[u8], _ignore: bool, c: char)
        requires
            old(self).wf(),
            old(self)@.csi_ok(params.deep_view(), intermediates@, c),
        ensures
            final(self)@ == old(self)@.csi(params.deep_view(), intermediates@, c),
            final(self).wf(),
    {
        let ghost ps = params.deep_view();
        if intermediates.len() == 1 && intermediates[0] == 63u8 && (c == 'h' || c == 'l') {
            assert(intermediates@ =~= seq![63u8]);
            let mut k: usize = 0;
            while k < params.len()
                invariant
                    ps == params.deep_view(),
                    k <= params.len(),
                    self.wf(),
                    self@ == (ScreenModel {
                        alt_screen: if exists|j: int|
                            0 <= j < k && ps[j].len() > 0 && is_alt_screen_mode(#[trigger] ps[j][0]) {
                            c == 'h'
                        } else {
                            old(self).alt_screen
                        },
                        ..old(self)@
                    }),
                decreases params.len() - k,
            {
                assert(ps[k as int] == params@[k as int]@);
                if params[k].len() > 0 {
                    let n = params[k][0];
                    if n == 1049 || n == 1047 || n == 47 {
                        self.alt_screen = c == 'h';
                        assert(is_alt_screen_mode(ps[k as int][0]));
                    }
                }
                k = k + 1;
            }
            return;
        }
        assert(!is_private_mode(intermediates@, c)) by {
            if is_private_mode(intermediates@, c) {
                assert(intermediates@.len() == 1 && intermediates@[0] == 63u8);
            }
        }
        if c == 'H' || c == 'f' {
            let row = param_or_exec(params, 0, 1);
            let col = param_or_exec(params, 1, 1);
            self.cursor_row = min_u16(row.saturating_sub(1), self.rows.saturating_sub(1));
            self.cursor_col = min_u16(col.saturating_sub(1), self.cols.saturating_sub(1));
        } else if c == 'A' {
            let p = first_param(params, 1);
            let n = if p > 1 { p } else { 1 };
            self.cursor_row = self.cursor_row.saturating_sub(n);
        } else if c == 'B' {
            let p = first_param(params, 1);
            let n = if p > 1 { p } else { 1 };
            self.cursor_row = min_u16(self.cursor_row + n, self.rows.saturating_sub(1));
        } else if c == 'C' {
            let p = first_param(params, 1);
            let n = if p > 1 { p } else { 1 };
            self.cursor_col = min_u16(self.cursor_col + n, self.cols.saturating_sub(1));
        } else if c == 'D' {
            let p = first_param(params, 1);
            let n = if p > 1 { p } else { 1 };
            self.cursor_col = self.cursor_col.saturating_sub(n);
        } else if c == 'J' {
            let mode = first_param(params, 0);
            let cur = self.idx(self.cursor_row, self.cursor_col);
            let total = self.cells.len();
            if mode == 0 {
                let from = min_usize(cur, total);
                self.blank_range(from, total);
            } else if mode == 1 {
                proof {
                    crate::arith::lemma_grid_index_fits(
                        self.cursor_row as int,
                        self.cols as int,
                        self.cursor_col as int,
                    );
                }
                let end = min_usize(cur + 1, total);
                self.blank_range(0, end);
            } else if mode == 2 || mode == 3 {
                self.blank_range(0, total);
            }
        } else if c == 'K' {
            let mode = first_param(params, 0);
            let row_start = self.idx(self.cursor_row, 0);
            proof {
                crate::arith::lemma_grid_index_fits(
                    self.cursor_row as int,
                    self.cols as int,
                    self.cols as int,
                );
                crate::arith::lemma_grid_index_fits(
                    self.cursor_row as int,
                    self.cols as int,
                    self.cursor_col as int,
                );
                if self.cols == 0 {
                    assert(self.cursor_row * self.cols == 0) by (nonlinear_arith)
                        requires
                            self.cols == 0,
                    ;
                }
                if self.rows > 0 && self.cols > 0 {
                    crate::arith::lemma_grid_index_in_bounds(
                        self.cursor_row as int,
                        0,
                        self.cols as int,
                        self.rows as int,
                    );
                }
            }
            let line_end = row_start + self.cols as usize;
            let cur = self.idx(self.cursor_row, self.cursor_col);
            if mode == 0 {
                self.blank_range(cur, line_end);
            } else if mode == 1 {
                let to = min_usize(cur + 1, line_end);
                self.blank_range(row_start, to);
            } else if mode == 2 {
                self.blank_range(row_start, line_end);
            }
        }
    }
}

/// Each row of `m` as characters, every row ended by a line feed.
pub open spec fn rows_text(m: ScreenModel, n: int) -> Seq<char>
    decreases n,
{
    if n <= 0 {
        Seq::empty()
    } else {
        rows_text(m, n - 1) + Seq::new(m.cols as nat, |c: int| m.cell(n - 1, c).ch).push('\n')
    }
}

/// The screen's characters, one line per row.
pub fn dump_to_string(screen: &Screen) -> (s: String)
    requires
        screen.wf(),
    ensures
        s@ == rows_text(screen@, screen.rows as int),
{
    let mut s = String::new();
    let mut r: u16 = 0;
    while r < screen.rows
        invariant
            screen.wf(),
            r <= screen.rows,
            s@ == rows_text(screen@, r as int),
        decreases screen.rows - r,
    {
        let mut c: u16 = 0;
        while c < screen.cols
            invariant
                screen.wf(),
                r < screen.rows,
                c <= screen.cols,
                s@ == rows_text(screen@, r as int) + Seq::new(
                    c as nat,
                    |j: int| screen@.cell(r as int, j).ch,
                ),
            decreases screen.cols - c,
        {
            let ch = screen.cell_at(r, c).ch;
            push_char(&mut s, ch);
            assert(s@ =~= rows_text(screen@, r as int) + Seq::new(
                (c + 1) as nat,
                |j: int| screen@.cell(r as int, j).ch,
            ));
            c = c + 1;
        }
        push_char(&mut s, '\n');
        assert(s@ =~= rows_text(screen@, r + 1));
        r = r + 1;
    }
    s
}

} // verus!
