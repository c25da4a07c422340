//! The child's screen as plain cells, and how it is painted.

use vstd::prelude::*;
use crate::decimal;
use crate::decimal::push_u64;
use crate::text;
use crate::text::{chars_of, string_of_range, white};

verus! {

/// A colour of a cell.
#[derive(Debug, Clone, Copy, PartialEq, Eq, Structural)]
pub enum CellColor {
    /// Red, green and blue.
    Spec(u8, u8, u8),
    /// An entry of the palette of 256.
    Indexed(u8),
    /// A named colour by its number: the sixteen of the terminal, or above them
    /// the terminal's defaults.
    Named(u16),
}

/// One cell of the screen.
#[derive(Debug, Clone, Copy, PartialEq, Eq, Structural)]
pub struct Cell {
    pub c: char,
    pub fg: CellColor,
    pub bg: CellColor,
    pub bold: bool,
    pub dim: bool,
    pub italic: bool,
    pub underline: bool,
    pub inverse: bool,
    /// The second half of a wide character.
    pub spacer: bool,
    /// The row goes on in the next one.
    pub wraps: bool,
    /// All attributes as one number, to tell whether two cells have the same.
    pub style: u16,
}

/// The visible rows, the cursor, and the lines that have scrolled off the top.
#[derive(Debug)]
pub struct Screen {
    pub cols: usize,
    pub rows: Vec<Vec<Cell>>,
    pub cursor_row: usize,
    pub cursor_col: usize,
    pub history: usize,
}

impl Screen {
    /// Every row is as wide as the screen, and the lines above and on the screen can be
    /// counted, as can those down to the cursor.
    pub open spec fn is_even(&self) -> bool {
        &&& forall|i: int| 0 <= i < self.rows@.len() ==> (#[trigger] self.rows@[i])@.len() == self.cols
        &&& self.history + self.rows@.len() <= usize::MAX
        &&& self.history + self.cursor_row < usize::MAX
    }

    /// The cursor is on the screen, too.
    pub open spec fn wf(&self) -> bool {
        self.is_even() && self.cursor_row < self.rows@.len()
    }

    /// The cells of a row.
    pub open spec fn row(&self, i: int) -> Seq<Cell> {
        self.rows@[i]@
    }
}

// ── Attributes ──────────────────────────────────────────────────────────────

/// The SGR parameters for a colour, each with its semicolon; nothing for the
/// terminal's default.
pub open spec fn color_params(c: CellColor, fg: bool) -> Seq<char> {
    let base: nat = if fg {
        38
    } else {
        48
    };
    match c {
        CellColor::Spec(r, g, b) => ";"@ + decimal::dec_digits(base) + ";2;"@ + decimal::dec_digits(r as nat) + ";"@
            + decimal::dec_digits(g as nat) + ";"@ + decimal::dec_digits(b as nat),
        CellColor::Indexed(i) => ";"@ + decimal::dec_digits(base) + ";5;"@ + decimal::dec_digits(i as nat),
        CellColor::Named(n) => if n < 8 {
            ";"@ + decimal::dec_digits(
                (if fg {
                    30nat
                } else {
                    40
                }) + n as nat,
            )
        } else if n < 16 {
            ";"@ + decimal::dec_digits(
                (if fg {
                    82nat
                } else {
                    92
                }) + n as nat,
            )
        } else {
            Seq::empty()
        },
    }
}

/// The SGR parameters for a colour.
pub fn color_sgr(c: CellColor, fg: bool) -> (r: String)
    ensures
        r@ == color_params(c, fg),
{
    let base: u64 = if fg {
        38
    } else {
        48
    };
    let mut out: String = ";".to_owned();
    match c {
        CellColor::Spec(r, g, b) => {
            push_u64(&mut out, base);
            out.push_str(";2;");
            push_u64(&mut out, r as u64);
            out.push_str(";");
            push_u64(&mut out, g as u64);
            out.push_str(";");
            push_u64(&mut out, b as u64);
            out
        },
        CellColor::Indexed(i) => {
            push_u64(&mut out, base);
            out.push_str(";5;");
            push_u64(&mut out, i as u64);
            out
        },
        CellColor::Named(n) => {
            if n < 8 {
                push_u64(
                    &mut out,
                    (if fg {
                        30
                    } else {
                        40
                    }) + n as u64,
                );
                out
            } else if n < 16 {
                push_u64(
                    &mut out,
                    (if fg {
                        82
                    } else {
                        92
                    }) + n as u64,
                );
                out
            } else {
                String::new()
            }
        },
    }
}

/// `s` where `on`.
pub open spec fn flag_param(on: bool, s: Seq<char>) -> Seq<char> {
    if on {
        s
    } else {
        Seq::empty()
    }
}

/// The escape sequence that sets exactly the attributes of a cell: a reset, and
/// then what the cell has.
pub open spec fn sgr_of(cell: Cell) -> Seq<char> {
    "\x1b[0"@ + flag_param(cell.bold, ";1"@) + flag_param(cell.dim, ";2"@) + flag_param(
        cell.italic,
        ";3"@,
    ) + flag_param(cell.underline, ";4"@) + flag_param(cell.inverse, ";7"@) + color_params(
        cell.fg,
        true,
    ) + color_params(cell.bg, false) + "m"@
}

fn push_flag(out: &mut String, on: bool, s: &str)
    ensures
        final(out)@ == old(out)@ + flag_param(on, s@),
{
    if on {
        out.push_str(s);
    } else {
        proof {
            assert(out@ =~= out@ + Seq::<char>::empty());
        }
    }
}

/// The escape sequence that sets exactly the attributes of `cell`.
pub fn sgr_for(cell: &Cell) -> (r: String)
    ensures
        r@ == sgr_of(*cell),
{
    let mut out: String = "\x1b[0".to_owned();
    push_flag(&mut out, cell.bold, ";1");
    push_flag(&mut out, cell.dim, ";2");
    push_flag(&mut out, cell.italic, ";3");
    push_flag(&mut out, cell.underline, ";4");
    push_flag(&mut out, cell.inverse, ";7");
    out.push_str(color_sgr(cell.fg, true).as_str());
    out.push_str(color_sgr(cell.bg, false).as_str());
    out.push_str("m");
    out
}

/// Whether two cells have the same colours and attributes.
pub open spec fn same_look(a: Cell, b: Cell) -> bool {
    a.fg == b.fg && a.bg == b.bg && a.style == b.style
}

fn looks_like(a: &Cell, b: &Cell) -> (r: bool)
    ensures
        r == same_look(*a, *b),
{
    a.fg == b.fg && a.bg == b.bg && a.style == b.style
}

// ── Painting ────────────────────────────────────────────────────────────────

/// The cells of a row after `prev`: attributes are set where they change, and
/// the second half of a wide character is left out.
pub open spec fn cells_text(cells: Seq<Cell>, prev: Option<Cell>) -> Seq<char>
    decreases cells.len(),
{
    if cells.len() == 0 {
        Seq::empty()
    } else if cells[0].spacer {
        cells_text(cells.skip(1), prev)
    } else {
        (if prev is Some && same_look(prev->0, cells[0]) {
            Seq::empty()
        } else {
            sgr_of(cells[0])
        }) + seq![cells[0].c] + cells_text(cells.skip(1), Some(cells[0]))
    }
}

/// One row, painted at row `phys` of the terminal: the cursor is put there, the
/// cells follow, and what stands to the right is erased.
pub open spec fn line_text(cells: Seq<Cell>, phys: nat) -> Seq<char> {
    "\x1b["@ + decimal::dec_digits(phys) + ";1H"@ + cells_text(cells, None) + "\x1b[0m\x1b[K"@
}

/// Several rows, painted from row `top` of the terminal on.
pub open spec fn lines_text(screen: Screen, lines: Seq<usize>, top: u16) -> Seq<char>
    decreases lines.len(),
{
    if lines.len() == 0 {
        Seq::empty()
    } else {
        lines_text(screen, lines.drop_last(), top) + line_text(
            screen.row(lines.last() as int),
            (top + lines.last()) as nat,
        )
    }
}

fn push_cells(out: &mut String, cells: &Vec<Cell>)
    ensures
        final(out)@ == old(out)@ + cells_text(cells@, None),
{
    let mut prev: Option<Cell> = None;
    let ghost start = out@;
    let mut i: usize = 0;
    proof {
        assert(cells@.skip(0) =~= cells@);
    }
    while i < cells.len()
        invariant
            i <= cells@.len(),
            out@ + cells_text(cells@.skip(i as int), prev) == start + cells_text(cells@, None),
        decreases cells@.len() - i,
    {
        let ghost rest = cells@.skip(i as int);
        let ghost before = out@;
        let ghost p = prev;
        proof {
            assert(rest[0] == cells@[i as int]);
            assert(rest.skip(1) =~= cells@.skip(i as int + 1));
        }
        let cell: Cell = cells[i];
        if !cell.spacer {
            let same: bool = match &prev {
                Some(q) => looks_like(q, &cell),
                None => false,
            };
            if !same {
                out.push_str(sgr_for(&cell).as_str());
            }
            out.push(cell.c);
            prev = Some(cell);
            proof {
                let t = cells_text(rest.skip(1), Some(cell));
                assert(out@ + t =~= before + cells_text(rest, p));
            }
        }
        i += 1;
    }
    proof {
        assert(cells@.skip(i as int).len() == 0);
        assert(out@ + cells_text(cells@.skip(i as int), prev) =~= out@);
    }
}

impl Screen {
    /// Appends one row, painted at row `top + line` of the terminal.
    pub fn render_line(&self, line: usize, top: u16, out: &mut String)
        requires
            self.wf(),
            line < self.rows@.len(),
            top + line <= usize::MAX,
        ensures
            final(out)@ == old(out)@ + line_text(self.row(line as int), (top + line) as nat),
    {
        let phys: usize = top as usize + line;
        out.push_str("\x1b[");
        push_u64(out, phys as u64);
        out.push_str(";1H");
        push_cells(out, &self.rows[line]);
        out.push_str("\x1b[0m\x1b[K");
        proof {
            assert(out@ =~= old(out)@ + line_text(self.row(line as int), (top + line) as nat));
        }
    }

    /// Paints the rows of `lines`, from row `top` of the terminal on.
    pub fn render_lines(&self, lines: &Vec<usize>, top: u16) -> (r: String)
        requires
            self.wf(),
            forall|i: int|
                0 <= i < lines@.len() ==> (#[trigger] lines@[i]) < self.rows@.len() && top
                    + lines@[i] <= usize::MAX,
        ensures
            r@ == lines_text(*self, lines@, top),
    {
        let mut out: String = String::new();
        let mut i: usize = 0;
        while i < lines.len()
            invariant
                self.wf(),
                i <= lines@.len(),
                forall|k: int|
                    0 <= k < lines@.len() ==> (#[trigger] lines@[k]) < self.rows@.len() && top
                        + lines@[k] <= usize::MAX,
                out@ == lines_text(*self, lines@.take(i as int), top),
            decreases lines@.len() - i,
        {
            proof {
                assert(lines@.take(i as int + 1).drop_last() =~= lines@.take(i as int));
                assert(lines@.take(i as int + 1).last() == lines@[i as int]);
            }
            self.render_line(lines[i], top, &mut out);
            i += 1;
        }
        proof {
            assert(lines@.take(i as int) =~= lines@);
        }
        out
    }

    /// The numbers of all rows.
    pub fn all_lines(&self) -> (r: Vec<usize>)
        ensures
            r@ == Seq::new(self.rows@.len(), |i: int| i as usize),
    {
        let mut out: Vec<usize> = Vec::new();
        let mut i: usize = 0;
        while i < self.rows.len()
            invariant
                i <= self.rows@.len(),
                out@ == Seq::new(i as nat, |k: int| k as usize),
            decreases self.rows@.len() - i,
        {
            out.push(i);
            proof {
                assert(out@ =~= Seq::new(i as nat + 1, |k: int| k as usize));
            }
            i += 1;
        }
        out
    }

    /// Paints what has changed: the rows of `damaged`, or all rows where the
    /// whole screen has changed.
    pub fn render_damage(&self, damaged: Option<Vec<usize>>, top: u16) -> (r: String)
        requires
            self.wf(),
            top + self.rows@.len() <= usize::MAX,
            damaged matches Some(lines) ==> forall|i: int|
                0 <= i < lines@.len() ==> (#[trigger] lines@[i]) < self.rows@.len(),
        ensures
            r@ == lines_text(
                *self,
                match damaged {
                    Some(lines) => lines@,
                    None => Seq::new(self.rows@.len(), |i: int| i as usize),
                },
                top,
            ),
    {
        match damaged {
            Some(lines) => self.render_lines(&lines, top),
            None => {
                let lines: Vec<usize> = self.all_lines();
                self.render_lines(&lines, top)
            },
        }
    }
}

// ── Reading ─────────────────────────────────────────────────────────────────

/// The characters of the cells, without the second halves of wide characters.
pub open spec fn cell_chars(cells: Seq<Cell>) -> Seq<char>
    decreases cells.len(),
{
    if cells.len() == 0 {
        Seq::empty()
    } else if cells[0].spacer {
        cell_chars(cells.skip(1))
    } else {
        seq![cells[0].c] + cell_chars(cells.skip(1))
    }
}

/// Whether a row goes on in the next one.
pub open spec fn row_wraps(cells: Seq<Cell>) -> bool {
    cells.len() > 0 && cells.last().wraps
}

/// The text of a row from column `col` on: all of it where the row goes on in
/// the next one, else without the white space at its end.
pub open spec fn row_text(cells: Seq<Cell>, col: int) -> Seq<char> {
    let t = if col <= cells.len() {
        cell_chars(cells.skip(col))
    } else {
        Seq::empty()
    };
    if row_wraps(cells) {
        t
    } else {
        text::trim_end_of(t)
    }
}

/// The text from column `col` of row `row` to the end of row `last`, where each
/// row before the last goes on in the next one.
pub open spec fn command_text(screen: Screen, row: int, col: int, last: int) -> Option<Seq<char>>
    decreases last - row + 1,
{
    if row > last {
        Some(Seq::empty())
    } else if row < last && !row_wraps(screen.row(row)) {
        None
    } else {
        match command_text(screen, row + 1, 0, last) {
            Some(rest) => Some(row_text(screen.row(row), col) + rest),
            None => None,
        }
    }
}

/// `s` without the white space at its end.
pub fn trim_end_str(s: &str) -> (r: String)
    ensures
        r@ == text::trim_end_of(s@),
{
    let v: Vec<char> = chars_of(s);
    let mut n: usize = v.len();
    proof {
        assert(v@.take(n as int) =~= v@);
    }
    while n > 0 && white(v[n - 1])
        invariant
            n <= v@.len(),
            text::trim_end_of(v@) == text::trim_end_of(v@.take(n as int)),
        decreases n,
    {
        proof {
            assert(v@.take(n as int).last() == v@[n - 1]);
            assert(v@.take(n as int).drop_last() =~= v@.take(n as int - 1));
        }
        n -= 1;
    }
    proof {
        assert(v@.take(n as int) =~= v@.subrange(0, n as int));
        if n > 0 {
            assert(v@.take(n as int).last() == v@[n - 1]);
        }
    }
    string_of_range(&v, 0, n)
}

impl Screen {
    /// The text of `row` from `start_col` on, and whether the row goes on in
    /// the next one.
    pub fn row_slice(&self, row: usize, start_col: usize) -> (r: (String, bool))
        requires
            row < self.rows@.len(),
        ensures
            r.0@ == row_text(self.row(row as int), start_col as int),
            r.1 == row_wraps(self.row(row as int)),
    {
        let cells: &Vec<Cell> = &self.rows[row];
        let n: usize = cells.len();
        let wrapped: bool = n > 0 && cells[n - 1].wraps;
        let mut s: String = String::new();
        if start_col <= n {
            let mut i: usize = start_col;
            proof {
                assert(s@ + cell_chars(cells@.skip(i as int)) =~= cell_chars(
                    cells@.skip(start_col as int),
                ));
            }
            while i < n
                invariant
                    n == cells@.len(),
                    start_col <= i <= n,
                    s@ + cell_chars(cells@.skip(i as int)) == cell_chars(
                        cells@.skip(start_col as int),
                    ),
                decreases n - i,
            {
                let ghost rest = cells@.skip(i as int);
                let ghost before = s@;
                proof {
                    assert(rest[0] == cells@[i as int]);
                    assert(rest.skip(1) =~= cells@.skip(i as int + 1));
                }
                if !cells[i].spacer {
                    s.push(cells[i].c);
                    proof {
                        assert(s@ + cell_chars(rest.skip(1)) =~= before + cell_chars(rest));
                    }
                }
                i += 1;
            }
            proof {
                assert(cells@.skip(i as int).len() == 0);
                assert(s@ + cell_chars(cells@.skip(i as int)) =~= s@);
            }
        }
        if wrapped {
            (s, true)
        } else {
            (trim_end_str(s.as_str()), false)
        }
    }

    /// The command that was typed: the text from `(start_row, start_col)` to
    /// the end of `last_row`. `None` where a row before the last one ends for
    /// good: input over several lines.
    pub fn capture_command(&self, start_row: usize, start_col: usize, last_row: usize) -> (r: Option<
        String,
    >)
        requires
            last_row < self.rows@.len(),
        ensures
            text::opt_view(r) == command_text(
                *self,
                start_row as int,
                start_col as int,
                last_row as int,
            ),
        decreases last_row - start_row + 1,
    {
        if start_row > last_row {
            return Some(String::new());
        }
        let height: usize = self.rows.len();
        assert(last_row < height);
        let (text, wrapped) = self.row_slice(start_row, start_col);
        if start_row < last_row && !wrapped {
            return None;
        }
        match self.capture_command(start_row + 1, 0, last_row) {
            Some(rest) => {
                let mut out: String = text;
                out.push_str(rest.as_str());
                Some(out)
            },
            None => None,
        }
    }
}

// ── Laws ────────────────────────────────────────────────────────────────────

proof fn lemma_cell_chars(cells: Seq<Cell>)
    requires
        forall|i: int| 0 <= i < cells.len() ==> !(#[trigger] cells[i]).spacer,
    ensures
        cell_chars(cells) == Seq::new(cells.len(), |i: int| cells[i].c),
    decreases cells.len(),
{
    if cells.len() > 0 {
        let more = cells.skip(1);
        assert forall|i: int| 0 <= i < more.len() implies !(#[trigger] more[i]).spacer by {
            assert(more[i] == cells[i + 1]);
        }
        lemma_cell_chars(more);
    }
    assert(cell_chars(cells) =~= Seq::new(cells.len(), |i: int| cells[i].c));
}

proof fn lemma_blank_end(s: Seq<char>, n: nat)
    requires
        s.len() > 0,
        !text::is_white(s.last()),
    ensures
        text::trim_end_of(s + text::repeated(' ', n)) == s,
    decreases n,
{
    let t = s + text::repeated(' ', n);
    if n == 0 {
        assert(t =~= s);
    } else {
        assert(t.last() == ' ');
        assert(t.drop_last() =~= s + text::repeated(' ', (n - 1) as nat));
        lemma_blank_end(s, (n - 1) as nat);
    }
}

/// A command that stands on one row from a column on, with nothing but blanks behind
/// it, is captured as it was typed.
pub proof fn law_typed_command_is_captured(screen: Screen, row: int, col: int, cmd: Seq<char>)
    requires
        0 <= row < screen.rows@.len(),
        0 <= col,
        col + cmd.len() <= screen.row(row).len(),
        cmd.len() > 0,
        !text::is_white(cmd.last()),
        !row_wraps(screen.row(row)),
        forall|i: int| 0 <= i < screen.row(row).len() ==> !(#[trigger] screen.row(row)[i]).spacer,
        forall|i: int|
            col <= i < screen.row(row).len() ==> (#[trigger] screen.row(row)[i]).c == (if i < col
                + cmd.len() {
                cmd[i - col]
            } else {
                ' '
            }),
    ensures
        command_text(screen, row, col, row) == Some(cmd),
{
    let cells = screen.row(row);
    let tail = cells.skip(col);
    assert forall|i: int| 0 <= i < tail.len() implies !(#[trigger] tail[i]).spacer by {
        assert(tail[i] == cells[i + col]);
    }
    lemma_cell_chars(tail);
    let n = (tail.len() - cmd.len()) as nat;
    assert(cell_chars(tail) =~= cmd + text::repeated(' ', n));
    lemma_blank_end(cmd, n);
    reveal_with_fuel(command_text, 2);
    assert(cmd + Seq::<char>::empty() =~= cmd);
}

/// Input over several rows is captured only where each row but the last goes on in the
/// next one.
pub proof fn law_several_lines_are_not_captured(screen: Screen, row: int, col: int, last: int, at: int)
    requires
        row <= at < last,
        !row_wraps(screen.row(at)),
    ensures
        command_text(screen, row, col, last) is None,
    decreases at - row,
{
    if row < at {
        law_several_lines_are_not_captured(screen, row + 1, 0, last, at);
    }
}

} // verus!
