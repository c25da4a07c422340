//! The title in letters that stand out from the picture.

use vstd::prelude::*;
use crate::banner::canvas::{Canvas, Color, Font};
use crate::banner::letters;
use crate::banner::letters::{big_letter, pixel_set, BigLetter};
use crate::banner::marks;
use crate::banner::marks::Mark;

verus! {

/// The colours of the title.
#[derive(Debug)]
pub struct TitleInk {
    /// The four layers behind the letters, the nearest first.
    pub layers: Vec<Color>,
    /// The face of a cell, row by row from its top.
    pub face: Vec<Color>,
    /// The edges at the bottom and at the right.
    pub dark: Color,
    /// The edges at the top and at the left.
    pub bright: Color,
}

impl TitleInk {
    /// There is a colour for every layer, and for every row of a cell.
    pub open spec fn wf(&self, scale: u32) -> bool {
        self.layers@.len() == 4 && self.face@.len() == 16 * scale
    }
}

/// A cell of the title that is set: where it stands, and which of its edges are free.
#[derive(Debug, Clone, Copy, PartialEq, Eq, Structural)]
pub struct Cell {
    pub col: u32,
    pub row: u32,
    pub top: bool,
    pub left: bool,
    pub bottom: bool,
    pub right: bool,
}

/// The letters of a text; what is no letter is left out.
pub open spec fn letters_of(text: Seq<u8>) -> Seq<(u32, Seq<u8>)>
    decreases text.len(),
{
    if text.len() == 0 {
        Seq::empty()
    } else {
        let head = letters_of(text.drop_last());
        match letters::letter_of(text.last()) {
            Some(l) => head.push(l),
            None => head,
        }
    }
}

/// Where the letter behind these starts: each takes its width and a gap.
pub open spec fn cursor_of(ls: Seq<(u32, Seq<u8>)>) -> nat
    decreases ls.len(),
{
    if ls.len() == 0 {
        0
    } else {
        cursor_of(ls.drop_last()) + ls.last().0 as nat + 1
    }
}

/// One cell of a letter, counted row by row.
pub open spec fn cell_of(l: (u32, Seq<u8>), cursor: int, k: int) -> Cell {
    let bx = k % (l.0 as int);
    let by = k / (l.0 as int);
    Cell {
        col: (cursor + bx) as u32,
        row: by as u32,
        top: by == 0 || !letters::pixel_of(l.1, bx, by - 1),
        left: bx == 0 || !letters::pixel_of(l.1, bx - 1, by),
        bottom: by >= 6 || !letters::pixel_of(l.1, bx, by + 1),
        right: bx + 1 >= l.0 || !letters::pixel_of(l.1, bx + 1, by),
    }
}

/// The cells of a letter that are set, among the first `k`.
pub open spec fn letter_cells(l: (u32, Seq<u8>), cursor: int, k: nat) -> Seq<Cell>
    decreases k,
{
    if k == 0 {
        Seq::empty()
    } else {
        let head = letter_cells(l, cursor, (k - 1) as nat);
        if letters::pixel_of(l.1, (k - 1) % (l.0 as int), (k - 1) / (l.0 as int)) {
            head.push(cell_of(l, cursor, k - 1))
        } else {
            head
        }
    }
}

/// The cells of a title that are set, letter by letter.
pub open spec fn cells_of(ls: Seq<(u32, Seq<u8>)>) -> Seq<Cell>
    decreases ls.len(),
{
    if ls.len() == 0 {
        Seq::empty()
    } else {
        cells_of(ls.drop_last()) + letter_cells(
            ls.last(),
            cursor_of(ls.drop_last()) as int,
            (7 * ls.last().0) as nat,
        )
    }
}

/// Where a title starts, so that it stands in the middle of the picture.
pub open spec fn start_x_of(ls: Seq<(u32, Seq<u8>)>, scale: int) -> int {
    let total = (cursor_of(ls) - 1) * (16 * scale);
    if 640 * scale > total {
        (640 * scale - total) / 2
    } else {
        0
    }
}

/// Where the left edge of a column of cells stands.
pub open spec fn cell_x(start_x: int, col: int, scale: int) -> int {
    start_x + col * (16 * scale)
}

/// Where the top edge of a row of cells stands.
pub open spec fn cell_y(start_row: int, row: int, scale: int) -> int {
    (start_row + row) * (16 * scale)
}

/// The cells of one layer behind the letters.
pub open spec fn layer_of(cells: Seq<Cell>, start_x: int, start_row: int, scale: int, d: int, color: Color) -> Seq<
    Mark,
> {
    Seq::new(
        cells.len(),
        |i: int|
            Mark::Rect {
                x: (cell_x(start_x, cells[i].col as int, scale) + d * (3 * scale)) as u32,
                y: (cell_y(start_row, cells[i].row as int, scale) + d * (3 * scale)) as u32,
                w: (16 * scale) as u32,
                h: (16 * scale) as u32,
                color,
            },
    )
}

/// A cell's face, and its free edges over it: the dark ones first.
pub open spec fn face_of(c: Cell, start_x: int, start_row: int, scale: int, ink: &TitleInk) -> Seq<Mark> {
    let x = cell_x(start_x, c.col as int, scale);
    let y = cell_y(start_row, c.row as int, scale);
    let s = 16 * scale;
    let b = 2 * scale;
    Seq::new(
        ink.face@.len(),
        |dy: int|
            Mark::Rect { x: x as u32, y: (y + dy) as u32, w: s as u32, h: 1, color: ink.face@[dy] },
    ) + edge_of(c.bottom, x, y + s - b, s, b, ink.dark) + edge_of(c.right, x + s - b, y, b, s, ink.dark)
        + edge_of(c.top, x, y, s, b, ink.bright) + edge_of(c.left, x, y, b, s, ink.bright)
}

/// An edge, if it is free.
pub open spec fn edge_of(free: bool, x: int, y: int, w: int, h: int, color: Color) -> Seq<Mark> {
    if free {
        seq![Mark::Rect { x: x as u32, y: y as u32, w: w as u32, h: h as u32, color }]
    } else {
        Seq::empty()
    }
}

/// The faces of cells.
pub open spec fn faces_of(cells: Seq<Cell>, start_x: int, start_row: int, scale: int, ink: &TitleInk) -> Seq<Mark>
    decreases cells.len(),
{
    if cells.len() == 0 {
        Seq::empty()
    } else {
        faces_of(cells.drop_last(), start_x, start_row, scale, ink) + face_of(
            cells.last(),
            start_x,
            start_row,
            scale,
            ink,
        )
    }
}

/// The title: the four layers, the deepest first, and the faces over them.
pub open spec fn title_of(text: Seq<u8>, start_row: int, scale: int, ink: &TitleInk) -> Seq<Mark> {
    let ls = letters_of(text);
    let cells = cells_of(ls);
    let x = start_x_of(ls, scale);
    if ls.len() == 0 {
        Seq::empty()
    } else {
        layer_of(cells, x, start_row, scale, 4, ink.layers@[3]) + layer_of(
            cells,
            x,
            start_row,
            scale,
            3,
            ink.layers@[2],
        ) + layer_of(cells, x, start_row, scale, 2, ink.layers@[1]) + layer_of(
            cells,
            x,
            start_row,
            scale,
            1,
            ink.layers@[0],
        ) + faces_of(cells, x, start_row, scale, ink)
    }
}

/// Whether every place of a title can be counted.
pub open spec fn title_fits(text: Seq<u8>, start_row: int, scale: int) -> bool {
    &&& scale >= 1
    &&& 640 * scale + (cursor_of(letters_of(text)) + 2) * (16 * scale) <= u32::MAX
    &&& (start_row + 9) * (16 * scale) <= u32::MAX
}

/// The value of a letter.
pub open spec fn letter_view(l: BigLetter) -> (u32, Seq<u8>) {
    (l.width, l.rows@)
}

/// The values of letters.
pub open spec fn letter_views(ls: Seq<BigLetter>) -> Seq<(u32, Seq<u8>)> {
    ls.map_values(|l: BigLetter| letter_view(l))
}

proof fn lemma_widths(text: Seq<u8>)
    ensures
        forall|i: int|
            0 <= i < letters_of(text).len() ==> 3 <= (#[trigger] letters_of(text)[i]).0 <= 5 && letters_of(
                text,
            )[i].1.len() == 7,
    decreases text.len(),
{
    if text.len() > 0 {
        lemma_widths(text.drop_last());
        letters::law_letters_are_narrow(text.last());
        let head = letters_of(text.drop_last());
        assert forall|i: int| 0 <= i < letters_of(text).len() implies 3 <= (#[trigger] letters_of(
            text,
        )[i]).0 <= 5 && letters_of(text)[i].1.len() == 7 by {
            if i < head.len() {
                assert(letters_of(text)[i] == head[i]);
            }
        }
    }
}

/// A letter more never starts further left.
proof fn lemma_cursor_grows(ls: Seq<(u32, Seq<u8>)>, k: int)
    requires
        0 <= k <= ls.len(),
    ensures
        cursor_of(ls.take(k)) <= cursor_of(ls),
        k < ls.len() ==> cursor_of(ls.take(k)) + ls[k].0 + 1 <= cursor_of(ls),
    decreases ls.len(),
{
    if k == ls.len() {
        assert(ls.take(k) =~= ls);
    } else {
        let d = ls.drop_last();
        lemma_cursor_grows(d, k);
        assert(d.take(k) =~= ls.take(k));
        if k == d.len() {
            assert(ls.take(k) =~= d);
        }
    }
}

/// The letters of a text.
fn read_letters(text: &Vec<u8>) -> (r: Vec<BigLetter>)
    ensures
        letter_views(r@) == letters_of(text@),
{
    let mut out: Vec<BigLetter> = Vec::new();
    let mut i: usize = 0;
    proof {
        assert(letter_views(out@) =~= letters_of(text@.take(0)));
    }
    while i < text.len()
        invariant
            i <= text@.len(),
            letter_views(out@) == letters_of(text@.take(i as int)),
        decreases text@.len() - i,
    {
        let ghost prior = out@;
        let ghost t = text@.take(i as int + 1);
        proof {
            assert(t.drop_last() =~= text@.take(i as int));
            assert(t.last() == text@[i as int]);
        }
        match big_letter(text[i]) {
            Some(l) => {
                out.push(l);
                proof {
                    assert(letter_views(out@) =~= letter_views(prior).push(letter_view(l)));
                }
            },
            None => (),
        }
        i += 1;
    }
    proof {
        assert(text@.take(i as int) =~= text@);
    }
    out
}

/// Appends the cells of a letter.
fn push_letter_cells(out: &mut Vec<Cell>, l: &BigLetter, cursor: u32)
    requires
        3 <= l.width <= 5,
        cursor + l.width <= u32::MAX,
    ensures
        final(out)@ == old(out)@ + letter_cells(letter_view(*l), cursor as int, (7 * l.width) as nat),
{
    let ghost v = letter_view(*l);
    let n: u32 = 7 * l.width;
    let mut k: u32 = 0;
    proof {
        assert(out@ =~= old(out)@ + letter_cells(v, cursor as int, 0));
    }
    while k < n
        invariant
            3 <= l.width <= 5,
            cursor + l.width <= u32::MAX,
            v == letter_view(*l),
            n == 7 * l.width,
            k <= n,
            out@ == old(out)@ + letter_cells(v, cursor as int, k as nat),
        decreases n - k,
    {
        let ghost prior = out@;
        let bx: u32 = k % l.width;
        let by: u32 = k / l.width;
        proof {
            let w = l.width;
            assert(by < 7) by (nonlinear_arith)
                requires
                    by == k / w,
                    k < 7 * w,
                    w > 0,
            ;
        }
        if pixel_set(&l.rows, bx, by) {
            out.push(
                Cell {
                    col: cursor + bx,
                    row: by,
                    top: by == 0 || !pixel_set(&l.rows, bx, by - 1),
                    left: bx == 0 || !pixel_set(&l.rows, bx - 1, by),
                    bottom: by >= 6 || !pixel_set(&l.rows, bx, by + 1),
                    right: bx + 1 >= l.width || !pixel_set(&l.rows, bx + 1, by),
                },
            );
            proof {
                assert(out@.last() == cell_of(v, cursor as int, k as int));
            }
        }
        proof {
            assert(out@ =~= old(out)@ + letter_cells(v, cursor as int, (k + 1) as nat));
        }
        k += 1;
    }
}

/// Where a column and a row of cells may lie.
pub open spec fn within(cells: Seq<Cell>, cols: int) -> bool {
    forall|i: int| 0 <= i < cells.len() ==> (#[trigger] cells[i]).col < cols && cells[i].row < 7
}

proof fn lemma_letter_within(l: (u32, Seq<u8>), cursor: int, k: nat)
    requires
        3 <= l.0 <= 5,
        0 <= cursor,
        cursor + l.0 <= u32::MAX,
        k <= 7 * l.0,
    ensures
        within(letter_cells(l, cursor, k), cursor + l.0),
    decreases k,
{
    if k > 0 {
        lemma_letter_within(l, cursor, (k - 1) as nat);
        let w = l.0 as int;
        let j = k - 1;
        assert(0 <= j / w < 7 && 0 <= j % w < w) by (nonlinear_arith)
            requires
                0 <= j < 7 * w,
                w > 0,
        ;
    }
}

/// The cells of letters.
fn title_cells(ls: &Vec<BigLetter>) -> (r: Vec<Cell>)
    requires
        forall|i: int| 0 <= i < ls@.len() ==> 3 <= (#[trigger] letter_views(ls@)[i]).0 <= 5,
        cursor_of(letter_views(ls@)) <= u32::MAX,
    ensures
        r@ == cells_of(letter_views(ls@)),
        within(r@, cursor_of(letter_views(ls@)) as int),
{
    let ghost vs = letter_views(ls@);
    let mut out: Vec<Cell> = Vec::new();
    let mut cursor: u32 = 0;
    let mut i: usize = 0;
    while i < ls.len()
        invariant
            vs == letter_views(ls@),
            forall|i: int| 0 <= i < ls@.len() ==> 3 <= (#[trigger] vs[i]).0 <= 5,
            cursor_of(vs) <= u32::MAX,
            i <= ls@.len(),
            cursor == cursor_of(vs.take(i as int)),
            out@ == cells_of(vs.take(i as int)),
            within(out@, cursor as int),
        decreases ls@.len() - i,
    {
        let l: &BigLetter = &ls[i];
        let ghost t = vs.take(i as int + 1);
        let ghost prior = out@;
        proof {
            assert(t.drop_last() =~= vs.take(i as int));
            assert(t.last() == vs[i as int]);
            assert(vs[i as int] == letter_view(*l));
            lemma_cursor_grows(vs, i as int);
            lemma_letter_within(vs[i as int], cursor as int, (7 * l.width) as nat);
        }
        push_letter_cells(&mut out, l, cursor);
        cursor += l.width + 1;
        i += 1;
    }
    proof {
        assert(vs.take(i as int) =~= vs);
    }
    out
}

proof fn lemma_cell_fits(start_x: int, start_row: int, scale: int, cols: int, c: Cell)
    requires
        c.col < cols,
        c.row < 7,
        start_x >= 0,
        start_row >= 0,
        scale >= 1,
        start_x + (cols + 1) * (16 * scale) <= u32::MAX,
        (start_row + 9) * (16 * scale) <= u32::MAX,
    ensures
        0 <= c.col * (16 * scale),
        start_x + c.col * (16 * scale) + 32 * scale <= u32::MAX,
        0 <= (start_row + c.row) * (16 * scale),
        (start_row + c.row) * (16 * scale) + 48 * scale <= u32::MAX,
        start_row + c.row <= u32::MAX,
{
    let col = c.col as int;
    let row = c.row as int;
    assert(0 <= col * (16 * scale) && start_x + col * (16 * scale) + 32 * scale <= u32::MAX) by (nonlinear_arith)
        requires
            0 <= col,
            col + 1 <= cols,
            scale >= 1,
            start_x + (cols + 1) * (16 * scale) <= u32::MAX,
    ;
    assert(0 <= (start_row + row) * (16 * scale) && (start_row + row) * (16 * scale) + 48 * scale <= u32::MAX)
        by (nonlinear_arith)
        requires
            0 <= row,
            row + 1 <= 7,
            scale >= 1,
            start_row >= 0,
            (start_row + 9) * (16 * scale) <= u32::MAX,
    ;
    assert(start_row + row <= (start_row + 9) * (16 * scale)) by (nonlinear_arith)
        requires
            0 <= row < 7,
            scale >= 1,
            start_row >= 0,
    ;
}

/// Appends one layer behind the letters.
fn push_layer(
    out: &mut Vec<Mark>,
    cells: &Vec<Cell>,
    start_x: u32,
    start_row: u32,
    scale: u32,
    d: u32,
    color: Color,
    Ghost(cols): Ghost<int>,
)
    requires
        within(cells@, cols),
        d <= 4,
        scale >= 1,
        start_x + (cols + 1) * (16 * scale) <= u32::MAX,
        (start_row + 9) * (16 * scale) <= u32::MAX,
    ensures
        final(out)@ == old(out)@ + layer_of(
            cells@,
            start_x as int,
            start_row as int,
            scale as int,
            d as int,
            color,
        ),
{
    let ghost whole = layer_of(cells@, start_x as int, start_row as int, scale as int, d as int, color);
    let ghost before = out@;
    let mut i: usize = 0;
    proof {
        assert(out@ =~= before + whole.take(0));
    }
    while i < cells.len()
        invariant
            within(cells@, cols),
            d <= 4,
            scale >= 1,
            start_x + (cols + 1) * (16 * scale) <= u32::MAX,
            (start_row + 9) * (16 * scale) <= u32::MAX,
            whole == layer_of(cells@, start_x as int, start_row as int, scale as int, d as int, color),
            i <= cells@.len(),
            out@ == before + whole.take(i as int),
        decreases cells@.len() - i,
    {
        let c: Cell = cells[i];
        proof {
            lemma_cell_fits(start_x as int, start_row as int, scale as int, cols, c);
        }
        proof {
            let (dd, s3) = (d as int, 3 * scale);
            assert(0 <= dd * s3 <= 4 * s3) by (nonlinear_arith)
                requires
                    0 <= dd <= 4,
                    0 <= s3,
            ;
        }
        let unit: u32 = 16 * scale;
        let x: u32 = start_x + c.col * unit + d * (3 * scale);
        let y: u32 = (start_row + c.row) * unit + d * (3 * scale);
        out.push(Mark::Rect { x, y, w: unit, h: unit, color });
        proof {
            assert(out@.last() == whole[i as int]);
            assert(out@ =~= before + whole.take(i as int + 1));
        }
        i += 1;
    }
    proof {
        assert(whole.take(i as int) =~= whole);
    }
}

/// Appends an edge, if it is free.
fn push_edge(out: &mut Vec<Mark>, free: bool, x: u32, y: u32, w: u32, h: u32, color: Color)
    ensures
        final(out)@ == old(out)@ + edge_of(free, x as int, y as int, w as int, h as int, color),
{
    if free {
        out.push(Mark::Rect { x, y, w, h, color });
    }
    proof {
        assert(out@ =~= old(out)@ + edge_of(free, x as int, y as int, w as int, h as int, color));
    }
}

/// Appends a cell's face and its edges.
fn push_face(
    out: &mut Vec<Mark>,
    c: Cell,
    start_x: u32,
    start_row: u32,
    scale: u32,
    ink: &TitleInk,
    Ghost(cols): Ghost<int>,
)
    requires
        c.col < cols,
        c.row < 7,
        scale >= 1,
        ink.wf(scale),
        start_x + (cols + 1) * (16 * scale) <= u32::MAX,
        (start_row + 9) * (16 * scale) <= u32::MAX,
    ensures
        final(out)@ == old(out)@ + face_of(c, start_x as int, start_row as int, scale as int, ink),
{
    proof {
        lemma_cell_fits(start_x as int, start_row as int, scale as int, cols, c);
    }
    let unit: u32 = 16 * scale;
    let bevel: u32 = 2 * scale;
    let x: u32 = start_x + c.col * unit;
    let y: u32 = (start_row + c.row) * unit;
    let ghost before = out@;
    let ghost rows = Seq::new(
        ink.face@.len(),
        |dy: int| Mark::Rect { x, y: (y + dy) as u32, w: unit, h: 1, color: ink.face@[dy] },
    );
    let mut dy: u32 = 0;
    proof {
        assert(out@ =~= before + rows.take(0));
    }
    while dy < unit
        invariant
            unit == 16 * scale,
            ink.wf(scale),
            y + 16 * scale <= u32::MAX,
            rows == Seq::new(
                ink.face@.len(),
                |dy: int| Mark::Rect { x, y: (y + dy) as u32, w: unit, h: 1, color: ink.face@[dy] },
            ),
            dy <= unit,
            out@ == before + rows.take(dy as int),
        decreases unit - dy,
    {
        out.push(Mark::Rect { x, y: y + dy, w: unit, h: 1, color: ink.face[dy as usize] });
        proof {
            assert(out@ =~= before + rows.take(dy as int + 1));
        }
        dy += 1;
    }
    proof {
        assert(rows.take(dy as int) =~= rows);
    }
    push_edge(out, c.bottom, x, y + unit - bevel, unit, bevel, ink.dark);
    push_edge(out, c.right, x + unit - bevel, y, bevel, unit, ink.dark);
    push_edge(out, c.top, x, y, unit, bevel, ink.bright);
    push_edge(out, c.left, x, y, bevel, unit, ink.bright);
    proof {
        assert(out@ =~= before + face_of(c, start_x as int, start_row as int, scale as int, ink));
    }
}

/// Appends the title.
pub fn draw_big_title(out: &mut Vec<Mark>, start_row: u32, text: &Vec<u8>, ink: &TitleInk, scale: u32)
    requires
        ink.wf(scale),
        title_fits(text@, start_row as int, scale as int),
    ensures
        final(out)@ == old(out)@ + title_of(text@, start_row as int, scale as int, ink),
{
    let ls: Vec<BigLetter> = read_letters(text);
    let ghost vs = letters_of(text@);
    let ghost before = out@;
    if ls.len() == 0 {
        proof {
            assert(vs.len() == 0);
            assert(out@ =~= before + title_of(text@, start_row as int, scale as int, ink));
        }
        return;
    }
    proof {
        lemma_widths(text@);
        let n = cursor_of(vs) as int;
        let s = scale as int;
        assert(n <= (n + 2) * (16 * s)) by (nonlinear_arith)
            requires
                n >= 0,
                s >= 1,
        ;
        lemma_cursor_grows(vs, 0);
        assert(vs.take(0) =~= Seq::empty());
    }
    let cells: Vec<Cell> = title_cells(&ls);
    let ghost cols = cursor_of(vs) as int;
    let cursor: u32 = total_cells(&ls);
    let unit: u32 = 16 * scale;
    proof {
        let n = cols;
        let s = scale as int;
        assert(0 <= (n - 1) * (16 * s) <= (n + 2) * (16 * s) && (n + 1) * (16 * s) <= (n + 2) * (16 * s))
            by (nonlinear_arith)
            requires
                n >= 1,
                s >= 1,
        ;
    }
    let total: u32 = (cursor - 1) * unit;
    let wide: u32 = 640 * scale;
    let x: u32 = if wide > total {
        (wide - total) / 2
    } else {
        0
    };
    push_layer(out, &cells, x, start_row, scale, 4, ink.layers[3], Ghost(cols));
    push_layer(out, &cells, x, start_row, scale, 3, ink.layers[2], Ghost(cols));
    push_layer(out, &cells, x, start_row, scale, 2, ink.layers[1], Ghost(cols));
    push_layer(out, &cells, x, start_row, scale, 1, ink.layers[0], Ghost(cols));
    let ghost layered = out@;
    let mut i: usize = 0;
    proof {
        assert(out@ =~= layered + faces_of(cells@.take(0), x as int, start_row as int, scale as int, ink));
    }
    while i < cells.len()
        invariant
            within(cells@, cols),
            scale >= 1,
            ink.wf(scale),
            x + (cols + 1) * (16 * scale) <= u32::MAX,
            (start_row + 9) * (16 * scale) <= u32::MAX,
            i <= cells@.len(),
            out@ == layered + faces_of(cells@.take(i as int), x as int, start_row as int, scale as int, ink),
        decreases cells@.len() - i,
    {
        let c: Cell = cells[i];
        let ghost prior = out@;
        push_face(out, c, x, start_row, scale, ink, Ghost(cols));
        proof {
            let t = cells@.take(i as int + 1);
            assert(t.drop_last() =~= cells@.take(i as int));
            assert(t.last() == c);
            assert(out@ =~= layered + faces_of(t, x as int, start_row as int, scale as int, ink));
        }
        i += 1;
    }
    proof {
        assert(cells@.take(i as int) =~= cells@);
        assert(out@ =~= before + title_of(text@, start_row as int, scale as int, ink));
    }
}

/// How many columns of cells letters take, with a gap behind each.
fn total_cells(ls: &Vec<BigLetter>) -> (r: u32)
    requires
        cursor_of(letter_views(ls@)) <= u32::MAX,
    ensures
        r == cursor_of(letter_views(ls@)),
{
    let ghost vs = letter_views(ls@);
    let mut cursor: u32 = 0;
    let mut i: usize = 0;
    while i < ls.len()
        invariant
            vs == letter_views(ls@),
            cursor_of(vs) <= u32::MAX,
            i <= ls@.len(),
            cursor == cursor_of(vs.take(i as int)),
        decreases ls@.len() - i,
    {
        proof {
            let t = vs.take(i as int + 1);
            assert(t.drop_last() =~= vs.take(i as int));
            assert(t.last() == vs[i as int]);
            lemma_cursor_grows(vs, i as int);
        }
        cursor += ls[i].width + 1;
        i += 1;
    }
    proof {
        assert(vs.take(i as int) =~= vs);
    }
    cursor
}

// ── Laws ────────────────────────────────────────────────────────────────────

/// Whether a byte is a letter of ASCII.
pub open spec fn is_letter(b: u8) -> bool {
    65 <= b <= 90 || 97 <= b <= 122
}

/// The letters of a text in upper case.
pub open spec fn spelled(text: Seq<u8>) -> Seq<u8>
    decreases text.len(),
{
    if text.len() == 0 {
        Seq::empty()
    } else if is_letter(text.last()) {
        spelled(text.drop_last()).push(letters::upper_byte(text.last()))
    } else {
        spelled(text.drop_last())
    }
}

/// The shapes of a text are those of its letters in upper case.
proof fn lemma_shapes(text: Seq<u8>)
    ensures
        letters_of(text) == spelled(text).map_values(|b: u8| letters::letter_of(b)->0),
    decreases text.len(),
{
    if text.len() == 0 {
        assert(letters_of(text) =~= spelled(text).map_values(|b: u8| letters::letter_of(b)->0));
    } else {
        lemma_shapes(text.drop_last());
        let b = text.last();
        assert(letters::letter_of(b) is Some == is_letter(b));
        assert(letters::letter_of(letters::upper_byte(b)) == letters::letter_of(b));
        assert(letters_of(text) =~= spelled(text).map_values(|b: u8| letters::letter_of(b)->0));
    }
}

/// Only the letters of a title count, and not their case: titles that spell the same
/// are the same marks.
pub proof fn law_only_letters_count(a: Seq<u8>, b: Seq<u8>, start_row: int, scale: int, ink: &TitleInk)
    requires
        spelled(a) == spelled(b),
    ensures
        letters_of(a) == letters_of(b),
        title_fits(a, start_row, scale) == title_fits(b, start_row, scale),
        title_of(a, start_row, scale, ink) == title_of(b, start_row, scale, ink),
{
    lemma_shapes(a);
    lemma_shapes(b);
}

/// A title without letters is no mark.
pub proof fn law_no_letters_no_title(text: Seq<u8>, start_row: int, scale: int, ink: &TitleInk)
    requires
        spelled(text).len() == 0,
    ensures
        title_of(text, start_row, scale, ink).len() == 0,
{
    lemma_shapes(text);
}

/// Titles that spell the same give the same picture, of the size that it had; without
/// letters the picture stays as it was.
pub proof fn law_same_letters_same_picture(
    font: &Font,
    before: Canvas,
    one: Canvas,
    other: Canvas,
    a: Seq<u8>,
    b: Seq<u8>,
    start_row: int,
    scale: int,
    ink: &TitleInk,
)
    requires
        spelled(a) == spelled(b),
        marks::drawn(font, before, one, title_of(a, start_row, scale, ink)),
        marks::drawn(font, before, other, title_of(b, start_row, scale, ink)),
    ensures
        one.same_size(&before),
        other.same_size(&before),
        forall|i: int, j: int|
            0 <= i < before.width && 0 <= j < before.tall() ==> #[trigger] one.at(i, j) == other.at(i, j),
        spelled(a).len() == 0 ==> forall|i: int, j: int|
            0 <= i < before.width && 0 <= j < before.tall() ==> #[trigger] one.at(i, j) == before.at(i, j),
{
    law_only_letters_count(a, b, start_row, scale, ink);
    if spelled(a).len() == 0 {
        law_no_letters_no_title(a, start_row, scale, ink);
    }
}

} // verus!
