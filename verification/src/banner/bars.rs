//! Bars in frames. How far a bar is filled and in which shades is given.

use vstd::prelude::*;
use crate::banner::canvas::{Color, Font};
use crate::banner::marks;
use crate::banner::marks::Mark;

verus! {

/// A rectangle.
pub open spec fn rect_of(x: int, y: int, w: int, h: int, color: Color) -> Mark {
    Mark::Rect { x: x as u32, y: y as u32, w: w as u32, h: h as u32, color }
}

/// A frame one pixel wide round a ground.
pub open spec fn frame_of(x: int, y: int, w: int, h: int, inset: Color, border: Color) -> Seq<Mark> {
    seq![
        rect_of(x, y, w, h, inset),
        rect_of(x, y, w, 1, border),
        rect_of(x, y + h - 1, w, 1, border),
        rect_of(x, y, 1, h, border),
        rect_of(x + w - 1, y, 1, h, border),
    ]
}

/// Appends a frame.
fn draw_frame(out: &mut Vec<Mark>, x: u32, y: u32, w: u32, h: u32, inset: Color, border: Color)
    requires
        1 <= x + w <= u32::MAX,
        1 <= y + h <= u32::MAX,
    ensures
        final(out)@ == old(out)@ + frame_of(x as int, y as int, w as int, h as int, inset, border),
{
    out.push(Mark::Rect { x, y, w, h, color: inset });
    out.push(Mark::Rect { x, y, w, h: 1, color: border });
    out.push(Mark::Rect { x, y: y + h - 1, w, h: 1, color: border });
    out.push(Mark::Rect { x, y, w: 1, h, color: border });
    out.push(Mark::Rect { x: x + w - 1, y, w: 1, h, color: border });
    proof {
        assert(out@ =~= old(out)@ + frame_of(x as int, y as int, w as int, h as int, inset, border));
    }
}

/// The shades of a filled part: one for each of its columns or rows, and those of its
/// upper and lower edge.
#[derive(Debug)]
pub struct Fill {
    pub shades: Vec<Color>,
    pub hi: Color,
    pub lo: Color,
}

/// The height of an edge.
pub open spec fn edge_height(inner: int) -> int {
    if inner < 2 {
        inner
    } else {
        2
    }
}

/// A part filled column by column, with its edges over it. `inner` is its height.
pub open spec fn fill_of(x: int, y: int, inner: int, fill: &Fill) -> Seq<Mark> {
    let w = fill.shades@.len() as int;
    let e = edge_height(inner);
    Seq::new(fill.shades@.len(), |dx: int| rect_of(x + dx, y, 1, inner, fill.shades@[dx])) + seq![
        rect_of(x, y, w, e, fill.hi),
        rect_of(x, y + inner - e, w, e, fill.lo),
    ]
}

/// Appends a filled part.
fn draw_fill(out: &mut Vec<Mark>, x: u32, y: u32, inner: u32, fill: &Fill)
    requires
        x + fill.shades@.len() <= u32::MAX,
        y + inner <= u32::MAX,
    ensures
        final(out)@ == old(out)@ + fill_of(x as int, y as int, inner as int, fill),
{
    let ghost before = out@;
    let ghost cols = Seq::new(
        fill.shades@.len(),
        |dx: int| rect_of(x + dx, y as int, 1, inner as int, fill.shades@[dx]),
    );
    let w: u32 = fill.shades.len() as u32;
    let mut dx: u32 = 0;
    proof {
        assert(out@ =~= before + cols.take(0));
    }
    while dx < w
        invariant
            w == fill.shades@.len(),
            x + w <= u32::MAX,
            cols == Seq::new(
                fill.shades@.len(),
                |dx: int| rect_of(x + dx, y as int, 1, inner as int, fill.shades@[dx]),
            ),
            dx <= w,
            out@ == before + cols.take(dx as int),
        decreases w - dx,
    {
        out.push(Mark::Rect { x: x + dx, y, w: 1, h: inner, color: fill.shades[dx as usize] });
        proof {
            assert(out@ =~= before + cols.take(dx as int + 1));
        }
        dx += 1;
    }
    let e: u32 = if inner < 2 {
        inner
    } else {
        2
    };
    out.push(Mark::Rect { x, y, w, h: e, color: fill.hi });
    out.push(Mark::Rect { x, y: y + inner - e, w, h: e, color: fill.lo });
    proof {
        assert(cols.take(dx as int) =~= cols);
        assert(out@ =~= before + fill_of(x as int, y as int, inner as int, fill));
    }
}

/// A bar in its frame, filled from the left.
pub open spec fn bar_of(x: int, y: int, w: int, h: int, inset: Color, border: Color, fill: &Fill) -> Seq<Mark> {
    frame_of(x, y, w, h, inset, border) + (if fill.shades@.len() == 0 {
        Seq::empty()
    } else {
        fill_of(x + 1, y + 1, h - 2, fill)
    })
}

/// Appends a bar in its frame.
pub fn draw_bar_3d(
    out: &mut Vec<Mark>,
    x: u32,
    y: u32,
    bar_w: u32,
    bar_h: u32,
    inset: Color,
    border: Color,
    fill: &Fill,
)
    requires
        2 <= bar_w,
        2 <= bar_h,
        x + bar_w <= u32::MAX,
        y + bar_h <= u32::MAX,
        fill.shades@.len() <= bar_w - 2,
    ensures
        final(out)@ == old(out)@ + bar_of(
            x as int,
            y as int,
            bar_w as int,
            bar_h as int,
            inset,
            border,
            fill,
        ),
{
    let ghost before = out@;
    draw_frame(out, x, y, bar_w, bar_h, inset, border);
    if fill.shades.len() > 0 {
        draw_fill(out, x + 1, y + 1, bar_h - 2, fill);
    }
    proof {
        assert(out@ =~= before + bar_of(
            x as int,
            y as int,
            bar_w as int,
            bar_h as int,
            inset,
            border,
            fill,
        ));
    }
}

/// A part of a stacked bar: which of the parts that were asked for, where it starts
/// and how wide it is.
#[derive(Debug, Clone, Copy, PartialEq, Eq, Structural)]
pub struct Slot {
    pub part: usize,
    pub start: u32,
    pub width: u32,
}

/// Where the parts of a stacked bar stand, side by side. A part of no width is left
/// out, the last that still has room is cut off, and there is none behind it.
pub open spec fn slots_of(widths: Seq<u32>, inner: u32, n: nat) -> Seq<Slot>
    decreases n,
{
    if n == 0 {
        Seq::empty()
    } else {
        let head = slots_of(widths, inner, (n - 1) as nat);
        let start = taken(head);
        let want = widths[n - 1] as int;
        let room = inner - start;
        let width = if want < room {
            want
        } else {
            room
        };
        if width <= 0 {
            head
        } else {
            head.push(Slot { part: (n - 1) as usize, start: start as u32, width: width as u32 })
        }
    }
}

/// Where the parts so far end.
pub open spec fn taken(slots: Seq<Slot>) -> int {
    if slots.len() == 0 {
        0
    } else {
        slots.last().start + slots.last().width
    }
}

/// The parts of a stacked bar stand side by side from its left edge, none is empty,
/// and none reaches beyond its right edge.
pub proof fn law_slots_are_side_by_side(widths: Seq<u32>, inner: u32, n: nat)
    requires
        n <= widths.len(),
    ensures
        taken(slots_of(widths, inner, n)) <= inner,
        forall|i: int|
            0 <= i < slots_of(widths, inner, n).len() ==> {
                let s = #[trigger] slots_of(widths, inner, n)[i];
                &&& s.width > 0
                &&& s.start + s.width <= inner
                &&& s.start == (if i == 0 {
                    0
                } else {
                    slots_of(widths, inner, n)[i - 1].start + slots_of(widths, inner, n)[i - 1].width
                })
            },
    decreases n,
{
    if n > 0 {
        law_slots_are_side_by_side(widths, inner, (n - 1) as nat);
        let head = slots_of(widths, inner, (n - 1) as nat);
        let all = slots_of(widths, inner, n);
        assert forall|i: int| 0 <= i < all.len() implies ({
            let s = #[trigger] all[i];
            &&& s.width > 0
            &&& s.start + s.width <= inner
            &&& s.start == (if i == 0 {
                0
            } else {
                all[i - 1].start + all[i - 1].width
            })
        }) by {
            if i < head.len() {
                assert(all[i] == head[i]);
                if i > 0 {
                    assert(all[i - 1] == head[i - 1]);
                }
            } else if i > 0 {
                assert(all[i - 1] == head[i - 1]);
            }
        }
    }
}

/// Where the parts of a stacked bar stand.
pub fn stacked_slots(widths: &Vec<u32>, inner: u32) -> (r: Vec<Slot>)
    ensures
        r@ == slots_of(widths@, inner, widths@.len()),
{
    let mut out: Vec<Slot> = Vec::new();
    let mut cursor: u32 = 0;
    let mut i: usize = 0;
    while i < widths.len()
        invariant
            i <= widths@.len(),
            out@ == slots_of(widths@, inner, i as nat),
            cursor == taken(out@),
            cursor <= inner,
        decreases widths@.len() - i,
    {
        let room: u32 = inner - cursor;
        let width: u32 = if widths[i] < room {
            widths[i]
        } else {
            room
        };
        if width > 0 {
            out.push(Slot { part: i, start: cursor, width });
            cursor += width;
        }
        i += 1;
    }
    out
}

/// The parts of a stacked bar, one behind the other.
pub open spec fn parts_of(x: int, y: int, inner: int, slots: Seq<Slot>, fills: Seq<Fill>, n: nat) -> Seq<Mark>
    decreases n,
{
    if n == 0 {
        Seq::empty()
    } else {
        parts_of(x, y, inner, slots, fills, (n - 1) as nat) + fill_of(
            x + slots[n - 1].start,
            y,
            inner,
            &fills[n - 1],
        )
    }
}

/// What is left inside a frame.
pub open spec fn inner_of(n: int) -> int {
    if n < 2 {
        0
    } else {
        n - 2
    }
}

/// Appends a bar of parts in its frame. Each part has its shades, one for each of its
/// columns.
pub fn draw_stacked_bar_3d(
    out: &mut Vec<Mark>,
    x: u32,
    y: u32,
    bar_w: u32,
    bar_h: u32,
    inset: Color,
    border: Color,
    slots: &Vec<Slot>,
    fills: &Vec<Fill>,
)
    requires
        1 <= x + bar_w < u32::MAX,
        1 <= y + bar_h < u32::MAX,
        slots@.len() == fills@.len(),
        forall|i: int|
            0 <= i < slots@.len() ==> (#[trigger] slots@[i]).start + slots@[i].width <= inner_of(bar_w as int)
                && fills@[i].shades@.len() == slots@[i].width,
    ensures
        final(out)@ == old(out)@ + frame_of(x as int, y as int, bar_w as int, bar_h as int, inset, border)
            + parts_of(x + 1, y + 1, inner_of(bar_h as int), slots@, fills@, slots@.len()),
{
    let ghost before = out@;
    draw_frame(out, x, y, bar_w, bar_h, inset, border);
    let ghost framed = out@;
    let inner: u32 = if bar_h < 2 {
        0
    } else {
        bar_h - 2
    };
    let mut i: usize = 0;
    proof {
        assert(out@ =~= framed + parts_of(x + 1, y + 1, inner as int, slots@, fills@, 0));
    }
    while i < slots.len()
        invariant
            x + bar_w < u32::MAX,
            y + bar_h < u32::MAX,
            inner == inner_of(bar_h as int),
            slots@.len() == fills@.len(),
            forall|i: int|
                0 <= i < slots@.len() ==> (#[trigger] slots@[i]).start + slots@[i].width <= inner_of(
                    bar_w as int,
                ) && fills@[i].shades@.len() == slots@[i].width,
            i <= slots@.len(),
            out@ == framed + parts_of(x + 1, y + 1, inner as int, slots@, fills@, i as nat),
        decreases slots@.len() - i,
    {
        let ghost prior = out@;
        proof {
            assert(slots@[i as int].start + slots@[i as int].width <= inner_of(bar_w as int));
        }
        draw_fill(out, x + 1 + slots[i].start, y + 1, inner, &fills[i]);
        proof {
            assert(out@ =~= framed + parts_of(x + 1, y + 1, inner as int, slots@, fills@, (i + 1) as nat));
        }
        i += 1;
    }
}

/// A bar in its frame, filled row by row from its bottom.
pub open spec fn mini_bar_of(
    x: int,
    y: int,
    w: int,
    h: int,
    inset: Color,
    border: Color,
    shades: Seq<Color>,
) -> Seq<Mark> {
    frame_of(x, y, w, h, inset, border) + Seq::new(
        shades.len(),
        |dy: int| rect_of(x + 1, y + 1 + (h - 2 - shades.len()) + dy, w - 2, 1, shades[dy]),
    )
}

/// Bars side by side, two pixels apart.
pub open spec fn mini_bars_of(
    x: int,
    y: int,
    w: int,
    h: int,
    inset: Color,
    border: Color,
    fills: Seq<Vec<Color>>,
    n: nat,
) -> Seq<Mark>
    decreases n,
{
    if n == 0 {
        Seq::empty()
    } else {
        mini_bars_of(x, y, w, h, inset, border, fills, (n - 1) as nat) + mini_bar_of(
            x + (n - 1) * (w + 2),
            y,
            w,
            h,
            inset,
            border,
            fills[n - 1]@,
        )
    }
}

/// Appends one bar that is filled from its bottom.
fn draw_mini_bar(
    out: &mut Vec<Mark>,
    x: u32,
    y: u32,
    w: u32,
    h: u32,
    inset: Color,
    border: Color,
    shades: &Vec<Color>,
)
    requires
        2 <= w,
        2 <= h,
        x + w <= u32::MAX,
        y + h <= u32::MAX,
        shades@.len() <= h - 2,
    ensures
        final(out)@ == old(out)@ + mini_bar_of(
            x as int,
            y as int,
            w as int,
            h as int,
            inset,
            border,
            shades@,
        ),
{
    let ghost before = out@;
    draw_frame(out, x, y, w, h, inset, border);
    let ghost framed = out@;
    let n: u32 = shades.len() as u32;
    let top: u32 = y + 1 + (h - 2 - n);
    let ghost rows = Seq::new(
        shades@.len(),
        |dy: int| rect_of(x + 1, y + 1 + (h - 2 - shades@.len()) + dy, w - 2, 1, shades@[dy]),
    );
    let mut dy: u32 = 0;
    proof {
        assert(out@ =~= framed + rows.take(0));
    }
    while dy < n
        invariant
            n == shades@.len(),
            2 <= w,
            x + w <= u32::MAX,
            y + h <= u32::MAX,
            n <= h - 2,
            top == y + 1 + (h - 2 - n),
            rows == Seq::new(
                shades@.len(),
                |dy: int| rect_of(x + 1, y + 1 + (h - 2 - shades@.len()) + dy, w - 2, 1, shades@[dy]),
            ),
            dy <= n,
            out@ == framed + rows.take(dy as int),
        decreases n - dy,
    {
        out.push(Mark::Rect { x: x + 1, y: top + dy, w: w - 2, h: 1, color: shades[dy as usize] });
        proof {
            assert(out@ =~= framed + rows.take(dy as int + 1));
        }
        dy += 1;
    }
    proof {
        assert(rows.take(dy as int) =~= rows);
        assert(out@ =~= before + mini_bar_of(x as int, y as int, w as int, h as int, inset, border, shades@));
    }
}

/// Appends three bars side by side.
pub fn draw_mini_bars(
    out: &mut Vec<Mark>,
    x: u32,
    y: u32,
    bar_w: u32,
    bar_h: u32,
    inset: Color,
    border: Color,
    fills: &Vec<Vec<Color>>,
)
    requires
        2 <= bar_w,
        2 <= bar_h,
        x + 3 * (bar_w + 2) <= u32::MAX,
        y + bar_h <= u32::MAX,
        fills@.len() == 3,
        forall|i: int| 0 <= i < 3 ==> (#[trigger] fills@[i])@.len() <= bar_h - 2,
    ensures
        final(out)@ == old(out)@ + mini_bars_of(
            x as int,
            y as int,
            bar_w as int,
            bar_h as int,
            inset,
            border,
            fills@,
            3,
        ),
{
    let ghost before = out@;
    let mut i: u32 = 0;
    proof {
        assert(out@ =~= before + mini_bars_of(
            x as int,
            y as int,
            bar_w as int,
            bar_h as int,
            inset,
            border,
            fills@,
            0,
        ));
    }
    while i < 3
        invariant
            2 <= bar_w,
            2 <= bar_h,
            x + 3 * (bar_w + 2) <= u32::MAX,
            y + bar_h <= u32::MAX,
            fills@.len() == 3,
            forall|i: int| 0 <= i < 3 ==> (#[trigger] fills@[i])@.len() <= bar_h - 2,
            i <= 3,
            out@ == before + mini_bars_of(
                x as int,
                y as int,
                bar_w as int,
                bar_h as int,
                inset,
                border,
                fills@,
                i as nat,
            ),
        decreases 3 - i,
    {
        let ghost prior = out@;
        proof {
            let (k, w) = (i as int, bar_w + 2);
            assert(0 <= k * w <= 2 * w) by (nonlinear_arith)
                requires
                    0 <= k <= 2,
                    0 <= w,
            ;
            assert(fills@[i as int]@.len() <= bar_h - 2);
        }
        draw_mini_bar(
            out,
            x + i * (bar_w + 2),
            y,
            bar_w,
            bar_h,
            inset,
            border,
            &fills[i as usize],
        );
        proof {
            assert(out@ =~= before + mini_bars_of(
                x as int,
                y as int,
                bar_w as int,
                bar_h as int,
                inset,
                border,
                fills@,
                (i + 1) as nat,
            ));
        }
        i += 1;
    }
}

/// Whether a rectangle can be counted.
pub open spec fn in_range(x: int, y: int, w: int, h: int) -> bool {
    0 <= x && 0 <= y && 0 <= w && 0 <= h && x + w <= u32::MAX && y + h <= u32::MAX
}

/// Whether a pixel is within a rectangle.
pub open spec fn inside(x: int, y: int, w: int, h: int, px: int, py: int) -> bool {
    x <= px < x + w && y <= py < y + h
}

/// A frame is what it looks like: its border is one pixel wide all round, its inside is
/// of the other colour, and nothing outside of it changes.
pub proof fn law_frame_pixels(
    font: &Font,
    base: Color,
    x: int,
    y: int,
    w: int,
    h: int,
    inset: Color,
    border: Color,
    px: int,
    py: int,
)
    requires
        in_range(x, y, w, h),
        w >= 2,
        h >= 2,
    ensures
        marks::painted(font, base, frame_of(x, y, w, h, inset, border), px, py) == (if inside(
            x + 1,
            y + 1,
            w - 2,
            h - 2,
            px,
            py,
        ) {
            inset
        } else if inside(x, y, w, h, px, py) {
            border
        } else {
            base
        }),
{
    let f = frame_of(x, y, w, h, inset, border);
    let f4 = f.drop_last();
    let f3 = f4.drop_last();
    let f2 = f3.drop_last();
    let f1 = f2.drop_last();
    assert(f1.drop_last().len() == 0);
    assert(f.last() == rect_of(x + w - 1, y, 1, h, border));
    assert(f4.last() == rect_of(x, y, 1, h, border));
    assert(f3.last() == rect_of(x, y + h - 1, w, 1, border));
    assert(f2.last() == rect_of(x, y, w, 1, border));
    assert(f1.last() == rect_of(x, y, w, h, inset));
    reveal_with_fuel(marks::painted, 6);
}

proof fn lemma_columns(font: &Font, base: Color, x: int, y: int, inner: int, shades: Seq<Color>, px: int, py: int)
    requires
        in_range(x, y, shades.len() as int, inner),
    ensures
        marks::painted(
            font,
            base,
            Seq::new(shades.len(), |dx: int| rect_of(x + dx, y, 1, inner, shades[dx])),
            px,
            py,
        ) == (if inside(x, y, shades.len() as int, inner, px, py) {
            shades[px - x]
        } else {
            base
        }),
    decreases shades.len(),
{
    let ms = Seq::new(shades.len(), |dx: int| rect_of(x + dx, y, 1, inner, shades[dx]));
    if shades.len() > 0 {
        let less = shades.drop_last();
        assert(ms.drop_last() =~= Seq::new(less.len(), |dx: int| rect_of(x + dx, y, 1, inner, less[dx])));
        lemma_columns(font, base, x, y, inner, less, px, py);
    }
}

/// A filled part is what it looks like: each column has its own shade, but for a bright
/// edge of up to two pixels above and a dark one below.
pub proof fn law_fill_pixels(font: &Font, base: Color, x: int, y: int, inner: int, fill: &Fill, px: int, py: int)
    requires
        in_range(x, y, fill.shades@.len() as int, inner),
    ensures
        marks::painted(font, base, fill_of(x, y, inner, fill), px, py) == (if !inside(
            x,
            y,
            fill.shades@.len() as int,
            inner,
            px,
            py,
        ) {
            base
        } else if py >= y + inner - 2 {
            fill.lo
        } else if py < y + 2 {
            fill.hi
        } else {
            fill.shades@[px - x]
        }),
{
    let w = fill.shades@.len() as int;
    let e = edge_height(inner);
    let cols = Seq::new(fill.shades@.len(), |dx: int| rect_of(x + dx, y, 1, inner, fill.shades@[dx]));
    let edges = seq![rect_of(x, y, w, e, fill.hi), rect_of(x, y + inner - e, w, e, fill.lo)];
    lemma_columns(font, base, x, y, inner, fill.shades@, px, py);
    marks::law_marks_add_up(font, base, cols, edges, px, py);
    let mid = marks::painted(font, base, cols, px, py);
    assert(edges.drop_last().drop_last().len() == 0);
    assert(edges.last() == rect_of(x, y + inner - e, w, e, fill.lo));
    assert(edges.drop_last().last() == rect_of(x, y, w, e, fill.hi));
    reveal_with_fuel(marks::painted, 3);
    assert(fill_of(x, y, inner, fill) =~= cols + edges);
}

/// A bar is a frame with its filling inside, which begins at the left; where it is not
/// filled the inside stays of the frame's own colour.
pub proof fn law_bar_pixels(
    font: &Font,
    base: Color,
    x: int,
    y: int,
    w: int,
    h: int,
    inset: Color,
    border: Color,
    fill: &Fill,
    px: int,
    py: int,
)
    requires
        in_range(x, y, w, h),
        w >= 2,
        h >= 2,
        fill.shades@.len() <= w - 2,
    ensures
        ({
            let c = marks::painted(font, base, bar_of(x, y, w, h, inset, border, fill), px, py);
            let n = fill.shades@.len() as int;
            &&& !inside(x, y, w, h, px, py) ==> c == base
            &&& inside(x, y, w, h, px, py) && !inside(x + 1, y + 1, w - 2, h - 2, px, py) ==> c == border
            &&& inside(x + 1, y + 1, w - 2, h - 2, px, py) && px >= x + 1 + n ==> c == inset
            &&& inside(x + 1, y + 1, n, h - 2, px, py) && y + 3 <= py < y + h - 3 ==> c == fill.shades@[px - x - 1]
        }),
{
    let f = frame_of(x, y, w, h, inset, border);
    law_frame_pixels(font, base, x, y, w, h, inset, border, px, py);
    let mid = marks::painted(font, base, f, px, py);
    if fill.shades@.len() == 0 {
        assert(f + Seq::<Mark>::empty() =~= f);
    } else {
        let g = fill_of(x + 1, y + 1, h - 2, fill);
        marks::law_marks_add_up(font, base, f, g, px, py);
        law_fill_pixels(font, mid, x + 1, y + 1, h - 2, fill, px, py);
    }
}

proof fn lemma_rows(font: &Font, base: Color, x: int, y: int, w: int, shades: Seq<Color>, px: int, py: int)
    requires
        in_range(x, y, w, shades.len() as int),
    ensures
        marks::painted(
            font,
            base,
            Seq::new(shades.len(), |dy: int| rect_of(x, y + dy, w, 1, shades[dy])),
            px,
            py,
        ) == (if inside(x, y, w, shades.len() as int, px, py) {
            shades[py - y]
        } else {
            base
        }),
    decreases shades.len(),
{
    let ms = Seq::new(shades.len(), |dy: int| rect_of(x, y + dy, w, 1, shades[dy]));
    if shades.len() > 0 {
        let less = shades.drop_last();
        assert(ms.drop_last() =~= Seq::new(less.len(), |dy: int| rect_of(x, y + dy, w, 1, less[dy])));
        lemma_rows(font, base, x, y, w, less, px, py);
    }
}

/// A standing bar is filled from below: its rows stand on the lower border, and above
/// them the inside stays of the frame's own colour.
pub proof fn law_standing_bar_pixels(
    font: &Font,
    base: Color,
    x: int,
    y: int,
    w: int,
    h: int,
    inset: Color,
    border: Color,
    shades: Seq<Color>,
    px: int,
    py: int,
)
    requires
        in_range(x, y, w, h),
        w >= 2,
        h >= 2,
        shades.len() <= h - 2,
    ensures
        ({
            let c = marks::painted(font, base, mini_bar_of(x, y, w, h, inset, border, shades), px, py);
            let top = y + h - 1 - shades.len();
            &&& !inside(x, y, w, h, px, py) ==> c == base
            &&& inside(x, y, w, h, px, py) && !inside(x + 1, y + 1, w - 2, h - 2, px, py) ==> c == border
            &&& inside(x + 1, y + 1, w - 2, h - 2, px, py) && py < top ==> c == inset
            &&& inside(x + 1, y + 1, w - 2, h - 2, px, py) && py >= top ==> c == shades[py - top]
        }),
{
    let f = frame_of(x, y, w, h, inset, border);
    let top = y + 1 + (h - 2 - shades.len());
    let rows = Seq::new(shades.len(), |dy: int| rect_of(x + 1, top + dy, w - 2, 1, shades[dy]));
    law_frame_pixels(font, base, x, y, w, h, inset, border, px, py);
    let mid = marks::painted(font, base, f, px, py);
    lemma_rows(font, mid, x + 1, top, w - 2, shades, px, py);
    marks::law_marks_add_up(font, base, f, rows, px, py);
    assert(mini_bar_of(x, y, w, h, inset, border, shades) =~= f + rows);
}

} // verus!
