//! What is drawn on a canvas: glyphs and rectangles, one over the other.

use vstd::prelude::*;
use crate::banner::canvas::{Canvas, Color, Font};

verus! {

/// One thing that is drawn. What lies outside the canvas is left out.
#[derive(Debug, Clone, Copy, PartialEq, Eq, Structural)]
pub enum Mark {
    /// A glyph, each of its pixels a square of `scale`. Without a background only the
    /// pixels that are set are drawn.
    Glyph { x: u32, y: u32, ch: u8, fg: Color, bg: Option<Color>, scale: u32 },
    /// A rectangle.
    Rect { x: u32, y: u32, w: u32, h: u32, color: Color },
}

/// The colour that a mark gives a place, if it covers it.
pub open spec fn mark_at(font: &Font, m: Mark, px: int, py: int) -> Option<Color> {
    match m {
        Mark::Glyph { x, y, ch, fg, bg, scale } => {
            if x <= px < x + 8 * scale && y <= py < y + 16 * scale {
                if font.glyph(ch, (px - x) / scale as int, (py - y) / scale as int) {
                    Some(fg)
                } else {
                    bg
                }
            } else {
                None
            }
        },
        Mark::Rect { x, y, w, h, color } => {
            if x <= px < x + w && y <= py < y + h {
                Some(color)
            } else {
                None
            }
        },
    }
}

/// The colour of a place after marks were drawn over it: the last that covers it
/// counts.
pub open spec fn painted(font: &Font, base: Color, marks: Seq<Mark>, px: int, py: int) -> Color
    decreases marks.len(),
{
    if marks.len() == 0 {
        base
    } else {
        match mark_at(font, marks.last(), px, py) {
            Some(c) => c,
            None => painted(font, base, marks.drop_last(), px, py),
        }
    }
}

/// Drawing one list of marks and then another is drawing both lists.
pub proof fn law_marks_add_up(font: &Font, base: Color, a: Seq<Mark>, b: Seq<Mark>, px: int, py: int)
    ensures
        painted(font, base, a + b, px, py) == painted(font, painted(font, base, a, px, py), b, px, py),
    decreases b.len(),
{
    if b.len() == 0 {
        assert(a + b =~= a);
    } else {
        assert((a + b).drop_last() =~= a + b.drop_last());
        law_marks_add_up(font, base, a, b.drop_last(), px, py);
    }
}

/// Whether `now` is `before` with marks drawn over it.
pub open spec fn drawn(font: &Font, before: Canvas, now: Canvas, marks: Seq<Mark>) -> bool {
    &&& now.wf()
    &&& now.same_size(&before)
    &&& forall|i: int, j: int|
        0 <= i < now.width && 0 <= j < now.tall() ==> #[trigger] now.at(i, j) == painted(
            font,
            before.at(i, j),
            marks,
            i,
            j,
        )
}

/// The end of a span, at most at the edge.
fn clipped(start: u32, len: u64, edge: u32) -> (r: u32)
    requires
        len <= 0x20_0000_0000,
    ensures
        r == (if start + len < edge {
            start + len
        } else {
            edge as int
        }),
{
    let end: u64 = start as u64 + len;
    if end < edge as u64 {
        end as u32
    } else {
        edge
    }
}

/// Draws one mark.
#[verifier::rlimit(40)]
fn draw(img: &mut Canvas, font: &Font, m: Mark)
    requires
        old(img).wf(),
        font.wf(),
    ensures
        final(img).wf(),
        final(img).same_size(old(img)),
        forall|i: int, j: int|
            0 <= i < final(img).width && 0 <= j < final(img).tall() ==> #[trigger] final(img).at(i, j)
                == (match mark_at(font, m, i, j) {
                Some(c) => c,
                None => old(img).at(i, j),
            }),
{
    let (x0, y0, w, h): (u32, u32, u64, u64) = match m {
        Mark::Glyph { x, y, ch: _, fg: _, bg: _, scale } => (x, y, 8 * scale as u64, 16 * scale as u64),
        Mark::Rect { x, y, w, h, color: _ } => (x, y, w as u64, h as u64),
    };
    let width: u32 = img.width;
    let height: u32 = img.height();
    let x_end: u32 = clipped(x0, w, width);
    let y_end: u32 = clipped(y0, h, height);
    let mut py: u32 = y0;
    while py < y_end
        invariant
            img.wf(),
            font.wf(),
            img.same_size(old(img)),
            width == img.width,
            height == img.tall(),
            (match m {
                Mark::Glyph { x, y, ch, fg, bg, scale } => x == x0 && y == y0 && w == 8 * scale && h == 16
                    * scale,
                Mark::Rect { x, y, w: mw, h: mh, color } => x == x0 && y == y0 && w == mw && h == mh,
            }),
            x_end == (if x0 + w < width {
                x0 + w
            } else {
                width as int
            }),
            y_end == (if y0 + h < height {
                y0 + h
            } else {
                height as int
            }),
            y0 <= py,
            forall|i: int, j: int|
                0 <= i < width && 0 <= j < height ==> #[trigger] img.at(i, j) == (if j < py {
                    match mark_at(font, m, i, j) {
                        Some(c) => c,
                        None => old(img).at(i, j),
                    }
                } else {
                    old(img).at(i, j)
                }),
        decreases y_end - py,
    {
        let mut px: u32 = x0;
        while px < x_end
            invariant
                img.wf(),
                font.wf(),
                img.same_size(old(img)),
                width == img.width,
                height == img.tall(),
                (match m {
                    Mark::Glyph { x, y, ch, fg, bg, scale } => x == x0 && y == y0 && w == 8 * scale && h
                        == 16 * scale,
                    Mark::Rect { x, y, w: mw, h: mh, color } => x == x0 && y == y0 && w == mw && h == mh,
                }),
                x_end == (if x0 + w < width {
                    x0 + w
                } else {
                    width as int
                }),
                y0 <= py < y0 + h,
                py < height,
                x0 <= px,
                forall|i: int, j: int|
                    0 <= i < width && 0 <= j < height ==> #[trigger] img.at(i, j) == (if j < py || (j == py
                        && i < px) {
                        match mark_at(font, m, i, j) {
                            Some(c) => c,
                            None => old(img).at(i, j),
                        }
                    } else {
                        old(img).at(i, j)
                    }),
            decreases x_end - px,
        {
            match m {
                Mark::Glyph { x, y, ch, fg, bg, scale } => {
                    let gx: u32 = (px - x) / scale;
                    let gy: u32 = (py - y) / scale;
                    proof {
                        assert(gx < 8) by (nonlinear_arith)
                            requires
                                gx == (px - x) / scale as int,
                                0 <= px - x < 8 * scale,
                        ;
                        assert(gy < 16) by (nonlinear_arith)
                            requires
                                gy == (py - y) / scale as int,
                                0 <= py - y < 16 * scale,
                        ;
                    }
                    if font.glyph_pixel(ch, gx, gy) {
                        img.put_pixel(px, py, fg);
                    } else {
                        match bg {
                            Some(c) => img.put_pixel(px, py, c),
                            None => (),
                        }
                    }
                },
                Mark::Rect { x: _, y: _, w: _, h: _, color } => img.put_pixel(px, py, color),
            }
            px += 1;
        }
        py += 1;
    }
}

/// Draws marks, one over the other.
pub fn paint(img: &mut Canvas, font: &Font, marks: &Vec<Mark>)
    requires
        old(img).wf(),
        font.wf(),
    ensures
        drawn(font, *old(img), *final(img), marks@),
{
    let mut k: usize = 0;
    while k < marks.len()
        invariant
            font.wf(),
            k <= marks@.len(),
            drawn(font, *old(img), *img, marks@.take(k as int)),
        decreases marks@.len() - k,
    {
        draw(img, font, marks[k]);
        proof {
            let t = marks@.take(k as int + 1);
            assert(t.drop_last() =~= marks@.take(k as int));
            assert(t.last() == marks@[k as int]);
        }
        k += 1;
    }
    proof {
        assert(marks@.take(k as int) =~= marks@);
    }
}

} // verus!
