//! Where everything stands in the banner.

use vstd::prelude::*;
use crate::banner::canvas::{Color, Font, COLS, ROWS};
use crate::banner::bars;
use crate::banner::bars::draw_mini_bars;
use crate::banner::lines;
use crate::banner::lines::{
    fact_label, fact_value, host_line, make_box_bot, make_box_mid, make_box_top, make_divider_bytes,
    make_double_divider, make_ornament_line, node_label, push_text, status_line, tagline, to_upper, BOX_DB,
    BOX_HZ,
};
use crate::banner::marks;
use crate::banner::marks::Mark;
use crate::banner::palette::Palette;
use crate::banner::title;
use crate::banner::title::{draw_big_title, TitleInk};

verus! {

// ── Text on the grid ────────────────────────────────────────────────────────

/// Whether every place of a row of text can be counted.
pub open spec fn row_fits(row: int, scale: int) -> bool {
    640 * scale <= u32::MAX && (row + 1) * (16 * scale) <= u32::MAX
}

/// A glyph in the grid of 80 columns.
pub open spec fn glyph_of(col: int, row: int, ch: u8, fg: Color, bg: Color, scale: int) -> Mark {
    Mark::Glyph {
        x: (col * (8 * scale)) as u32,
        y: (row * (16 * scale)) as u32,
        ch,
        fg,
        bg: Some(bg),
        scale: scale as u32,
    }
}

/// How many of `len` glyphs from a column on are inside the grid.
pub open spec fn visible(col: int, len: int) -> nat {
    if col >= COLS {
        0
    } else if len < COLS - col {
        len as nat
    } else {
        (COLS - col) as nat
    }
}

/// Bytes in a row of the grid, as far as they are inside it.
pub open spec fn bytes_of(col: int, row: int, data: Seq<u8>, fg: Color, bg: Color, scale: int) -> Seq<Mark> {
    Seq::new(visible(col, data.len() as int), |i: int| glyph_of(col + i, row, data[i], fg, bg, scale))
}

/// A text in a row of the grid, byte by byte.
pub open spec fn text_of(col: int, row: int, s: Seq<char>, fg: Color, bg: Color, scale: int) -> Seq<Mark> {
    bytes_of(col, row, vstd::utf8::encode_utf8(s), fg, bg, scale)
}

/// A glyph in the grid.
fn draw_char(col: u32, row: u32, ch: u8, fg: Color, bg: Color, scale: u32) -> (r: Mark)
    requires
        col < COLS,
        row_fits(row as int, scale as int),
    ensures
        r == glyph_of(col as int, row as int, ch, fg, bg, scale as int),
{
    proof {
        let (c, w, h, r) = (col as int, 8 * scale, 16 * scale, row as int);
        assert(0 <= c * w <= 80 * w) by (nonlinear_arith)
            requires
                0 <= c < 80,
                0 <= w,
        ;
        assert(0 <= r * h <= (r + 1) * h) by (nonlinear_arith)
            requires
                0 <= r,
                0 <= h,
        ;
    }
    Mark::Glyph { x: col * (8 * scale), y: row * (16 * scale), ch, fg, bg: Some(bg), scale }
}

/// Appends bytes in a row of the grid; what is beyond its edge is left out.
pub fn draw_bytes(out: &mut Vec<Mark>, col: u32, row: u32, data: &Vec<u8>, fg: Color, bg: Color, scale: u32)
    requires
        row_fits(row as int, scale as int),
    ensures
        final(out)@ == old(out)@ + bytes_of(col as int, row as int, data@, fg, bg, scale as int),
{
    let ghost whole = bytes_of(col as int, row as int, data@, fg, bg, scale as int);
    let ghost before = out@;
    let mut i: usize = 0;
    proof {
        assert(out@ =~= before + whole.take(0));
    }
    while i < data.len() && i < 80 && col < COLS - i as u32
        invariant
            row_fits(row as int, scale as int),
            whole == bytes_of(col as int, row as int, data@, fg, bg, scale as int),
            i <= whole.len(),
            out@ == before + whole.take(i as int),
        decreases data@.len() - i,
    {
        out.push(draw_char(col + i as u32, row, data[i], fg, bg, scale));
        proof {
            assert(out@ =~= before + whole.take(i as int + 1));
        }
        i += 1;
    }
    proof {
        assert(i == whole.len());
        assert(whole.take(i as int) =~= whole);
    }
}

/// Appends a text in a row of the grid; what is beyond its edge is left out.
pub fn draw_text(out: &mut Vec<Mark>, col: u32, row: u32, s: &str, fg: Color, bg: Color, scale: u32)
    requires
        row_fits(row as int, scale as int),
    ensures
        final(out)@ == old(out)@ + text_of(col as int, row as int, s@, fg, bg, scale as int),
{
    let mut data: Vec<u8> = Vec::new();
    push_text(&mut data, s);
    proof {
        assert(data@ =~= vstd::utf8::encode_utf8(s@));
    }
    draw_bytes(out, col, row, &data, fg, bg, scale);
}

/// A third of a colour.
pub open spec fn dim_of(c: Color) -> Color {
    Color { r: c.r / 3, g: c.g / 3, b: c.b / 3 }
}

/// A text with its shadow in the row below, glyph by glyph.
pub open spec fn block_text_of(col: int, row: int, data: Seq<u8>, fg: Color, bg: Color, scale: int) -> Seq<Mark> {
    Seq::new(
        2 * visible(col, data.len() as int),
        |k: int|
            if k % 2 == 0 {
                glyph_of(col + k / 2, row, data[k / 2], fg, bg, scale)
            } else {
                glyph_of(col + k / 2, row + 1, data[k / 2], dim_of(fg), bg, scale)
            },
    )
}

/// Appends a text with its shadow in the row below.
pub fn draw_block_text(out: &mut Vec<Mark>, col: u32, row: u32, s: &str, fg: Color, bg: Color, scale: u32)
    requires
        row < u32::MAX,
        row_fits(row + 1, scale as int),
    ensures
        final(out)@ == old(out)@ + block_text_of(
            col as int,
            row as int,
            vstd::utf8::encode_utf8(s@),
            fg,
            bg,
            scale as int,
        ),
{
    let mut data: Vec<u8> = Vec::new();
    push_text(&mut data, s);
    let dim: Color = Color { r: fg.r / 3, g: fg.g / 3, b: fg.b / 3 };
    let ghost whole = block_text_of(col as int, row as int, data@, fg, bg, scale as int);
    let ghost before = out@;
    let mut i: usize = 0;
    proof {
        assert(data@ =~= vstd::utf8::encode_utf8(s@));
        assert(out@ =~= before + whole.take(0));
        lemma_row_above(row as int, scale as int);
    }
    while i < data.len() && i < 80 && col < COLS - i as u32
        invariant
            row < u32::MAX,
            row_fits(row as int, scale as int),
            row_fits(row + 1, scale as int),
            dim == dim_of(fg),
            whole == block_text_of(col as int, row as int, data@, fg, bg, scale as int),
            2 * i <= whole.len(),
            out@ == before + whole.take(2 * i),
        decreases data@.len() - i,
    {
        out.push(draw_char(col + i as u32, row, data[i], fg, bg, scale));
        out.push(draw_char(col + i as u32, row + 1, data[i], dim, bg, scale));
        proof {
            assert(out@ =~= before + whole.take(2 * i + 2));
        }
        i += 1;
    }
    proof {
        assert(2 * i == whole.len());
        assert(whole.take(2 * i) =~= whole);
    }
}

proof fn lemma_row_above(row: int, scale: int)
    requires
        row_fits(row + 1, scale),
        scale >= 0,
    ensures
        row_fits(row, scale),
{
    assert((row + 1) * (16 * scale) <= (row + 2) * (16 * scale)) by (nonlinear_arith)
        requires
            scale >= 0,
    ;
}

/// The shades of the gradient, from the lightest or, backwards, from the fullest.
pub open spec fn shade_of(reverse: bool, i: int) -> u8 {
    let k = if reverse {
        3 - i
    } else {
        i
    };
    if k == 0 {
        0xB0
    } else if k == 1 {
        0xB1
    } else if k == 2 {
        0xB2
    } else {
        0xDB
    }
}

/// Black.
pub open spec fn black_of() -> Color {
    Color { r: 0, g: 0, b: 0 }
}

/// A row of shades in the four colours of the gradient.
pub open spec fn gradient_bar_of(row: int, pal: &Palette, reverse: bool, scale: int) -> Seq<Mark> {
    Seq::new(
        COLS as nat,
        |col: int|
            glyph_of(
                col,
                row,
                shade_of(reverse, col % 4),
                pal.gradient_of(col * 4 / 80),
                black_of(),
                scale,
            ),
    )
}

/// Appends a row of shades in the colours of the gradient.
pub fn draw_gradient_bar(out: &mut Vec<Mark>, row: u32, pal: &Palette, reverse: bool, scale: u32)
    requires
        row_fits(row as int, scale as int),
    ensures
        final(out)@ == old(out)@ + gradient_bar_of(row as int, pal, reverse, scale as int),
{
    let ghost whole = gradient_bar_of(row as int, pal, reverse, scale as int);
    let ghost before = out@;
    let black: Color = Color { r: 0, g: 0, b: 0 };
    let mut col: u32 = 0;
    proof {
        assert(out@ =~= before + whole.take(0));
    }
    while col < COLS
        invariant
            row_fits(row as int, scale as int),
            black == black_of(),
            whole == gradient_bar_of(row as int, pal, reverse, scale as int),
            col <= COLS,
            out@ == before + whole.take(col as int),
        decreases COLS - col,
    {
        let i: u32 = col % 4;
        let k: u32 = if reverse {
            3 - i
        } else {
            i
        };
        let ch: u8 = if k == 0 {
            0xB0
        } else if k == 1 {
            0xB1
        } else if k == 2 {
            0xB2
        } else {
            0xDB
        };
        out.push(draw_char(col, row, ch, pal.gradient(col * 4 / 80), black, scale));
        proof {
            assert(out@ =~= before + whole.take(col as int + 1));
        }
        col += 1;
    }
    proof {
        assert(whole.take(col as int) =~= whole);
    }
}

// ── Text at any place ───────────────────────────────────────────────────────

/// A text at a place counted in pixels.
pub open spec fn text_px_of(x: int, y: int, data: Seq<u8>, fg: Color, bg: Option<Color>, scale: int) -> Seq<Mark> {
    Seq::new(
        data.len(),
        |i: int|
            Mark::Glyph {
                x: (x + i * (8 * scale)) as u32,
                y: y as u32,
                ch: data[i],
                fg,
                bg,
                scale: scale as u32,
            },
    )
}

/// Appends a text at a place counted in pixels; without a background only the pixels
/// of the glyphs are drawn.
pub fn draw_text_px(out: &mut Vec<Mark>, x: u32, y: u32, s: &str, fg: Color, bg: Option<Color>, scale: u32)
    requires
        x + vstd::utf8::encode_utf8(s@).len() * (8 * scale) <= u32::MAX,
        8 * scale <= u32::MAX,
        vstd::utf8::encode_utf8(s@).len() <= u32::MAX,
    ensures
        final(out)@ == old(out)@ + text_px_of(
            x as int,
            y as int,
            vstd::utf8::encode_utf8(s@),
            fg,
            bg,
            scale as int,
        ),
{
    let mut data: Vec<u8> = Vec::new();
    push_text(&mut data, s);
    let ghost whole = text_px_of(x as int, y as int, data@, fg, bg, scale as int);
    let ghost before = out@;
    let mut i: usize = 0;
    proof {
        assert(data@ =~= vstd::utf8::encode_utf8(s@));
        assert(out@ =~= before + whole.take(0));
    }
    while i < data.len()
        invariant
            x + data@.len() * (8 * scale) <= u32::MAX,
            8 * scale <= u32::MAX,
            data@.len() <= u32::MAX,
            whole == text_px_of(x as int, y as int, data@, fg, bg, scale as int),
            i <= data@.len(),
            out@ == before + whole.take(i as int),
        decreases data@.len() - i,
    {
        proof {
            let (k, n, w) = (i as int, data@.len() as int, 8 * scale);
            assert(0 <= k * w <= n * w) by (nonlinear_arith)
                requires
                    0 <= k <= n,
                    0 <= w,
            ;
        }
        let cx: u32 = x + i as u32 * (8 * scale);
        out.push(Mark::Glyph { x: cx, y, ch: data[i], fg, bg, scale });
        proof {
            assert(out@ =~= before + whole.take(i as int + 1));
        }
        i += 1;
    }
    proof {
        assert(whole.take(i as int) =~= whole);
    }
}

// ── Facts ───────────────────────────────────────────────────────────────────

/// What the banner tells of the machine.
#[derive(Debug)]
pub struct Facts {
    pub os: String,
    pub arch: String,
    pub hostname: String,
    pub date: String,
    /// The load as a text.
    pub load: String,
    /// The memory in use as a text.
    pub memory: String,
    pub uptime_secs: u64,
    pub proc_count: u64,
    /// Empty where there is none.
    pub ip_addr: String,
}

/// A line of facts: a label, and a value in brackets behind it.
pub open spec fn fact_of(row: int, label: Seq<char>, value: Seq<char>, pal: &Palette, scale: int) -> Seq<Mark> {
    let line = lines::fact_label_of(label);
    bytes_of(2, row, line, pal.label_fg, pal.bg, scale) + text_of(
        2 + line.len() as int,
        row,
        "[ "@ + value + " ]"@,
        pal.value_fg,
        pal.bg,
        scale,
    )
}

/// The six lines of facts.
pub open spec fn facts_of(start: int, f: &Facts, pal: &Palette, scale: int) -> Seq<Mark> {
    fact_of(start, "0P3R4T1NG"@, lines::upper_text(f.os@), pal, scale) + fact_of(
        start + 1,
        "4RCH1T3CT"@,
        lines::upper_text(f.arch@),
        pal,
        scale,
    ) + fact_of(start + 2, "H0STN4M3 "@, lines::upper_text(f.hostname@), pal, scale) + fact_of(
        start + 3,
        "D4T3     "@,
        f.date@,
        pal,
        scale,
    ) + fact_of(start + 4, "L04D     "@, f.load@, pal, scale) + fact_of(
        start + 5,
        "M3M0RY   "@,
        f.memory@,
        pal,
        scale,
    )
}

/// Appends a line of facts.
fn draw_fact(out: &mut Vec<Mark>, row: u32, label: &str, value: &str, pal: &Palette, scale: u32)
    requires
        row_fits(row as int, scale as int),
    ensures
        final(out)@ == old(out)@ + fact_of(row as int, label@, value@, pal, scale as int),
{
    let ghost before = out@;
    let line: Vec<u8> = fact_label(label);
    draw_bytes(out, 2, row, &line, pal.label_fg, pal.bg, scale);
    let len: usize = line.len();
    let col: u32 = if len < 78 {
        2 + len as u32
    } else {
        COLS
    };
    let v: String = fact_value(value);
    draw_text(out, col, row, v.as_str(), pal.value_fg, pal.bg, scale);
    proof {
        let bytes = vstd::utf8::encode_utf8(v@);
        assert(bytes_of(col as int, row as int, bytes, pal.value_fg, pal.bg, scale as int) =~= bytes_of(
            2 + len,
            row as int,
            bytes,
            pal.value_fg,
            pal.bg,
            scale as int,
        ));
        assert(out@ =~= before + fact_of(row as int, label@, value@, pal, scale as int));
    }
}

proof fn lemma_rows_above(row: int, below: int, scale: int)
    requires
        row <= below,
        row_fits(below, scale),
        scale >= 0,
    ensures
        row_fits(row, scale),
{
    assert((row + 1) * (16 * scale) <= (below + 1) * (16 * scale)) by (nonlinear_arith)
        requires
            row <= below,
            scale >= 0,
    ;
}

/// Appends the six lines of facts.
pub fn draw_system_info(out: &mut Vec<Mark>, start_row: u32, info: &Facts, pal: &Palette, scale: u32)
    requires
        start_row <= u32::MAX - 5,
        row_fits(start_row + 5, scale as int),
    ensures
        final(out)@ == old(out)@ + facts_of(start_row as int, info, pal, scale as int),
{
    let ghost before = out@;
    proof {
        lemma_rows_above(start_row as int, start_row + 5, scale as int);
        lemma_rows_above(start_row + 1, start_row + 5, scale as int);
        lemma_rows_above(start_row + 2, start_row + 5, scale as int);
        lemma_rows_above(start_row + 3, start_row + 5, scale as int);
        lemma_rows_above(start_row + 4, start_row + 5, scale as int);
    }
    draw_fact(out, start_row, "0P3R4T1NG", to_upper(info.os.as_str()).as_str(), pal, scale);
    draw_fact(out, start_row + 1, "4RCH1T3CT", to_upper(info.arch.as_str()).as_str(), pal, scale);
    draw_fact(out, start_row + 2, "H0STN4M3 ", to_upper(info.hostname.as_str()).as_str(), pal, scale);
    draw_fact(out, start_row + 3, "D4T3     ", info.date.as_str(), pal, scale);
    draw_fact(out, start_row + 4, "L04D     ", info.load.as_str(), pal, scale);
    draw_fact(out, start_row + 5, "M3M0RY   ", info.memory.as_str(), pal, scale);
    proof {
        assert(out@ =~= before + facts_of(start_row as int, info, pal, scale as int));
    }
}

// ── The slogan's box ────────────────────────────────────────────────────────

/// The width that the widest line of the box needs, as far as a machine word goes.
pub open spec fn box_width(top: Seq<char>, mid: Seq<char>, bot: Seq<char>) -> nat {
    let a = vstd::utf8::encode_utf8(top).len() + 10;
    let b = vstd::utf8::encode_utf8(mid).len() + 9;
    let c = vstd::utf8::encode_utf8(bot).len() + 10;
    let ab = if a < b {
        b
    } else {
        a
    };
    let abc = if ab < c {
        c
    } else {
        ab
    };
    if abc > usize::MAX {
        usize::MAX as nat
    } else {
        abc
    }
}

/// A sum, as far as a machine word goes.
fn capped_sum(a: usize, b: usize) -> (r: usize)
    ensures
        r == (if a + b > usize::MAX {
            usize::MAX as int
        } else {
            a + b
        }),
{
    if a > usize::MAX - b {
        usize::MAX
    } else {
        a + b
    }
}

/// The three lines of the slogan's box.
pub open spec fn tagline_box_of(start: int, day: nat, hostname: Seq<char>, pal: &Palette, scale: int) -> Seq<Mark> {
    let top = "Terminal Underground Division"@;
    let mid = lines::tagline_of(day);
    let bot = "NODE: "@ + lines::upper_text(hostname);
    let w = box_width(top, mid, bot);
    bytes_of(0, start, lines::box_top_of(top, w), pal.border_fg, pal.bg, scale) + bytes_of(
        0,
        start + 1,
        lines::box_mid_of(mid, w),
        pal.label_fg,
        pal.bg,
        scale,
    ) + bytes_of(0, start + 2, lines::box_bot_of(bot, w), pal.border_fg, pal.bg, scale)
}

/// Appends the slogan's box.
pub fn draw_tagline_box(out: &mut Vec<Mark>, start_row: u32, day: u32, hostname: &str, pal: &Palette, scale: u32)
    requires
        start_row <= u32::MAX - 2,
        row_fits(start_row + 2, scale as int),
    ensures
        final(out)@ == old(out)@ + tagline_box_of(
            start_row as int,
            day as nat,
            hostname@,
            pal,
            scale as int,
        ),
{
    let ghost before = out@;
    let top: &'static str = "Terminal Underground Division";
    let mid: &'static str = tagline(day);
    let bot: String = node_label(hostname);
    let a: usize = capped_sum(top.as_bytes().len(), 10);
    let b: usize = capped_sum(mid.as_bytes().len(), 9);
    let c: usize = capped_sum(bot.as_str().as_bytes().len(), 10);
    let ab: usize = if a < b {
        b
    } else {
        a
    };
    let w: usize = if ab < c {
        c
    } else {
        ab
    };
    proof {
        lemma_rows_above(start_row as int, start_row + 2, scale as int);
        lemma_rows_above(start_row + 1, start_row + 2, scale as int);
    }
    draw_bytes(out, 0, start_row, &make_box_top(top, w), pal.border_fg, pal.bg, scale);
    draw_bytes(out, 0, start_row + 1, &make_box_mid(mid, w), pal.label_fg, pal.bg, scale);
    draw_bytes(out, 0, start_row + 2, &make_box_bot(bot.as_str(), w), pal.border_fg, pal.bg, scale);
    proof {
        assert(out@ =~= before + tagline_box_of(start_row as int, day as nat, hostname@, pal, scale as int));
    }
}

// ── The dashboard ───────────────────────────────────────────────────────────

/// How the load of the last one, five and fifteen minutes is shown.
#[derive(Debug)]
pub struct LoadBars {
    pub inset: Color,
    pub border: Color,
    /// The shades of each bar's filled rows, from its top.
    pub fills: Vec<Vec<Color>>,
    /// The three numbers as a text.
    pub numbers: String,
}

impl LoadBars {
    /// There are three bars, none fuller than its frame, and the numbers fit in the
    /// count of pixels.
    pub open spec fn wf(&self, scale: int) -> bool {
        &&& self.fills@.len() == 3
        &&& forall|i: int| 0 <= i < 3 ==> (#[trigger] self.fills@[i])@.len() <= 12 * scale - 2
        &&& vstd::utf8::encode_utf8(self.numbers@).len() <= u32::MAX
        &&& (88 * scale + 6) + vstd::utf8::encode_utf8(self.numbers@).len() * (8 * scale) <= u32::MAX
    }
}

/// The rows of the dashboard below the gauges.
pub open spec fn dashboard_of(start: int, f: &Facts, load: &LoadBars, pal: &Palette, scale: int) -> Seq<Mark> {
    let y = (start + 4) * (16 * scale) + 2 * scale;
    text_of(2, start + 4, "LOD"@, pal.label_fg, pal.bg, scale) + bars::mini_bars_of(
        56 * scale,
        y,
        8 * scale,
        12 * scale,
        load.inset,
        load.border,
        load.fills@,
        3,
    ) + text_px_of(
        56 * scale + 3 * (8 * scale + 2) + 8 * scale,
        y,
        vstd::utf8::encode_utf8(load.numbers@),
        pal.value_fg,
        Some(pal.bg),
        scale,
    ) + text_of(
        2,
        start + 5,
        lines::status_line_of(f.uptime_secs as nat, f.proc_count as nat, f.ip_addr@),
        pal.value_fg,
        pal.bg,
        scale,
    ) + bytes_of(
        0,
        start + 6,
        lines::host_line_of(f.hostname@, f.os@, f.arch@),
        pal.border_fg,
        pal.bg,
        scale,
    )
}

/// Appends the rows of the dashboard below the gauges.
pub fn draw_dashboard(
    out: &mut Vec<Mark>,
    start_row: u32,
    info: &Facts,
    load: &LoadBars,
    pal: &Palette,
    scale: u32,
)
    requires
        scale >= 1,
        start_row <= u32::MAX - 6,
        row_fits(start_row + 6, scale as int),
        load.wf(scale as int),
    ensures
        final(out)@ == old(out)@ + dashboard_of(start_row as int, info, load, pal, scale as int),
{
    let ghost before = out@;
    proof {
        lemma_rows_above(start_row + 4, start_row + 6, scale as int);
        lemma_rows_above(start_row + 5, start_row + 6, scale as int);
        let (r, s) = (start_row as int, scale as int);
        assert(0 <= (r + 4) * (16 * s) && (r + 4) * (16 * s) + 16 * s <= (r + 7) * (16 * s))
            by (nonlinear_arith)
            requires
                r >= 0,
                s >= 1,
        ;
    }
    let row: u32 = start_row + 4;
    let y: u32 = row * (16 * scale) + 2 * scale;
    draw_text(out, 2, row, "LOD", pal.label_fg, pal.bg, scale);
    draw_mini_bars(
        out,
        56 * scale,
        y,
        8 * scale,
        12 * scale,
        load.inset,
        load.border,
        &load.fills,
    );
    let text_x: u32 = 56 * scale + 3 * (8 * scale + 2) + 8 * scale;
    draw_text_px(out, text_x, y, load.numbers.as_str(), pal.value_fg, Some(pal.bg), scale);
    let line: String = status_line(info.uptime_secs, info.proc_count, info.ip_addr.as_str());
    draw_text(out, 2, start_row + 5, line.as_str(), pal.value_fg, pal.bg, scale);
    let host: Vec<u8> = host_line(info.hostname.as_str(), info.os.as_str(), info.arch.as_str());
    draw_bytes(out, 0, start_row + 6, &host, pal.border_fg, pal.bg, scale);
    proof {
        assert(out@ =~= before + dashboard_of(start_row as int, info, load, pal, scale as int));
    }
}

// ── The two banners ─────────────────────────────────────────────────────────

/// The banner in text alone.
pub open spec fn classic_of(f: &Facts, day: nat, pal: &Palette, scale: int) -> Seq<Mark> {
    gradient_bar_of(1, pal, false, scale) + block_text_of(
        36,
        3,
        vstd::utf8::encode_utf8("TERMINAL"@),
        pal.header_fg,
        pal.bg,
        scale,
    ) + block_text_of(
        34,
        5,
        vstd::utf8::encode_utf8("UNDERGROUND"@),
        pal.header_fg,
        pal.bg,
        scale,
    ) + bytes_of(0, 8, lines::divider_of(BOX_HZ, 80), pal.border_fg, pal.bg, scale) + facts_of(10, f, pal, scale)
        + tagline_box_of(17, day, f.hostname@, pal, scale) + gradient_bar_of(23, pal, true, scale)
}

/// The banner in text alone.
pub fn draw_classic(info: &Facts, day: u32, pal: &Palette, scale: u32) -> (r: Vec<Mark>)
    requires
        640 * scale <= u32::MAX,
    ensures
        r@ == classic_of(info, day as nat, pal, scale as int),
{
    let mut out: Vec<Mark> = Vec::new();
    draw_gradient_bar(&mut out, 1, pal, false, scale);
    draw_block_text(&mut out, 36, 3, "TERMINAL", pal.header_fg, pal.bg, scale);
    draw_block_text(&mut out, 34, 5, "UNDERGROUND", pal.header_fg, pal.bg, scale);
    draw_bytes(&mut out, 0, 8, &make_divider_bytes(80), pal.border_fg, pal.bg, scale);
    draw_system_info(&mut out, 10, info, pal, scale);
    draw_tagline_box(&mut out, 17, day, info.hostname.as_str(), pal, scale);
    draw_gradient_bar(&mut out, 23, pal, true, scale);
    proof {
        assert(out@ =~= classic_of(info, day as nat, pal, scale as int));
    }
    out
}

/// The row in which the dashboard starts.
pub open spec fn dash_row_of(titled: bool) -> int {
    if titled {
        12
    } else {
        4
    }
}

/// The row in which the dashboard starts.
pub fn dash_row(titled: bool) -> (r: u32)
    ensures
        r == dash_row_of(titled),
{
    if titled {
        12
    } else {
        4
    }
}

/// What stands above the dashboard: the gradient, the ornament, the title where there
/// is one, and the divider.
pub open spec fn block3d_top_of(title: Option<Seq<u8>>, ink: &TitleInk, pal: &Palette, scale: int) -> Seq<Mark> {
    let head = gradient_bar_of(1, pal, false, scale) + bytes_of(
        0,
        2,
        lines::ornament_of(80),
        pal.border_fg,
        pal.bg,
        scale,
    );
    match title {
        Some(t) => head + title::title_of(t, 3, scale, ink) + bytes_of(
            0,
            11,
            lines::divider_of(BOX_DB, 80),
            pal.border_fg,
            pal.bg,
            scale,
        ),
        None => head + bytes_of(0, 3, lines::divider_of(BOX_DB, 80), pal.border_fg, pal.bg, scale),
    }
}

/// The bytes of an optional title.
pub open spec fn title_bytes(t: Option<&str>) -> Option<Seq<u8>> {
    match t {
        Some(s) => Some(vstd::utf8::encode_utf8(s@)),
        None => None,
    }
}

/// What stands above the dashboard.
pub fn draw_block3d_top(title: Option<&str>, ink: &TitleInk, pal: &Palette, scale: u32) -> (r: Vec<Mark>)
    requires
        640 * scale <= u32::MAX,
        title is Some ==> ink.wf(scale) && title::title_fits(
            vstd::utf8::encode_utf8((title->0)@),
            3,
            scale as int,
        ),
    ensures
        r@ == block3d_top_of(title_bytes(title), ink, pal, scale as int),
{
    let mut out: Vec<Mark> = Vec::new();
    draw_gradient_bar(&mut out, 1, pal, false, scale);
    draw_bytes(&mut out, 0, 2, &make_ornament_line(80), pal.border_fg, pal.bg, scale);
    match title {
        Some(t) => {
            let mut data: Vec<u8> = Vec::new();
            push_text(&mut data, t);
            proof {
                assert(data@ =~= vstd::utf8::encode_utf8(t@));
            }
            draw_big_title(&mut out, 3, &data, ink, scale);
            draw_bytes(&mut out, 0, 11, &make_double_divider(80), pal.border_fg, pal.bg, scale);
        },
        None => {
            draw_bytes(&mut out, 0, 3, &make_double_divider(80), pal.border_fg, pal.bg, scale);
        },
    }
    proof {
        assert(out@ =~= block3d_top_of(title_bytes(title), ink, pal, scale as int));
    }
    out
}

/// What stands below the gauges: the rest of the dashboard, the slogan and the
/// gradient.
pub open spec fn block3d_bottom_of(
    titled: bool,
    f: &Facts,
    load: &LoadBars,
    day: nat,
    pal: &Palette,
    scale: int,
) -> Seq<Mark> {
    let d = dash_row_of(titled);
    dashboard_of(d, f, load, pal, scale) + tagline_box_of(d + 7, day, f.hostname@, pal, scale)
        + gradient_bar_of(d + 11, pal, true, scale)
}

/// What stands below the gauges, and how many rows the banner takes in all.
pub fn draw_block3d_bottom(
    titled: bool,
    info: &Facts,
    load: &LoadBars,
    day: u32,
    pal: &Palette,
    scale: u32,
) -> (r: (Vec<Mark>, u32))
    requires
        scale >= 1,
        640 * scale <= u32::MAX,
        load.wf(scale as int),
    ensures
        r.0@ == block3d_bottom_of(titled, info, load, day as nat, pal, scale as int),
        r.1 == dash_row_of(titled) + 13,
        r.1 <= ROWS,
{
    let mut out: Vec<Mark> = Vec::new();
    let d: u32 = dash_row(titled);
    draw_dashboard(&mut out, d, info, load, pal, scale);
    draw_tagline_box(&mut out, d + 7, day, info.hostname.as_str(), pal, scale);
    draw_gradient_bar(&mut out, d + 11, pal, true, scale);
    proof {
        assert(out@ =~= block3d_bottom_of(titled, info, load, day as nat, pal, scale as int));
    }
    (out, d + 13)
}

// ── Laws ────────────────────────────────────────────────────────────────────

proof fn lemma_cell(c: int, d: int, k: int, dx: int)
    requires
        0 < k,
        0 <= dx < k,
    ensures
        d * k <= c * k + dx < d * k + k <==> c == d,
        c == d ==> c * k + dx - d * k == dx,
{
    assert(d * k <= c * k + dx < d * k + k <==> c == d) by (nonlinear_arith)
        requires
            0 < k,
            0 <= dx < k,
    ;
}

proof fn lemma_text_pixels(
    font: &Font,
    base: Color,
    col: int,
    row: int,
    data: Seq<u8>,
    fg: Color,
    bg: Color,
    scale: int,
    n: nat,
    c: int,
    r: int,
    dx: int,
    dy: int,
)
    requires
        0 <= col,
        0 <= row,
        scale >= 1,
        n <= visible(col, data.len() as int),
        row_fits(row, scale),
        0 <= c,
        0 <= r,
        0 <= dx < 8 * scale,
        0 <= dy < 16 * scale,
    ensures
        marks::painted(
            font,
            base,
            Seq::new(n, |i: int| glyph_of(col + i, row, data[i], fg, bg, scale)),
            c * (8 * scale) + dx,
            r * (16 * scale) + dy,
        ) == (if r == row && col <= c < col + n {
            if font.glyph(data[c - col], dx / scale, dy / scale) {
                fg
            } else {
                bg
            }
        } else {
            base
        }),
    decreases n,
{
    let ms = Seq::new(n, |i: int| glyph_of(col + i, row, data[i], fg, bg, scale));
    if n > 0 {
        let m = (n - 1) as nat;
        lemma_text_pixels(font, base, col, row, data, fg, bg, scale, m, c, r, dx, dy);
        assert(ms.drop_last() =~= Seq::new(m, |i: int| glyph_of(col + i, row, data[i], fg, bg, scale)));
        let d = col + m;
        lemma_cell(c, d, 8 * scale, dx);
        lemma_cell(r, row, 16 * scale, dy);
        assert(0 <= d * (8 * scale) <= 640 * scale) by (nonlinear_arith)
            requires
                0 <= d <= 80,
                scale >= 1,
        ;
        assert(0 <= row * (16 * scale) <= (row + 1) * (16 * scale)) by (nonlinear_arith)
            requires
                0 <= row,
                scale >= 1,
        ;
        assert(scale <= u32::MAX);
    }
}

/// Text is what it looks like: each of its bytes fills the cell of its column with its
/// glyph, one cell after the other, as far as there are columns, and nothing else
/// changes.
pub proof fn law_text_pixels(
    font: &Font,
    base: Color,
    col: int,
    row: int,
    data: Seq<u8>,
    fg: Color,
    bg: Color,
    scale: int,
    c: int,
    r: int,
    dx: int,
    dy: int,
)
    requires
        0 <= col,
        0 <= row,
        scale >= 1,
        row_fits(row, scale),
        0 <= c,
        0 <= r,
        0 <= dx < 8 * scale,
        0 <= dy < 16 * scale,
    ensures
        marks::painted(
            font,
            base,
            bytes_of(col, row, data, fg, bg, scale),
            c * (8 * scale) + dx,
            r * (16 * scale) + dy,
        ) == (if r == row && col <= c < col + data.len() && c < 80 {
            if font.glyph(data[c - col], dx / scale, dy / scale) {
                fg
            } else {
                bg
            }
        } else {
            base
        }),
{
    lemma_text_pixels(
        font,
        base,
        col,
        row,
        data,
        fg,
        bg,
        scale,
        visible(col, data.len() as int),
        c,
        r,
        dx,
        dy,
    );
}

/// The gradient's shades get denser towards the right of each group of four, or towards
/// the left where it is reversed.
pub proof fn law_gradient_is_mirrored(i: int)
    requires
        0 <= i < 4,
    ensures
        shade_of(true, i) == shade_of(false, 3 - i),
        i < 3 ==> shade_of(false, i) < shade_of(false, i + 1),
        i < 3 ==> shade_of(true, i) > shade_of(true, i + 1),
{
}

} // verus!
