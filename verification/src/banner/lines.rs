//! The lines of the banner, as bytes of code page 437.

use vstd::prelude::*;
use crate::decimal;
use crate::decimal::{dec_u64, push_u64};
use crate::text;
use crate::text::joined;

verus! {

pub const BOX_HZ: u8 = 0xC4;

pub const BOX_TL: u8 = 0xC9;

pub const BOX_TR: u8 = 0xBB;

pub const BOX_BL: u8 = 0xC8;

pub const BOX_BR: u8 = 0xBC;

pub const BOX_VT: u8 = 0xBA;

pub const BOX_DB: u8 = 0xCD;

pub const BOX_RT: u8 = 0xB5;

pub const BOX_LT: u8 = 0xC6;

pub const BULLET: u8 = 0xF9;

pub const DIAMOND: u8 = 0x04;

/// One byte again and again.
pub open spec fn run_of(b: u8, n: nat) -> Seq<u8> {
    Seq::new(n, |i: int| b)
}

/// Appends one byte until there are `n`.
pub fn fill_to(out: &mut Vec<u8>, n: usize, b: u8)
    ensures
        final(out)@ == old(out)@ + run_of(
            b,
            if n > old(out)@.len() {
                (n - old(out)@.len()) as nat
            } else {
                0
            },
        ),
{
    let ghost start = out@.len();
    proof {
        assert(out@ =~= out@ + run_of(b, 0));
    }
    while out.len() < n
        invariant
            start == old(out)@.len(),
            start <= out@.len(),
            out@.len() <= n || out@.len() == start,
            out@ == old(out)@ + run_of(b, (out@.len() - start) as nat),
        decreases n - out@.len(),
    {
        let ghost prior = out@;
        out.push(b);
        proof {
            assert(out@ =~= old(out)@ + run_of(b, (prior.len() - start + 1) as nat));
        }
    }
}

/// Appends the bytes of a text.
pub fn push_text(out: &mut Vec<u8>, s: &str)
    ensures
        final(out)@ == old(out)@ + vstd::utf8::encode_utf8(s@),
{
    let b: &[u8] = s.as_bytes();
    let mut i: usize = 0;
    proof {
        assert(out@ =~= out@ + b@.take(0));
    }
    while i < b.len()
        invariant
            i <= b@.len(),
            out@ == old(out)@ + b@.take(i as int),
        decreases b@.len() - i,
    {
        let ghost prior = out@;
        out.push(b[i]);
        proof {
            assert(out@ =~= old(out)@ + b@.take(i as int + 1));
        }
        i += 1;
    }
    proof {
        assert(b@.take(i as int) =~= b@);
    }
}

/// A line with a diamond in its middle.
pub open spec fn divider_of(b: u8, width: nat) -> Seq<u8> {
    let half = (if width > 0 {
        ((width - 1) / 2) as nat
    } else {
        0
    });
    let all = run_of(b, half) + seq![DIAMOND] + run_of(b, width);
    all.take(width as int)
}

fn divider(b: u8, width: u32) -> (r: Vec<u8>)
    ensures
        r@ == divider_of(b, width as nat),
{
    let w: usize = width as usize;
    let half: usize = if w > 0 {
        (w - 1) / 2
    } else {
        0
    };
    let mut out: Vec<u8> = Vec::new();
    fill_to(&mut out, half, b);
    if w > 0 {
        out.push(DIAMOND);
        fill_to(&mut out, w, b);
    }
    proof {
        assert(out@ =~= divider_of(b, width as nat));
    }
    out
}

/// A single line with a diamond in its middle.
pub fn make_divider_bytes(width: u32) -> (r: Vec<u8>)
    ensures
        r@ == divider_of(BOX_HZ, width as nat),
{
    divider(BOX_HZ, width)
}

/// A double line with a diamond in its middle.
pub fn make_double_divider(width: u32) -> (r: Vec<u8>)
    ensures
        r@ == divider_of(BOX_DB, width as nat),
{
    divider(BOX_DB, width)
}

/// The ornament: five bytes.
pub open spec fn ornament_center() -> Seq<u8> {
    seq![BOX_RT, 32u8, DIAMOND, 32u8, BOX_LT]
}

/// A double line with the ornament in its middle.
pub open spec fn ornament_of(width: nat) -> Seq<u8> {
    let start = (if width > 5 {
        (width - 5) / 2
    } else {
        0
    });
    Seq::new(
        width,
        |i: int|
            if start <= i < start + 5 {
                ornament_center()[i - start]
            } else {
                BOX_DB
            },
    )
}

/// A double line with the ornament in its middle.
pub fn make_ornament_line(width: u32) -> (r: Vec<u8>)
    ensures
        r@ == ornament_of(width as nat),
{
    let w: usize = width as usize;
    let start: usize = if w > 5 {
        (w - 5) / 2
    } else {
        0
    };
    let mut out: Vec<u8> = Vec::new();
    let mut i: usize = 0;
    while i < w
        invariant
            w == width,
            start == (if w > 5 {
                (w - 5) / 2
            } else {
                0
            }),
            i <= w,
            out@ == ornament_of(width as nat).take(i as int),
        decreases w - i,
    {
        let b: u8 = if i < start || i - start >= 5 {
            BOX_DB
        } else if i - start == 0 {
            BOX_RT
        } else if i - start == 2 {
            DIAMOND
        } else if i - start == 4 {
            BOX_LT
        } else {
            32
        };
        out.push(b);
        proof {
            assert(out@ =~= ornament_of(width as nat).take(i as int + 1));
        }
        i += 1;
    }
    proof {
        assert(ornament_of(width as nat).take(i as int) =~= ornament_of(width as nat));
    }
    out
}

/// One line of a box: `head`, a text, `tail`, and filling up to the border, which
/// stands at the given width or behind the text where that is longer.
pub open spec fn box_line(head: Seq<u8>, s: Seq<char>, tail: Seq<u8>, fill: u8, edge: u8, width: nat) -> Seq<u8> {
    let inner = head + vstd::utf8::encode_utf8(s) + tail;
    inner + run_of(
        fill,
        if inner.len() + 1 < width {
            (width - 1 - inner.len()) as nat
        } else {
            0
        },
    ) + seq![edge]
}

/// The top of a box, with a label in it.
pub open spec fn box_top_of(label: Seq<char>, width: nat) -> Seq<u8> {
    box_line(seq![32u8, 32u8, BOX_TL, BOX_DB, BOX_DB, 32u8], label, seq![32u8], BOX_DB, BOX_TR, width)
}

/// A line inside a box.
pub open spec fn box_mid_of(content: Seq<char>, width: nat) -> Seq<u8> {
    box_line(
        seq![32u8, 32u8, BOX_VT, 32u8, 32u8, BULLET, 32u8],
        content,
        Seq::empty(),
        32u8,
        BOX_VT,
        width,
    )
}

/// The bottom of a box, with a label in it.
pub open spec fn box_bot_of(label: Seq<char>, width: nat) -> Seq<u8> {
    box_line(seq![32u8, 32u8, BOX_BL, BOX_DB, BOX_DB, 32u8], label, seq![32u8], BOX_DB, BOX_BR, width)
}

/// The top of a box, with a label in it.
pub fn make_box_top(label: &str, width: usize) -> (r: Vec<u8>)
    requires
        width > 0,
    ensures
        r@ == box_top_of(label@, width as nat),
{
    let mut out: Vec<u8> = vec![32, 32, BOX_TL, BOX_DB, BOX_DB, 32];
    push_text(&mut out, label);
    out.push(32);
    fill_to(&mut out, width - 1, BOX_DB);
    out.push(BOX_TR);
    proof {
        assert(out@ =~= box_top_of(label@, width as nat));
    }
    out
}

/// A line inside a box.
pub fn make_box_mid(content: &str, width: usize) -> (r: Vec<u8>)
    requires
        width > 0,
    ensures
        r@ == box_mid_of(content@, width as nat),
{
    let mut out: Vec<u8> = vec![32, 32, BOX_VT, 32, 32, BULLET, 32];
    push_text(&mut out, content);
    fill_to(&mut out, width - 1, 32);
    out.push(BOX_VT);
    proof {
        assert(out@ =~= box_mid_of(content@, width as nat));
    }
    out
}

/// The bottom of a box, with a label in it.
pub fn make_box_bot(label: &str, width: usize) -> (r: Vec<u8>)
    requires
        width > 0,
    ensures
        r@ == box_bot_of(label@, width as nat),
{
    let mut out: Vec<u8> = vec![32, 32, BOX_BL, BOX_DB, BOX_DB, 32];
    push_text(&mut out, label);
    out.push(32);
    fill_to(&mut out, width - 1, BOX_DB);
    out.push(BOX_BR);
    proof {
        assert(out@ =~= box_bot_of(label@, width as nat));
    }
    out
}

/// The three lines of a box are equally wide, where the box is at least as wide as
/// each of them needs.
pub proof fn law_boxes_are_rectangular(top: Seq<char>, mid: Seq<char>, bot: Seq<char>, width: nat)
    requires
        width >= 8 + text::byte_len(top),
        width >= 8 + text::byte_len(mid),
        width >= 8 + text::byte_len(bot),
    ensures
        box_top_of(top, width).len() == width,
        box_mid_of(mid, width).len() == width,
        box_bot_of(bot, width).len() == width,
{
}

// ── Texts ───────────────────────────────────────────────────────────────────

/// The slogans, one for each day in turn.
pub open spec fn tagline_of(day: nat) -> Seq<char> {
    let i = day % 8;
    if i == 0 {
        "proudly serving the scene since 1993"@
    } else if i == 1 {
        "where the elstrEEt meet"@
    } else if i == 2 {
        "another fine release from the underground"@
    } else if i == 3 {
        "cracked by the best, spread by the rest"@
    } else if i == 4 {
        "the future is now, old man"@
    } else if i == 5 {
        "10 nodes / USR Courier V.Everything"@
    } else if i == 6 {
        "greets to all groups worldwide"@
    } else {
        "the underground never sleeps"@
    }
}

/// The slogan of a day of the year.
pub fn tagline(day: u32) -> (r: &'static str)
    ensures
        r@ == tagline_of(day as nat),
{
    let i: u32 = day % 8;
    if i == 0 {
        "proudly serving the scene since 1993"
    } else if i == 1 {
        "where the elstrEEt meet"
    } else if i == 2 {
        "another fine release from the underground"
    } else if i == 3 {
        "cracked by the best, spread by the rest"
    } else if i == 4 {
        "the future is now, old man"
    } else if i == 5 {
        "10 nodes / USR Courier V.Everything"
    } else if i == 6 {
        "greets to all groups worldwide"
    } else {
        "the underground never sleeps"
    }
}

/// A time in days and hours, or in hours and minutes where it is less than a day.
pub open spec fn uptime_of(secs: nat) -> Seq<char> {
    if secs >= 86_400 {
        decimal::dec_digits(secs / 86_400) + "d "@ + decimal::dec_digits((secs % 86_400) / 3_600) + "h"@
    } else {
        decimal::dec_digits(secs / 3_600) + "h "@ + decimal::dec_digits((secs % 3_600) / 60) + "m"@
    }
}

/// A time in days and hours, or in hours and minutes where it is less than a day.
pub fn format_uptime(secs: u64) -> (r: String)
    ensures
        r@ == uptime_of(secs as nat),
{
    if secs >= 86_400 {
        let mut s: String = dec_u64(secs / 86_400);
        s.push_str("d ");
        push_u64(&mut s, (secs % 86_400) / 3_600);
        s.push_str("h");
        s
    } else {
        let mut s: String = dec_u64(secs / 3_600);
        s.push_str("h ");
        push_u64(&mut s, (secs % 3_600) / 60);
        s.push_str("m");
        s
    }
}

/// What `str::to_uppercase` makes of a text.
pub uninterp spec fn upper_text(s: Seq<char>) -> Seq<char>;

/// A letter of ASCII in upper case; any other character as it is.
pub open spec fn upper_ascii(c: char) -> char {
    if 'a' <= c && c <= 'z' {
        (c as int - 32) as char
    } else {
        c
    }
}

/// `str::to_uppercase`: the upper case of each character by Unicode's tables, which
/// are left to the standard library. The letters of ASCII have theirs in ASCII.
#[verifier::external_body]
pub(crate) fn to_upper(s: &str) -> (r: String)
    ensures
        r@ == upper_text(s@),
        vstd::utf8::is_ascii_chars(s@) ==> r@ == Seq::new(s@.len(), |i: int| upper_ascii(s@[i])),
{
    s.to_uppercase()
}

/// The line of the uptime, the processes and the address.
pub open spec fn status_line_of(uptime: nat, procs: nat, ip: Seq<char>) -> Seq<char> {
    "UPT "@ + uptime_of(uptime) + "  PRC "@ + decimal::dec_digits(procs) + "  IP "@ + (if ip.len() == 0 {
        "N/A"@
    } else {
        ip
    })
}

/// The line of the uptime, the processes and the address.
pub fn status_line(uptime: u64, procs: u64, ip: &str) -> (r: String)
    ensures
        r@ == status_line_of(uptime as nat, procs as nat, ip@),
{
    let mut s: String = joined("UPT ", format_uptime(uptime).as_str());
    s.push_str("  PRC ");
    push_u64(&mut s, procs);
    s.push_str("  IP ");
    if ip.is_empty() {
        s.push_str("N/A");
    } else {
        s.push_str(ip);
    }
    s
}

/// The line of the machine: its name, its system and its processor, up to the edge
/// of the picture.
pub open spec fn host_line_of(host: Seq<char>, os: Seq<char>, arch: Seq<char>) -> Seq<u8> {
    let s = seq!['\u{4}'] + " "@ + upper_text(host) + " / "@ + upper_text(os) + " / "@ + upper_text(arch);
    let inner = seq![32u8, 32u8, BOX_HZ, 32u8] + vstd::utf8::encode_utf8(s) + seq![32u8];
    inner + run_of(
        BOX_HZ,
        if inner.len() < 80 {
            (80 - inner.len()) as nat
        } else {
            0
        },
    )
}

/// The line of the machine.
pub fn host_line(host: &str, os: &str, arch: &str) -> (r: Vec<u8>)
    ensures
        r@ == host_line_of(host@, os@, arch@),
{
    let mut s: String = String::new();
    s.push('\u{4}');
    s.push_str(" ");
    s.push_str(to_upper(host).as_str());
    s.push_str(" / ");
    s.push_str(to_upper(os).as_str());
    s.push_str(" / ");
    s.push_str(to_upper(arch).as_str());
    proof {
        assert(s@ =~= seq!['\u{4}'] + " "@ + upper_text(host@) + " / "@ + upper_text(os@) + " / "@
            + upper_text(arch@));
    }
    let mut out: Vec<u8> = vec![32, 32, BOX_HZ, 32];
    push_text(&mut out, s.as_str());
    out.push(32);
    fill_to(&mut out, 80, BOX_HZ);
    proof {
        assert(out@ =~= host_line_of(host@, os@, arch@));
    }
    out
}

/// The label of a line of facts, with the bullet before it.
pub open spec fn fact_label_of(label: Seq<char>) -> Seq<u8> {
    seq![32u8, 32u8, BULLET, 32u8] + vstd::utf8::encode_utf8(label) + seq![32u8, 32u8]
}

/// The label of a line of facts.
pub fn fact_label(label: &str) -> (r: Vec<u8>)
    ensures
        r@ == fact_label_of(label@),
{
    let mut out: Vec<u8> = vec![32, 32, BULLET, 32];
    push_text(&mut out, label);
    out.push(32);
    out.push(32);
    proof {
        assert(out@ =~= fact_label_of(label@));
    }
    out
}

/// The value of a line of facts.
pub fn fact_value(value: &str) -> (r: String)
    ensures
        r@ == "[ "@ + value@ + " ]"@,
{
    let mut s: String = joined("[ ", value);
    s.push_str(" ]");
    s
}

/// The label at the bottom of the slogan's box.
pub fn node_label(host: &str) -> (r: String)
    ensures
        r@ == "NODE: "@ + upper_text(host@),
{
    joined("NODE: ", to_upper(host).as_str())
}

/// The two units of a time add up to it, but for less than the smaller one: days and
/// hours from a day on, and below that hours and minutes.
pub proof fn law_uptime_adds_up(secs: nat)
    ensures
        secs >= 86_400 ==> exists|d: nat, h: nat|
            #![trigger decimal::dec_digits(d), decimal::dec_digits(h)]
            d >= 1 && h < 24 && d * 86_400 + h * 3_600 <= secs < d * 86_400 + (h + 1) * 3_600 && uptime_of(secs)
                == decimal::dec_digits(d) + "d "@ + decimal::dec_digits(h) + "h"@,
        secs < 86_400 ==> exists|h: nat, m: nat|
            #![trigger decimal::dec_digits(h), decimal::dec_digits(m)]
            h < 24 && m < 60 && h * 3_600 + m * 60 <= secs < h * 3_600 + (m + 1) * 60 && uptime_of(secs)
                == decimal::dec_digits(h) + "h "@ + decimal::dec_digits(m) + "m"@,
{
    if secs >= 86_400 {
        let d = secs / 86_400;
        let h = (secs % 86_400) / 3_600;
        assert(uptime_of(secs) == decimal::dec_digits(d) + "d "@ + decimal::dec_digits(h) + "h"@);
    } else {
        let h = secs / 3_600;
        let m = (secs % 3_600) / 60;
        assert(uptime_of(secs) == decimal::dec_digits(h) + "h "@ + decimal::dec_digits(m) + "m"@);
    }
}

/// The slogan changes every day and comes back after eight.
pub proof fn law_slogans_take_turns(day: nat, other: nat)
    ensures
        tagline_of(day + 8) == tagline_of(day),
        tagline_of(day) == tagline_of(other) <==> day % 8 == other % 8,
{
    reveal_strlit("proudly serving the scene since 1993");
    reveal_strlit("where the elstrEEt meet");
    reveal_strlit("another fine release from the underground");
    reveal_strlit("cracked by the best, spread by the rest");
    reveal_strlit("the future is now, old man");
    reveal_strlit("10 nodes / USR Courier V.Everything");
    reveal_strlit("greets to all groups worldwide");
    reveal_strlit("the underground never sleeps");
    let a = tagline_of(day).len();
    let b = tagline_of(other).len();
    assert(a == b <==> day % 8 == other % 8);
}

/// The status line has the time since the start, the number of processes and the
/// address, in this order; without an address it says so.
pub proof fn law_status_line_order(uptime: nat, procs: nat, ip: Seq<char>)
    ensures
        ({
            let line = status_line_of(uptime, procs, ip);
            let u = uptime_of(uptime);
            let n = decimal::dec_digits(procs);
            let a = 4 + u.len() as int + 6;
            let b = a + n.len() as int + 5;
            &&& text::occurs_at(line, u, 4)
            &&& text::occurs_at(line, n, a)
            &&& ip.len() > 0 ==> line.skip(b) == ip
            &&& ip.len() == 0 ==> line.skip(b) == "N/A"@
        }),
{
    reveal_strlit("UPT ");
    reveal_strlit("  PRC ");
    reveal_strlit("  IP ");
    let line = status_line_of(uptime, procs, ip);
    let u = uptime_of(uptime);
    let n = decimal::dec_digits(procs);
    let a = 4 + u.len() as int + 6;
    let b = a + n.len() as int + 5;
    assert(line.subrange(4, 4 + u.len() as int) =~= u);
    assert(line.subrange(a, a + n.len()) =~= n);
    assert(ip.len() > 0 ==> line.skip(b) =~= ip);
    assert(ip.len() == 0 ==> line.skip(b) =~= "N/A"@);
}

/// A divider has its diamond in the middle, and nothing but its own character elsewhere;
/// an ornament is five characters in the middle of a double line.
pub proof fn law_dividers_are_centred(b: u8, width: nat, i: int)
    requires
        0 <= i < width,
    ensures
        divider_of(b, width).len() == width,
        divider_of(b, width)[i] == (if i == (width - 1) / 2 {
            DIAMOND
        } else {
            b
        }),
        ornament_of(width).len() == width,
        width >= 5 && (i < (width - 5) / 2 || i >= (width - 5) / 2 + 5) ==> ornament_of(width)[i] == BOX_DB,
        width >= 5 && i == (width - 5) / 2 + 2 ==> ornament_of(width)[i] == DIAMOND,
{
}

/// A box has its corners and sides at its ends, and its texts behind them.
pub proof fn law_boxes_hold_their_text(label: Seq<char>, width: nat)
    ensures
        ({
            let e = vstd::utf8::encode_utf8(label);
            let n = e.len() as int;
            &&& box_top_of(label, width)[2] == BOX_TL && box_top_of(label, width).last() == BOX_TR
            &&& box_bot_of(label, width)[2] == BOX_BL && box_bot_of(label, width).last() == BOX_BR
            &&& box_mid_of(label, width)[2] == BOX_VT && box_mid_of(label, width).last() == BOX_VT
            &&& box_top_of(label, width).subrange(6, 6 + n) == e
            &&& box_bot_of(label, width).subrange(6, 6 + n) == e
            &&& box_mid_of(label, width).subrange(7, 7 + n) == e
        }),
{
    let e = vstd::utf8::encode_utf8(label);
    let n = e.len() as int;
    assert(box_top_of(label, width).subrange(6, 6 + n) =~= e);
    assert(box_bot_of(label, width).subrange(6, 6 + n) =~= e);
    assert(box_mid_of(label, width).subrange(7, 7 + n) =~= e);
}

} // verus!
