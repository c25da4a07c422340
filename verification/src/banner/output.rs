//! How the picture reaches the terminal.

use vstd::prelude::*;
use crate::banner::canvas::{Canvas, Color};
use crate::text;
use crate::text::{joined, str_eq};

verus! {

// ── Base 64 ─────────────────────────────────────────────────────────────────

/// The character for a number below 64.
pub open spec fn b64_char(n: nat) -> char {
    if n < 26 {
        (65 + n) as char
    } else if n < 52 {
        (71 + n) as char
    } else if n < 62 {
        (n - 4) as char
    } else if n == 62 {
        '+'
    } else {
        '/'
    }
}

fn b64(n: u8) -> (r: char)
    requires
        n < 64,
    ensures
        r == b64_char(n as nat),
{
    if n < 26 {
        (65 + n) as char
    } else if n < 52 {
        (71 + n) as char
    } else if n < 62 {
        (n - 4) as char
    } else if n == 62 {
        '+'
    } else {
        '/'
    }
}

/// The four characters for up to three bytes.
pub open spec fn b64_group(d: Seq<u8>) -> Seq<char> {
    let b0 = d[0] as nat;
    let b1 = if d.len() > 1 {
        d[1] as nat
    } else {
        0
    };
    let b2 = if d.len() > 2 {
        d[2] as nat
    } else {
        0
    };
    seq![
        b64_char(b0 / 4),
        b64_char((b0 % 4) * 16 + b1 / 16),
        if d.len() > 1 {
            b64_char((b1 % 16) * 4 + b2 / 64)
        } else {
            '='
        },
        if d.len() > 2 {
            b64_char(b2 % 64)
        } else {
            '='
        },
    ]
}

/// Bytes in base 64.
pub open spec fn base64_of(d: Seq<u8>) -> Seq<char>
    decreases d.len(),
{
    if d.len() == 0 {
        Seq::empty()
    } else if d.len() <= 3 {
        b64_group(d)
    } else {
        b64_group(d.take(3)) + base64_of(d.skip(3))
    }
}

/// Bytes in base 64.
pub fn base64_encode(data: &Vec<u8>) -> (r: String)
    ensures
        r@ == base64_of(data@),
{
    let mut out: String = String::new();
    let mut i: usize = 0;
    let n: usize = data.len();
    proof {
        assert(data@.skip(0) =~= data@);
        assert(out@ + base64_of(data@) =~= base64_of(data@));
    }
    while i < n
        invariant
            n == data@.len(),
            i <= n,
            out@ + base64_of(data@.skip(i as int)) == base64_of(data@),
        decreases n - i,
    {
        let ghost rest = data@.skip(i as int);
        let ghost prior = out@;
        let left: usize = n - i;
        let b0: u8 = data[i];
        let b1: u8 = if left > 1 {
            data[i + 1]
        } else {
            0
        };
        let b2: u8 = if left > 2 {
            data[i + 2]
        } else {
            0
        };
        out.push(b64(b0 / 4));
        out.push(b64((b0 % 4) * 16 + b1 / 16));
        if left > 1 {
            out.push(b64((b1 % 16) * 4 + b2 / 64));
        } else {
            out.push('=');
        }
        if left > 2 {
            out.push(b64(b2 % 64));
        } else {
            out.push('=');
        }
        proof {
            let head = if left <= 3 {
                rest
            } else {
                rest.take(3)
            };
            assert(out@ =~= prior + b64_group(head));
            if left > 3 {
                assert(rest.skip(3) =~= data@.skip(i + 3));
                assert(out@ + base64_of(rest.skip(3)) =~= prior + base64_of(rest));
            } else {
                assert(data@.skip(n as int) =~= Seq::empty());
                assert(out@ + base64_of(Seq::empty()) =~= prior + base64_of(rest));
            }
        }
        i = if left > 3 {
            i + 3
        } else {
            n
        };
    }
    proof {
        assert(data@.skip(i as int) =~= Seq::empty());
        assert(out@ + base64_of(data@.skip(i as int)) =~= out@);
    }
    out
}

/// Base 64 takes four characters for every three bytes or part of three.
pub proof fn law_base64_length(d: Seq<u8>)
    ensures
        base64_of(d).len() == ((d.len() + 2) / 3) * 4,
    decreases d.len(),
{
    if d.len() > 3 {
        law_base64_length(d.skip(3));
    }
}

/// The number that a character stands for.
pub open spec fn b64_value(c: char) -> nat {
    if 'A' <= c && c <= 'Z' {
        (c as int - 65) as nat
    } else if 'a' <= c && c <= 'z' {
        (c as int - 71) as nat
    } else if '0' <= c && c <= '9' {
        (c as int + 4) as nat
    } else if c == '+' {
        62
    } else {
        63
    }
}

proof fn lemma_b64_value(n: nat)
    requires
        n < 64,
    ensures
        b64_value(b64_char(n)) == n,
        b64_char(n) != '=',
{
}

/// The bytes that a group of four characters stands for.
pub open spec fn unb64_group(s: Seq<char>) -> Seq<u8> {
    let a = b64_value(s[0]);
    let b = b64_value(s[1]);
    let first = seq![(a * 4 + b / 16) as u8];
    if s[2] == '=' {
        first
    } else {
        let c = b64_value(s[2]);
        let second = first.push(((b % 16) * 16 + c / 4) as u8);
        if s[3] == '=' {
            second
        } else {
            second.push(((c % 4) * 64 + b64_value(s[3])) as u8)
        }
    }
}

/// The bytes that a text in base 64 stands for.
pub open spec fn unbase64(s: Seq<char>) -> Seq<u8>
    decreases s.len(),
{
    if s.len() < 4 {
        Seq::empty()
    } else {
        unb64_group(s.take(4)) + unbase64(s.skip(4))
    }
}

proof fn lemma_group_reads_back(d: Seq<u8>)
    requires
        1 <= d.len() <= 3,
    ensures
        unb64_group(b64_group(d)) == d,
{
    let b0 = d[0] as nat;
    let b1 = if d.len() > 1 {
        d[1] as nat
    } else {
        0
    };
    let b2 = if d.len() > 2 {
        d[2] as nat
    } else {
        0
    };
    lemma_b64_value(b0 / 4);
    lemma_b64_value((b0 % 4) * 16 + b1 / 16);
    lemma_b64_value((b1 % 16) * 4 + b2 / 64);
    lemma_b64_value(b2 % 64);
    assert(unb64_group(b64_group(d)) =~= d);
}

/// What was written in base 64 stands for the bytes it was written from.
pub proof fn law_base64_reads_back(d: Seq<u8>)
    ensures
        unbase64(base64_of(d)) == d,
    decreases d.len(),
{
    if d.len() == 0 {
        assert(unbase64(base64_of(d)) =~= d);
    } else if d.len() <= 3 {
        lemma_group_reads_back(d);
        let s = base64_of(d);
        assert(s.take(4) =~= s);
        assert(s.skip(4) =~= Seq::empty());
        assert(unbase64(Seq::empty()) =~= Seq::empty());
        assert(unbase64(s) =~= d);
    } else {
        lemma_group_reads_back(d.take(3));
        law_base64_reads_back(d.skip(3));
        let s = base64_of(d);
        assert(s.take(4) =~= b64_group(d.take(3)));
        assert(s.skip(4) =~= base64_of(d.skip(3)));
        assert(d.take(3) + d.skip(3) =~= d);
    }
}

// ── Kitty's graphics ────────────────────────────────────────────────────────

/// How many characters go into one piece.
pub const CHUNK_SIZE: usize = 4096;

/// One piece: the first says what it is, and all but the last that more follows.
pub open spec fn piece_of(first: bool, more: bool, payload: Seq<char>) -> Seq<char> {
    (if first {
        if more {
            "\x1b_Gf=100,a=T,q=2,m=1;"@
        } else {
            "\x1b_Gf=100,a=T,q=2,m=0;"@
        }
    } else if more {
        "\x1b_Gm=1;"@
    } else {
        "\x1b_Gm=0;"@
    }) + payload + "\x1b\\"@
}

/// A text in pieces.
pub open spec fn pieces_of(first: bool, s: Seq<char>) -> Seq<char>
    decreases s.len(),
{
    if s.len() == 0 {
        Seq::empty()
    } else if s.len() <= CHUNK_SIZE {
        piece_of(first, false, s)
    } else {
        piece_of(first, true, s.take(CHUNK_SIZE as int)) + pieces_of(false, s.skip(CHUNK_SIZE as int))
    }
}

/// A picture as Kitty's escapes, with a new line behind it.
pub open spec fn kitty_of(png: Seq<u8>) -> Seq<char> {
    pieces_of(true, base64_of(png)) + "\n"@
}

/// What the pieces of a text carry.
pub open spec fn payloads_of(s: Seq<char>) -> Seq<Seq<char>>
    decreases s.len(),
{
    if s.len() == 0 {
        Seq::empty()
    } else if s.len() <= CHUNK_SIZE {
        seq![s]
    } else {
        seq![s.take(CHUNK_SIZE as int)] + payloads_of(s.skip(CHUNK_SIZE as int))
    }
}

/// Pieces in a row: the first says what it is, and all but the last that more follows.
pub open spec fn framed(first: bool, payloads: Seq<Seq<char>>) -> Seq<char>
    decreases payloads.len(),
{
    if payloads.len() == 0 {
        Seq::empty()
    } else {
        piece_of(first, payloads.len() > 1, payloads[0]) + framed(false, payloads.skip(1))
    }
}

/// The pieces carry the whole text in order, none is empty, and none is longer than
/// the terminal takes.
pub proof fn law_pieces_carry_the_text(first: bool, s: Seq<char>)
    ensures
        pieces_of(first, s) == framed(first, payloads_of(s)),
        payloads_of(s).flatten() == s,
        forall|i: int|
            0 <= i < payloads_of(s).len() ==> 0 < (#[trigger] payloads_of(s)[i]).len() <= CHUNK_SIZE,
    decreases s.len(),
{
    let all = payloads_of(s);
    if s.len() == 0 {
        assert(all.flatten() =~= s);
    } else if s.len() <= CHUNK_SIZE {
        assert(all.skip(1) =~= Seq::empty());
        assert(framed(false, all.skip(1)) =~= Seq::empty());
        assert(framed(first, all) =~= piece_of(first, false, s));
        assert(all.drop_first() =~= Seq::empty());
        assert(all.drop_first().flatten() =~= Seq::<char>::empty());
        assert(all.flatten() =~= s);
    } else {
        let rest = s.skip(CHUNK_SIZE as int);
        law_pieces_carry_the_text(false, rest);
        assert(all.skip(1) =~= payloads_of(rest));
        assert(all.drop_first() =~= payloads_of(rest));
        assert(s.take(CHUNK_SIZE as int) + rest =~= s);
        assert forall|i: int| 0 <= i < all.len() implies 0 < (#[trigger] all[i]).len() <= CHUNK_SIZE by {
            if i > 0 {
                assert(all[i] == payloads_of(rest)[i - 1]);
            }
        }
    }
}

fn piece(first: bool, more: bool, payload: &str) -> (r: String)
    ensures
        r@ == piece_of(first, more, payload@),
{
    let head: &'static str = if first {
        if more {
            "\x1b_Gf=100,a=T,q=2,m=1;"
        } else {
            "\x1b_Gf=100,a=T,q=2,m=0;"
        }
    } else if more {
        "\x1b_Gm=1;"
    } else {
        "\x1b_Gm=0;"
    };
    let mut s: String = joined(head, payload);
    s.push_str("\x1b\\");
    s
}

/// A picture as Kitty's escapes, with a new line behind it.
pub fn write_kitty_graphics(png: &Vec<u8>) -> (r: String)
    ensures
        r@ == kitty_of(png@),
{
    let encoded: String = base64_encode(png);
    let v: Vec<char> = crate::text::chars_of(encoded.as_str());
    let n: usize = v.len();
    let mut out: String = String::new();
    let mut i: usize = 0;
    proof {
        assert(v@.skip(0) =~= v@);
        assert(out@ + pieces_of(true, v@) =~= pieces_of(true, v@));
    }
    while i < n
        invariant
            n == v@.len(),
            i <= n,
            out@ + pieces_of(i == 0, v@.skip(i as int)) == pieces_of(true, v@),
        decreases n - i,
    {
        let ghost rest = v@.skip(i as int);
        let ghost prior = out@;
        let first: bool = i == 0;
        if n - i <= CHUNK_SIZE {
            let payload: String = crate::text::string_of_range(&v, i, n);
            proof {
                assert(v@.subrange(i as int, n as int) =~= rest);
            }
            out.push_str(piece(first, false, payload.as_str()).as_str());
            i = n;
            proof {
                assert(v@.skip(n as int) =~= Seq::empty());
                assert(out@ + pieces_of(false, Seq::empty()) =~= prior + pieces_of(first, rest));
            }
        } else {
            let payload: String = crate::text::string_of_range(&v, i, i + CHUNK_SIZE);
            proof {
                assert(v@.subrange(i as int, i + CHUNK_SIZE) =~= rest.take(CHUNK_SIZE as int));
                assert(rest.skip(CHUNK_SIZE as int) =~= v@.skip(i + CHUNK_SIZE));
            }
            out.push_str(piece(first, true, payload.as_str()).as_str());
            proof {
                assert(out@ + pieces_of(false, rest.skip(CHUNK_SIZE as int)) =~= prior + pieces_of(
                    first,
                    rest,
                ));
            }
            i += CHUNK_SIZE;
        }
    }
    proof {
        assert(v@.skip(i as int) =~= Seq::empty());
        assert(out@ + pieces_of(i == 0, v@.skip(i as int)) =~= out@);
    }
    out.push_str("\n");
    out
}

// ── PNG ─────────────────────────────────────────────────────────────────────

/// What `image`'s PNG encoder makes of the colours of a picture, four bytes for each
/// pixel, and its size.
pub uninterp spec fn png_of(raw: Seq<u8>, width: u32, height: u32) -> Option<Seq<u8>>;

/// The value of an optional byte vector.
pub open spec fn bytes_view(b: Option<Vec<u8>>) -> Option<Seq<u8>> {
    match b {
        Some(v) => Some(v@),
        None => None,
    }
}

/// `image::codecs::png::PngEncoder::write_image` for eight-bit RGBA: the file that
/// shows the picture, or nothing where the encoder refuses it, as it does a picture
/// without a pixel. What the file holds is left to the encoder; it depends on the
/// picture and its size alone. The encoder panics where the number of bytes does not
/// fit the size.
#[verifier::external_body]
fn encode_png(raw: &Vec<u8>, width: u32, height: u32) -> (r: Option<Vec<u8>>)
    requires
        raw@.len() == width * height * 4,
    ensures
        bytes_view(r) == png_of(raw@, width, height),
        width == 0 || height == 0 ==> r is None,
{
    let mut out: Vec<u8> = Vec::new();
    let encoder = image::codecs::png::PngEncoder::new(&mut out);
    let done = image::ImageEncoder::write_image(
        encoder,
        raw,
        width,
        height,
        image::ExtendedColorType::Rgba8,
    );
    done.ok().map(|_| out)
}

/// The four bytes of a pixel.
pub open spec fn rgba_of(c: Color) -> Seq<u8> {
    seq![c.r, c.g, c.b, 255u8]
}

/// The bytes of a row of pixels.
pub open spec fn row_bytes(row: Seq<Color>) -> Seq<u8>
    decreases row.len(),
{
    if row.len() == 0 {
        Seq::empty()
    } else {
        row_bytes(row.drop_last()) + rgba_of(row.last())
    }
}

/// The bytes of the first rows of a picture.
pub open spec fn rows_bytes(c: Canvas, n: nat) -> Seq<u8>
    decreases n,
{
    if n == 0 {
        Seq::empty()
    } else {
        rows_bytes(c, (n - 1) as nat) + row_bytes(c.rows@[n - 1]@)
    }
}

proof fn lemma_row_bytes(row: Seq<Color>)
    ensures
        row_bytes(row).len() == row.len() * 4,
    decreases row.len(),
{
    if row.len() > 0 {
        lemma_row_bytes(row.drop_last());
    }
}

proof fn lemma_rows_bytes(c: Canvas, n: nat)
    requires
        c.wf(),
        n <= c.tall(),
    ensures
        rows_bytes(c, n).len() == c.width * n * 4,
    decreases n,
{
    if n > 0 {
        lemma_rows_bytes(c, (n - 1) as nat);
        lemma_row_bytes(c.rows@[n - 1]@);
        assert(c.width * n * 4 == c.width * (n - 1) * 4 + c.width * 4) by (nonlinear_arith);
    } else {
        assert(c.width * 0 * 4 == 0) by (nonlinear_arith);
    }
}

/// The first rows of a picture as a PNG file.
pub fn to_png(c: &Canvas, rows: u32) -> (r: Option<Vec<u8>>)
    requires
        c.wf(),
        rows <= c.tall(),
    ensures
        bytes_view(r) == png_of(rows_bytes(*c, rows as nat), c.width, rows),
{
    let mut raw: Vec<u8> = Vec::new();
    let mut y: u32 = 0;
    while y < rows
        invariant
            c.wf(),
            y <= rows <= c.tall(),
            raw@ == rows_bytes(*c, y as nat),
        decreases rows - y,
    {
        let row: &Vec<Color> = &c.rows[y as usize];
        let ghost done = raw@;
        let mut x: usize = 0;
        proof {
            assert(done + row_bytes(row@.take(0)) =~= done);
        }
        while x < row.len()
            invariant
                x <= row@.len(),
                raw@ == done + row_bytes(row@.take(x as int)),
            decreases row@.len() - x,
        {
            let p: Color = row[x];
            raw.push(p.r);
            raw.push(p.g);
            raw.push(p.b);
            raw.push(255);
            proof {
                let t = row@.take(x as int + 1);
                assert(t.drop_last() =~= row@.take(x as int));
                assert(t.last() == p);
                assert(raw@ =~= done + row_bytes(t));
            }
            x += 1;
        }
        proof {
            assert(row@.take(x as int) =~= row@);
        }
        y += 1;
    }
    proof {
        lemma_rows_bytes(*c, rows as nat);
    }
    encode_png(&raw, c.width, rows)
}

// ── Which picture, and where to ─────────────────────────────────────────────

/// What is asked for: which picture, and whether as a bare file.
#[derive(Debug, Clone, Copy, PartialEq, Eq, Structural)]
pub struct Wanted {
    pub classic: bool,
    pub raw: bool,
}

/// What a kind of banner asks for.
pub open spec fn wanted_of(kind: Option<Seq<char>>) -> Wanted {
    match kind {
        Some(k) => Wanted {
            classic: k == "classic"@ || k == "classic-png"@,
            raw: k == "png"@ || k == "classic-png"@,
        },
        None => Wanted { classic: false, raw: false },
    }
}

/// What a kind of banner asks for.
pub fn wanted(kind: Option<&str>) -> (r: Wanted)
    ensures
        r == wanted_of(text::opt_str_view(kind)),
{
    match kind {
        Some(k) => Wanted {
            classic: str_eq(k, "classic") || str_eq(k, "classic-png"),
            raw: str_eq(k, "png") || str_eq(k, "classic-png"),
        },
        None => Wanted { classic: false, raw: false },
    }
}

/// Where a picture goes.
#[derive(Debug, Clone, Copy, PartialEq, Eq, Structural)]
pub enum Sink {
    /// Its bytes as they are.
    File,
    /// To a program that draws it with characters.
    Chafa,
    /// As escapes for the terminal.
    Kitty,
}

/// Where a picture goes; inside tmux the terminal's escapes would get lost.
pub fn sink(raw: bool, tmux: Option<&str>) -> (r: Sink)
    ensures
        r == (if raw {
            Sink::File
        } else if tmux is Some && (tmux->0)@.len() > 0 {
            Sink::Chafa
        } else {
            Sink::Kitty
        }),
{
    if raw {
        return Sink::File;
    }
    match tmux {
        Some(v) => {
            if v.is_empty() {
                Sink::Kitty
            } else {
                Sink::Chafa
            }
        },
        None => Sink::Kitty,
    }
}

/// Asked for raw bytes, the picture goes out as they are; else inside tmux it is drawn
/// with characters, and outside of it by the terminal itself.
pub proof fn law_sink_of_the_picture(raw: bool, tmux: Option<&str>, r: Sink)
    requires
        call_ensures(sink, (raw, tmux), r),
    ensures
        r is File <==> raw,
        r is Chafa <==> !raw && tmux is Some && (tmux->0)@.len() > 0,
        r is Kitty <==> !raw && (tmux is None || (tmux->0)@.len() == 0),
{
}

/// A piece is a graphics command whose last key says whether another piece follows, and
/// its payload stands between that key and the end of the command.
pub proof fn law_piece_says_whether_more_follows(first: bool, more: bool, payload: Seq<char>)
    ensures
        ({
            let p = piece_of(first, more, payload);
            let k: int = if first {
                20
            } else {
                6
            };
            &&& p.len() == k + 3 + payload.len()
            &&& p[0] == '\x1b' && p[1] == '_' && p[2] == 'G'
            &&& p[k - 3] == 'm' && p[k - 2] == '=' && p[k] == ';'
            &&& p[k - 1] == (if more {
                '1'
            } else {
                '0'
            })
            &&& p.subrange(k + 1, p.len() - 2) == payload
            &&& p[p.len() - 2] == '\x1b' && p.last() == '\\'
        }),
{
    reveal_strlit("\x1b_Gf=100,a=T,q=2,m=1;");
    reveal_strlit("\x1b_Gf=100,a=T,q=2,m=0;");
    reveal_strlit("\x1b_Gm=1;");
    reveal_strlit("\x1b_Gm=0;");
    reveal_strlit("\x1b\\");
    let p = piece_of(first, more, payload);
    let k: int = if first {
        20
    } else {
        6
    };
    assert(p.subrange(k + 1, p.len() - 2) =~= payload);
}

} // verus!
