//! How a terminal reads what is painted, and what it shows after that.

use vstd::prelude::*;
use crate::color;
use crate::decimal;
use crate::host::bar;
use crate::host::screen;
use crate::host::screen::{Cell, CellColor, Screen};
use crate::host::session;
use crate::host::transient;
use crate::span::Span;
use crate::text;

verus! {

// ── What is shown ───────────────────────────────────────────────────────────

/// How a character looks. No colour is the terminal's own.
pub struct Look {
    pub fg: Option<CellColor>,
    pub bg: Option<CellColor>,
    pub bold: bool,
    pub dim: bool,
    pub italic: bool,
    pub underline: bool,
    pub inverse: bool,
}

/// A terminal.
pub struct Terminal {
    /// How the next character will look.
    pub look: Look,
    /// Where the cursor is; the first row and the first column are 1.
    pub row: int,
    pub col: int,
    /// What stands on the screen, by row and column.
    pub cells: Map<(int, int), (Look, char)>,
    /// Where the cursor was when it was last saved, and the look then.
    pub saved: (int, int, Look),
    /// The rows that scroll, from the first to the last; `None` for all of them.
    pub region: Option<(nat, nat)>,
    /// What is read is held back from the eye until it is complete.
    pub held: bool,
    /// The characters that take two columns.
    pub wide: Set<char>,
}

/// The look after a reset.
pub open spec fn plain() -> Look {
    Look {
        fg: None,
        bg: None,
        bold: false,
        dim: false,
        italic: false,
        underline: false,
        inverse: false,
    }
}

// ── How it is read ──────────────────────────────────────────────────────────

/// The numbers of a parameter list: runs of digits with semicolons between them.
pub open spec fn numbers(s: Seq<char>) -> Seq<nat>
    decreases s.len(),
{
    let n = text::find_char(s, ';');
    if n < s.len() {
        seq![decimal::digits_value(s.take(n as int))] + numbers(s.skip(n as int + 1))
    } else {
        seq![decimal::digits_value(s)]
    }
}

/// A look with another foreground, or with another background.
pub open spec fn colored(look: Look, fg: bool, c: Option<CellColor>) -> Look {
    if fg {
        Look { fg: c, ..look }
    } else {
        Look { bg: c, ..look }
    }
}

/// The look after some graphic parameters, taken one after the other: 0 resets, 1 to
/// 4 and 7 set an attribute, 30 to 37 and 90 to 97 are the sixteen foregrounds, 40 to
/// 47 and 100 to 107 the sixteen backgrounds, and 38 and 48 take one colour of the 256
/// or three parts of one.
pub open spec fn graphic(look: Look, ps: Seq<nat>) -> Look
    decreases ps.len(),
{
    if ps.len() == 0 {
        look
    } else {
        let p = ps[0];
        if (p == 38 || p == 48) && ps.len() >= 5 && ps[1] == 2 {
            graphic(
                colored(look, p == 38, Some(CellColor::Spec(ps[2] as u8, ps[3] as u8, ps[4] as u8))),
                ps.skip(5),
            )
        } else if (p == 38 || p == 48) && ps.len() >= 3 && ps[1] == 5 {
            graphic(colored(look, p == 38, Some(CellColor::Indexed(ps[2] as u8))), ps.skip(3))
        } else {
            graphic(
                if p == 0 {
                    plain()
                } else if p == 1 {
                    Look { bold: true, ..look }
                } else if p == 2 {
                    Look { dim: true, ..look }
                } else if p == 3 {
                    Look { italic: true, ..look }
                } else if p == 4 {
                    Look { underline: true, ..look }
                } else if p == 7 {
                    Look { inverse: true, ..look }
                } else if 30 <= p < 38 {
                    colored(look, true, Some(CellColor::Named((p - 30) as u16)))
                } else if 90 <= p < 98 {
                    colored(look, true, Some(CellColor::Named((p - 82) as u16)))
                } else if 40 <= p < 48 {
                    colored(look, false, Some(CellColor::Named((p - 40) as u16)))
                } else if 100 <= p < 108 {
                    colored(look, false, Some(CellColor::Named((p - 92) as u16)))
                } else {
                    look
                },
                ps.skip(1),
            )
        }
    }
}

/// Whether a character belongs to the parameters of a control sequence.
pub open spec fn is_param(c: char) -> bool {
    decimal::is_digit(c) || c == ';' || c == '?'
}

/// How many parameter characters stand at the start.
pub open spec fn params_len(s: Seq<char>) -> nat
    decreases s.len(),
{
    if s.len() > 0 && is_param(s[0]) {
        1 + params_len(s.skip(1))
    } else {
        0
    }
}

/// What a control sequence does, by its parameters and its last character.
pub open spec fn obey(t: Terminal, params: Seq<char>, last: char) -> Terminal {
    let ps = numbers(params);
    if last == 'm' {
        Terminal { look: graphic(t.look, ps), ..t }
    } else if last == 'H' && ps.len() == 2 {
        Terminal { row: ps[0] as int, col: ps[1] as int, ..t }
    } else if last == 'K' {
        let line = params.len() > 0;
        Terminal {
            cells: t.cells.remove_keys(
                Set::new(|at: (int, int)| at.0 == t.row && (line || at.1 >= t.col)),
            ),
            ..t
        }
    } else if last == 'J' {
        Terminal {
            cells: t.cells.remove_keys(
                Set::new(|at: (int, int)| at.0 > t.row || (at.0 == t.row && at.1 >= t.col)),
            ),
            ..t
        }
    } else if last == 'r' {
        Terminal {
            region: if ps.len() == 2 {
                Some((ps[0], ps[1]))
            } else {
                None
            },
            row: 1,
            col: 1,
            ..t
        }
    } else if last == 'h' && params == "?2026"@ {
        Terminal { held: true, ..t }
    } else if last == 'l' && params == "?2026"@ {
        Terminal { held: false, ..t }
    } else {
        t
    }
}

/// What an escape sequence of one character does: 7 saves the cursor and the look, 8
/// brings them back.
pub open spec fn escaped(t: Terminal, c: char) -> Terminal {
    if c == '7' {
        Terminal { saved: (t.row, t.col, t.look), ..t }
    } else if c == '8' {
        Terminal { row: t.saved.0, col: t.saved.1, look: t.saved.2, ..t }
    } else {
        t
    }
}

/// Whether a character is shown, and is no control character.
pub open spec fn is_shown(c: char) -> bool {
    c >= ' '
}

/// What a character by itself does: it is shown at the cursor, which goes on behind it.
pub open spec fn shown(t: Terminal, c: char) -> Terminal {
    if c == '\r' {
        Terminal { col: 1, ..t }
    } else if c == '\n' {
        Terminal { row: t.row + 1, ..t }
    } else if is_shown(c) {
        Terminal {
            cells: t.cells.insert((t.row, t.col), (t.look, c)),
            col: t.col + (if t.wide.contains(c) {
                2int
            } else {
                1
            }),
            ..t
        }
    } else {
        t
    }
}

/// The terminal after a text.
#[verifier::opaque]
pub open spec fn read(t: Terminal, s: Seq<char>) -> Terminal
    decreases s.len(),
{
    if s.len() == 0 {
        t
    } else if s[0] != '\x1b' {
        read(shown(t, s[0]), s.skip(1))
    } else if s.len() < 2 {
        t
    } else if s[1] != '[' {
        read(escaped(t, s[1]), s.skip(2))
    } else {
        let n = params_len(s.skip(2));
        if 2 + n < s.len() {
            read(obey(t, s.subrange(2, 2 + n as int), s[2 + n as int]), s.skip(3 + n as int))
        } else {
            t
        }
    }
}

// ── Reading piece by piece ──────────────────────────────────────────────────

proof fn lemma_params_len(p: Seq<char>, rest: Seq<char>)
    requires
        forall|i: int| 0 <= i < p.len() ==> is_param(#[trigger] p[i]),
        rest.len() > 0,
        !is_param(rest[0]),
    ensures
        params_len(p + rest) == p.len(),
    decreases p.len(),
{
    let s = p + rest;
    if p.len() == 0 {
        assert(s =~= rest);
    } else {
        assert(s[0] == p[0]);
        assert(s.skip(1) =~= p.skip(1) + rest);
        assert forall|i: int| 0 <= i < p.skip(1).len() implies is_param(#[trigger] p.skip(1)[i]) by {
            assert(p.skip(1)[i] == p[i + 1]);
        }
        lemma_params_len(p.skip(1), rest);
    }
}

/// A control sequence is obeyed, and what follows it is read after that.
pub proof fn lemma_read_control(t: Terminal, p: Seq<char>, last: char, rest: Seq<char>)
    requires
        forall|i: int| 0 <= i < p.len() ==> is_param(#[trigger] p[i]),
        !is_param(last),
    ensures
        read(t, seq!['\x1b', '['] + p + seq![last] + rest) == read(obey(t, p, last), rest),
{
    reveal_with_fuel(read, 1);
    let s = seq!['\x1b', '['] + p + seq![last] + rest;
    assert(s[0] == '\x1b' && s[1] == '[');
    assert(s.skip(2) =~= p + (seq![last] + rest));
    lemma_params_len(p, seq![last] + rest);
    assert(s.subrange(2, 2 + p.len() as int) =~= p);
    assert(s[2 + p.len() as int] == last);
    assert(s.skip(3 + p.len() as int) =~= rest);
}

/// A character is shown, and what follows it is read after that.
pub proof fn lemma_read_char(t: Terminal, c: char, rest: Seq<char>)
    requires
        c != '\x1b',
    ensures
        read(t, seq![c] + rest) == read(shown(t, c), rest),
{
    reveal_with_fuel(read, 1);
    let s = seq![c] + rest;
    assert(s[0] == c);
    assert(s.skip(1) =~= rest);
}

/// Nothing more changes where nothing is left.
pub proof fn lemma_read_end(t: Terminal)
    ensures
        read(t, Seq::empty()) == t,
{
    reveal_with_fuel(read, 1);
}

/// The cursor is saved or brought back, and what follows is read after that.
pub proof fn lemma_read_escape(t: Terminal, c: char, rest: Seq<char>)
    requires
        c != '[',
    ensures
        read(t, seq!['\x1b', c] + rest) == read(escaped(t, c), rest),
{
    reveal_with_fuel(read, 1);
    let s = seq!['\x1b', c] + rest;
    assert(s[0] == '\x1b' && s[1] == c);
    assert(s.skip(2) =~= rest);
}

// ── Parameter lists ─────────────────────────────────────────────────────────

/// Some numbers, each with a semicolon before it.
spec fn listed(ns: Seq<nat>) -> Seq<char>
    decreases ns.len(),
{
    if ns.len() == 0 {
        Seq::empty()
    } else {
        seq![';'] + decimal::dec_digits(ns[0]) + listed(ns.skip(1))
    }
}

proof fn lemma_listed_add(a: Seq<nat>, b: Seq<nat>)
    ensures
        listed(a + b) == listed(a) + listed(b),
    decreases a.len(),
{
    if a.len() == 0 {
        assert(a + b =~= b);
        assert(listed(a) + listed(b) =~= listed(b));
    } else {
        lemma_listed_add(a.skip(1), b);
        assert((a + b).skip(1) =~= a.skip(1) + b);
        assert((a + b)[0] == a[0]);
        assert(listed(a + b) =~= listed(a) + listed(b));
    }
}

proof fn lemma_listed_params(a: nat, ns: Seq<nat>)
    ensures
        forall|i: int|
            0 <= i < (decimal::dec_digits(a) + listed(ns)).len() ==> is_param(
                #[trigger] (decimal::dec_digits(a) + listed(ns))[i],
            ),
        numbers(decimal::dec_digits(a) + listed(ns)) == seq![a] + ns,
    decreases ns.len(),
{
    decimal::lemma_dec_digits(a);
    let d = decimal::dec_digits(a);
    let s = d + listed(ns);
    assert forall|i: int| 0 <= i < d.len() implies #[trigger] d[i] != ';' && is_param(d[i]) by {
        assert(decimal::is_digit(d[i]));
    }
    if ns.len() == 0 {
        assert(s =~= d);
        text::lemma_find_char(s, ';');
        let n = text::find_char(s, ';');
        if n < s.len() {
            assert(d[n as int] == ';');
        }
        assert(seq![a] + ns =~= seq![a]);
    } else {
        lemma_listed_params(ns[0], ns.skip(1));
        let rest = decimal::dec_digits(ns[0]) + listed(ns.skip(1));
        assert(s =~= d + seq![';'] + rest);
        text::lemma_find_char_at(d, ';', rest);
        assert(s.take(d.len() as int) =~= d);
        assert(s.skip(d.len() as int + 1) =~= rest);
        assert(seq![ns[0]] + ns.skip(1) =~= ns);
        assert forall|i: int| 0 <= i < s.len() implies is_param(#[trigger] s[i]) by {
            if i < d.len() {
                assert(s[i] == d[i]);
            } else if i > d.len() {
                assert(s[i] == rest[i - d.len() - 1]);
            }
        }
        assert(numbers(s) =~= seq![a] + ns);
    }
}

// ── The look of a cell ──────────────────────────────────────────────────────

/// The colour that a cell's colour stands for; a named one above the sixteen is the
/// terminal's own.
pub open spec fn shade(c: CellColor) -> Option<CellColor> {
    if c matches CellColor::Named(n) && n >= 16 {
        None
    } else {
        Some(c)
    }
}

/// How a cell looks.
pub open spec fn look_of(cell: Cell) -> Look {
    Look {
        fg: shade(cell.fg),
        bg: shade(cell.bg),
        bold: cell.bold,
        dim: cell.dim,
        italic: cell.italic,
        underline: cell.underline,
        inverse: cell.inverse,
    }
}

spec fn color_numbers(c: CellColor, fg: bool) -> Seq<nat> {
    let base: nat = if fg {
        38
    } else {
        48
    };
    match c {
        CellColor::Spec(r, g, b) => seq![base, 2, r as nat, g as nat, b as nat],
        CellColor::Indexed(i) => seq![base, 5, i as nat],
        CellColor::Named(n) => if n < 8 {
            seq![
                (if fg {
                    30nat
                } else {
                    40
                }) + n as nat,
            ]
        } else if n < 16 {
            seq![
                (if fg {
                    82nat
                } else {
                    92
                }) + n as nat,
            ]
        } else {
            Seq::empty()
        },
    }
}

spec fn flag_numbers(on: bool, n: nat) -> Seq<nat> {
    if on {
        seq![n]
    } else {
        Seq::empty()
    }
}

proof fn lemma_listed_one(n: nat)
    ensures
        listed(seq![n]) == seq![';'] + decimal::dec_digits(n),
{
    assert(seq![n].skip(1) =~= Seq::<nat>::empty());
    reveal_with_fuel(listed, 2);
    assert(listed(seq![n]) =~= seq![';'] + decimal::dec_digits(n));
}

proof fn lemma_color_listed(c: CellColor, fg: bool)
    ensures
        screen::color_params(c, fg) == listed(color_numbers(c, fg)),
{
    reveal_strlit(";");
    reveal_strlit(";2;");
    reveal_strlit(";5;");
    assert(";"@ =~= seq![';']);
    let base: nat = if fg {
        38
    } else {
        48
    };
    let ns = color_numbers(c, fg);
    reveal_with_fuel(listed, 6);
    reveal_with_fuel(decimal::dec_digits, 1);
    match c {
        CellColor::Spec(r, g, b) => {
            assert(decimal::dec_digits(2) =~= seq!['2']);
            assert(ns.skip(1).skip(1).skip(1).skip(1).skip(1).len() == 0);
            assert(screen::color_params(c, fg) =~= listed(ns));
        },
        CellColor::Indexed(i) => {
            assert(decimal::dec_digits(5) =~= seq!['5']);
            assert(ns.skip(1).skip(1).skip(1).len() == 0);
            assert(screen::color_params(c, fg) =~= listed(ns));
        },
        CellColor::Named(n) => {
            if n < 16 {
                lemma_listed_one(ns[0]);
                assert(ns =~= seq![ns[0]]);
            }
            assert(screen::color_params(c, fg) =~= listed(ns));
        },
    }
}

proof fn lemma_flag_listed(on: bool, s: Seq<char>, n: nat)
    requires
        n < 10,
        s == seq![';', decimal::digit_char(n)],
    ensures
        screen::flag_param(on, s) == listed(flag_numbers(on, n)),
{
    if on {
        lemma_listed_one(n);
        assert(s =~= seq![';'] + decimal::dec_digits(n));
    }
}

spec fn cell_numbers(cell: Cell) -> Seq<nat> {
    flag_numbers(cell.bold, 1) + flag_numbers(cell.dim, 2) + flag_numbers(cell.italic, 3) + flag_numbers(
        cell.underline,
        4,
    ) + flag_numbers(cell.inverse, 7) + color_numbers(cell.fg, true) + color_numbers(cell.bg, false)
}

proof fn lemma_sgr_listed(cell: Cell)
    ensures
        screen::sgr_of(cell) == seq!['\x1b', '['] + (decimal::dec_digits(0) + listed(cell_numbers(cell)))
            + seq!['m'],
{
    reveal_strlit("\x1b[0");
    reveal_strlit("m");
    reveal_strlit(";1");
    reveal_strlit(";2");
    reveal_strlit(";3");
    reveal_strlit(";4");
    reveal_strlit(";7");
    assert(";1"@ =~= seq![';', decimal::digit_char(1)]);
    assert(";2"@ =~= seq![';', decimal::digit_char(2)]);
    assert(";3"@ =~= seq![';', decimal::digit_char(3)]);
    assert(";4"@ =~= seq![';', decimal::digit_char(4)]);
    assert(";7"@ =~= seq![';', decimal::digit_char(7)]);
    lemma_flag_listed(cell.bold, ";1"@, 1);
    lemma_flag_listed(cell.dim, ";2"@, 2);
    lemma_flag_listed(cell.italic, ";3"@, 3);
    lemma_flag_listed(cell.underline, ";4"@, 4);
    lemma_flag_listed(cell.inverse, ";7"@, 7);
    lemma_color_listed(cell.fg, true);
    lemma_color_listed(cell.bg, false);
    let a = flag_numbers(cell.bold, 1);
    let b = a + flag_numbers(cell.dim, 2);
    let c = b + flag_numbers(cell.italic, 3);
    let d = c + flag_numbers(cell.underline, 4);
    let e = d + flag_numbers(cell.inverse, 7);
    let f = e + color_numbers(cell.fg, true);
    lemma_listed_add(a, flag_numbers(cell.dim, 2));
    lemma_listed_add(b, flag_numbers(cell.italic, 3));
    lemma_listed_add(c, flag_numbers(cell.underline, 4));
    lemma_listed_add(d, flag_numbers(cell.inverse, 7));
    lemma_listed_add(e, color_numbers(cell.fg, true));
    lemma_listed_add(f, color_numbers(cell.bg, false));
    assert("\x1b[0"@ =~= seq!['\x1b', '['] + decimal::dec_digits(0));
    assert("m"@ =~= seq!['m']);
    lemma_eight(
        seq!['\x1b', '['],
        decimal::dec_digits(0),
        listed(a),
        listed(flag_numbers(cell.dim, 2)),
        listed(flag_numbers(cell.italic, 3)),
        listed(flag_numbers(cell.underline, 4)),
        listed(flag_numbers(cell.inverse, 7)),
        listed(color_numbers(cell.fg, true)),
        listed(color_numbers(cell.bg, false)),
        seq!['m'],
    );
}

proof fn lemma_eight(
    h: Seq<char>,
    z: Seq<char>,
    a: Seq<char>,
    b: Seq<char>,
    c: Seq<char>,
    d: Seq<char>,
    e: Seq<char>,
    f: Seq<char>,
    g: Seq<char>,
    m: Seq<char>,
)
    ensures
        (h + z) + a + b + c + d + e + f + g + m == h + (z + (a + b + c + d + e + f + g)) + m,
{
    assert((h + z) + a + b + c + d + e + f + g + m =~= h + (z + (a + b + c + d + e + f + g)) + m);
}

proof fn lemma_graphic_flag(look: Look, on: bool, n: nat, rest: Seq<nat>)
    requires
        n == 1 || n == 2 || n == 3 || n == 4 || n == 7,
    ensures
        graphic(look, flag_numbers(on, n) + rest) == graphic(
            if on {
                graphic(look, seq![n])
            } else {
                look
            },
            rest,
        ),
{
    let ps = flag_numbers(on, n) + rest;
    if on {
        assert(ps.skip(1) =~= rest);
        assert(ps[0] == n);
        assert(seq![n].skip(1) =~= Seq::<nat>::empty());
        reveal_with_fuel(graphic, 2);
    } else {
        assert(ps =~= rest);
    }
}

proof fn lemma_graphic_color(look: Look, c: CellColor, fg: bool, rest: Seq<nat>)
    ensures
        graphic(look, color_numbers(c, fg) + rest) == graphic(
            if shade(c) is Some {
                colored(look, fg, Some(c))
            } else {
                look
            },
            rest,
        ),
{
    let ps = color_numbers(c, fg) + rest;
    match c {
        CellColor::Spec(r, g, b) => {
            assert(ps.skip(5) =~= rest);
            assert(ps[2] as u8 == r && ps[3] as u8 == g && ps[4] as u8 == b);
        },
        CellColor::Indexed(i) => {
            assert(ps.skip(3) =~= rest);
            assert(ps[1] == 5 && ps[2] as u8 == i);
        },
        CellColor::Named(n) => {
            if n < 16 {
                assert(ps.skip(1) =~= rest);
            } else {
                assert(ps =~= rest);
            }
        },
    }
}

proof fn lemma_flags_graphic(cell: Cell, f: Seq<nat>)
    ensures
        graphic(
            plain(),
            flag_numbers(cell.bold, 1) + (flag_numbers(cell.dim, 2) + (flag_numbers(cell.italic, 3) + (
            flag_numbers(cell.underline, 4) + (flag_numbers(cell.inverse, 7) + f)))),
        ) == graphic(Look { fg: None, bg: None, ..look_of(cell) }, f),
{
    let e = flag_numbers(cell.inverse, 7) + f;
    let d = flag_numbers(cell.underline, 4) + e;
    let c = flag_numbers(cell.italic, 3) + d;
    let b = flag_numbers(cell.dim, 2) + c;
    let l1 = Look { bold: cell.bold, ..plain() };
    let l2 = Look { dim: cell.dim, ..l1 };
    let l3 = Look { italic: cell.italic, ..l2 };
    let l4 = Look { underline: cell.underline, ..l3 };
    assert(graphic(plain(), flag_numbers(cell.bold, 1) + b) == graphic(l1, b)) by {
        lemma_graphic_flag(plain(), cell.bold, 1, b);
        lemma_one_flag(plain());
    }
    assert(graphic(l1, b) == graphic(l2, c)) by {
        lemma_graphic_flag(l1, cell.dim, 2, c);
        lemma_one_flag(l1);
    }
    assert(graphic(l2, c) == graphic(l3, d)) by {
        lemma_graphic_flag(l2, cell.italic, 3, d);
        lemma_one_flag(l2);
    }
    assert(graphic(l3, d) == graphic(l4, e)) by {
        lemma_graphic_flag(l3, cell.underline, 4, e);
        lemma_one_flag(l3);
    }
    lemma_graphic_flag(l4, cell.inverse, 7, f);
    lemma_one_flag(l4);
}

proof fn lemma_seven(
    a: Seq<nat>,
    b: Seq<nat>,
    c: Seq<nat>,
    d: Seq<nat>,
    e: Seq<nat>,
    f: Seq<nat>,
    g: Seq<nat>,
)
    ensures
        a + b + c + d + e + f + g == a + (b + (c + (d + (e + (f + g))))),
{
    assert(a + b + c + d + e + f + g =~= a + (b + (c + (d + (e + (f + g))))));
}

proof fn lemma_graphic_reset(look: Look, ns: Seq<nat>)
    ensures
        graphic(look, seq![0nat] + ns) == graphic(plain(), ns),
{
    assert((seq![0nat] + ns).skip(1) =~= ns);
    assert((seq![0nat] + ns)[0] == 0);
}

proof fn lemma_colors_graphic(l: Look, cell: Cell)
    requires
        l.fg is None,
        l.bg is None,
    ensures
        graphic(l, color_numbers(cell.fg, true) + color_numbers(cell.bg, false)) == (Look {
            fg: shade(cell.fg),
            bg: shade(cell.bg),
            ..l
        }),
{
    let g = color_numbers(cell.bg, false);
    lemma_graphic_color(l, cell.fg, true, g);
    let m = Look { fg: shade(cell.fg), ..l };
    assert(g + Seq::<nat>::empty() =~= g);
    lemma_graphic_color(m, cell.bg, false, Seq::empty());
}

proof fn lemma_cell_graphic(look: Look, cell: Cell)
    ensures
        graphic(look, seq![0nat] + cell_numbers(cell)) == look_of(cell),
{
    let l = Look { fg: None, bg: None, ..look_of(cell) };
    let f = color_numbers(cell.fg, true) + color_numbers(cell.bg, false);
    lemma_graphic_reset(look, cell_numbers(cell));
    lemma_seven(
        flag_numbers(cell.bold, 1),
        flag_numbers(cell.dim, 2),
        flag_numbers(cell.italic, 3),
        flag_numbers(cell.underline, 4),
        flag_numbers(cell.inverse, 7),
        color_numbers(cell.fg, true),
        color_numbers(cell.bg, false),
    );
    lemma_flags_graphic(cell, f);
    lemma_colors_graphic(l, cell);
}

proof fn lemma_one_flag(l: Look)
    ensures
        graphic(l, seq![1nat]) == (Look { bold: true, ..l }),
        graphic(l, seq![2nat]) == (Look { dim: true, ..l }),
        graphic(l, seq![3nat]) == (Look { italic: true, ..l }),
        graphic(l, seq![4nat]) == (Look { underline: true, ..l }),
        graphic(l, seq![7nat]) == (Look { inverse: true, ..l }),
{
    assert(forall|n: nat| (#[trigger] seq![n]).skip(1) =~= Seq::<nat>::empty());
    assert(seq![1nat].skip(1).len() == 0);
    assert(seq![2nat].skip(1).len() == 0);
    assert(seq![3nat].skip(1).len() == 0);
    assert(seq![4nat].skip(1).len() == 0);
    assert(seq![7nat].skip(1).len() == 0);
    reveal_with_fuel(graphic, 2);
}

/// A terminal in whatever state that reads the sequence for a cell ends with exactly
/// that cell's foreground, background and attributes, and nothing else of it changes.
pub proof fn law_sequence_sets_the_look(t: Terminal, cell: Cell, rest: Seq<char>)
    ensures
        read(t, screen::sgr_of(cell)) == (Terminal { look: look_of(cell), ..t }),
        read(t, screen::sgr_of(cell) + rest) == read(Terminal { look: look_of(cell), ..t }, rest),
{
    lemma_sgr_listed(cell);
    lemma_listed_params(0, cell_numbers(cell));
    lemma_cell_graphic(t.look, cell);
    let p = decimal::dec_digits(0) + listed(cell_numbers(cell));
    lemma_read_control(t, p, 'm', rest);
    lemma_read_control(t, p, 'm', Seq::empty());
    lemma_read_end(obey(t, p, 'm'));
    assert(screen::sgr_of(cell) =~= seq!['\x1b', '['] + p + seq!['m'] + Seq::<char>::empty());
}

/// Cells with the same sequence look the same: no two looks share a sequence.
pub proof fn law_looks_have_their_own_sequence(a: Cell, b: Cell)
    requires
        screen::sgr_of(a) == screen::sgr_of(b),
    ensures
        look_of(a) == look_of(b),
{
    let t = Terminal {
        look: plain(),
        row: 1,
        col: 1,
        cells: Map::empty(),
        saved: (1, 1, plain()),
        region: None,
        held: false,
        wide: Set::empty(),
    };
    law_sequence_sets_the_look(t, a, Seq::empty());
    law_sequence_sets_the_look(t, b, Seq::empty());
}

// ── Painted rows ────────────────────────────────────────────────────────────

/// Whether a row's cells can stand on a terminal: no control characters; the second
/// half of a wide character behind it and nowhere else; and cells of one style have
/// the same attributes.
pub open spec fn laid_out(cells: Seq<Cell>, wide: Set<char>) -> bool {
    &&& forall|i: int| 0 <= i < cells.len() ==> is_shown((#[trigger] cells[i]).c)
    &&& forall|i: int|
        0 <= i < cells.len() ==> ((#[trigger] cells[i]).spacer <==> i > 0 && !cells[i - 1].spacer
            && wide.contains(cells[i - 1].c))
    &&& cells.len() > 0 ==> cells.last().spacer || !wide.contains(cells.last().c)
    &&& forall|i: int, j: int|
        0 <= i < cells.len() && 0 <= j < cells.len() && (#[trigger] cells[i]).style == (
        #[trigger] cells[j]).style ==> attributes(cells[i]) == attributes(cells[j])
}

/// The attributes of a cell besides its colours.
pub open spec fn attributes(cell: Cell) -> (bool, bool, bool, bool, bool) {
    (cell.bold, cell.dim, cell.italic, cell.underline, cell.inverse)
}

/// Whether a row of a terminal shows these cells, each character with its own look,
/// and nothing to the right of them.
pub open spec fn shows_row(t: Terminal, row: int, cells: Seq<Cell>) -> bool {
    &&& forall|j: int|
        0 <= j < cells.len() && !(#[trigger] cells[j]).spacer ==> t.cells.dom().contains((row, j + 1))
            && t.cells[(row, j + 1)] == (look_of(cells[j]), cells[j].c)
    &&& forall|c: int| c > cells.len() ==> !(#[trigger] t.cells.dom().contains((row, c)))
}

/// Whether a place of the screen is the same on two terminals.
pub open spec fn same_at(a: Terminal, b: Terminal, at: (int, int)) -> bool {
    a.cells.dom().contains(at) == b.cells.dom().contains(at) && (a.cells.dom().contains(at)
        ==> a.cells[at] == b.cells[at])
}

/// Whether a row is the same on two terminals.
pub open spec fn same_row(a: Terminal, b: Terminal, row: int) -> bool {
    forall|c: int| #[trigger] same_at(a, b, (row, c))
}

/// The terminal after some cells, each shown with its own look.
spec fn painted(t: Terminal, cells: Seq<Cell>) -> Terminal
    decreases cells.len(),
{
    if cells.len() == 0 {
        t
    } else if cells[0].spacer {
        painted(t, cells.skip(1))
    } else {
        painted(shown(Terminal { look: look_of(cells[0]), ..t }, cells[0].c), cells.skip(1))
    }
}

proof fn lemma_cells_step(now: Seq<Cell>, prev: Option<Cell>, rest: Seq<char>)
    requires
        now.len() > 0,
        !now[0].spacer,
    ensures
        screen::cells_text(now, prev) + rest == (if prev is Some && screen::same_look(prev->0, now[0]) {
            Seq::empty()
        } else {
            screen::sgr_of(now[0])
        }) + (seq![now[0].c] + (screen::cells_text(now.skip(1), Some(now[0])) + rest)),
{
    let head = if prev is Some && screen::same_look(prev->0, now[0]) {
        Seq::empty()
    } else {
        screen::sgr_of(now[0])
    };
    assert(head + seq![now[0].c] + screen::cells_text(now.skip(1), Some(now[0])) + rest =~= head + (
    seq![now[0].c] + (screen::cells_text(now.skip(1), Some(now[0])) + rest)));
}

proof fn lemma_read_cells(t: Terminal, cells: Seq<Cell>, k: int, prev: Option<Cell>, rest: Seq<char>)
    requires
        laid_out(cells, t.wide),
        0 <= k <= cells.len(),
        prev matches Some(p) ==> t.look == look_of(p) && exists|i: int|
            0 <= i < cells.len() && #[trigger] cells[i] == p,
    ensures
        read(t, screen::cells_text(cells.skip(k), prev) + rest) == read(
            painted(t, cells.skip(k)),
            rest,
        ),
    decreases cells.len() - k,
{
    let now = cells.skip(k);
    if k == cells.len() {
        assert(screen::cells_text(now, prev) + rest =~= rest);
    } else {
        assert(now[0] == cells[k]);
        assert(now.skip(1) =~= cells.skip(k + 1));
        if cells[k].spacer {
            lemma_read_cells(t, cells, k + 1, prev, rest);
        } else {
            let u = Terminal { look: look_of(cells[k]), ..t };
            let tail = screen::cells_text(cells.skip(k + 1), Some(cells[k])) + rest;
            let after = seq![cells[k].c] + tail;
            lemma_cells_step(now, prev, rest);
            if prev is Some && screen::same_look(prev->0, cells[k]) {
                assert(attributes(prev->0) == attributes(cells[k]));
                assert(t.look == look_of(cells[k]));
                assert(u == t);
                assert(Seq::<char>::empty() + after =~= after);
            } else {
                law_sequence_sets_the_look(t, cells[k], after);
            }
            lemma_read_char(u, cells[k].c, tail);
            lemma_read_cells(shown(u, cells[k].c), cells, k + 1, Some(cells[k]), rest);
        }
    }
}

#[verifier::rlimit(40)]
proof fn lemma_painted(t: Terminal, cells: Seq<Cell>, k: int)
    requires
        laid_out(cells, t.wide),
        0 <= k <= cells.len(),
        t.col == if k < cells.len() && cells[k].spacer {
            k + 2
        } else {
            k + 1
        },
    ensures
        ({
            let u = painted(t, cells.skip(k));
            &&& u.row == t.row && u.col == cells.len() + 1
            &&& u.saved == t.saved && u.region == t.region && u.held == t.held && u.wide == t.wide
            &&& forall|j: int|
                k <= j < cells.len() && !(#[trigger] cells[j]).spacer ==> u.cells.dom().contains(
                    (t.row, j + 1),
                ) && u.cells[(t.row, j + 1)] == (look_of(cells[j]), cells[j].c)
            &&& forall|at: (int, int)|
                at.0 != t.row || at.1 <= k || at.1 > cells.len() ==> #[trigger] same_at(u, t, at)
        }),
    decreases cells.len() - k,
{
    let now = cells.skip(k);
    if k < cells.len() {
        assert(now[0] == cells[k]);
        assert(now.skip(1) =~= cells.skip(k + 1));
        if cells[k].spacer {
            assert(k > 0);
            if k + 1 < cells.len() {
                assert(!cells[k + 1].spacer);
            }
            lemma_painted(t, cells, k + 1);
        } else {
            let u = shown(Terminal { look: look_of(cells[k]), ..t }, cells[k].c);
            if k + 1 < cells.len() {
                assert(cells[k + 1].spacer <==> t.wide.contains(cells[k].c));
            } else {
                assert(cells.last() == cells[k]);
            }
            lemma_painted(u, cells, k + 1);
            let v = painted(u, cells.skip(k + 1));
            assert(same_at(v, u, (t.row, k + 1)));
            assert forall|at: (int, int)|
                at.0 != t.row || at.1 <= k || at.1 > cells.len() implies #[trigger] same_at(v, t, at) by {
                assert(same_at(v, u, at));
            }
        }
    }
}

/// The terminal after a painted row.
#[verifier::opaque]
spec fn after_row(t: Terminal, cells: Seq<Cell>, row: nat) -> Terminal {
    let at = Terminal { row: row as int, col: 1, ..t };
    obey(Terminal { look: plain(), ..painted(at, cells) }, Seq::empty(), 'K')
}

/// A control sequence with one number.
proof fn lemma_read_number(t: Terminal, n: nat, last: char, rest: Seq<char>)
    requires
        !is_param(last),
    ensures
        read(t, seq!['\x1b', '['] + decimal::dec_digits(n) + seq![last] + rest) == read(
            obey(t, decimal::dec_digits(n), last),
            rest,
        ),
        numbers(decimal::dec_digits(n)) == seq![n],
        decimal::dec_digits(n).len() > 0,
{
    lemma_listed_params(n, Seq::empty());
    decimal::lemma_dec_digits(n);
    let p = decimal::dec_digits(n);
    assert(p + listed(Seq::empty()) =~= p);
    assert(seq![n] + Seq::<nat>::empty() =~= seq![n]);
    lemma_read_control(t, p, last, rest);
}

/// A control sequence with two numbers.
proof fn lemma_read_pair(t: Terminal, a: nat, b: nat, last: char, rest: Seq<char>)
    requires
        !is_param(last),
    ensures
        read(
            t,
            seq!['\x1b', '['] + (decimal::dec_digits(a) + seq![';'] + decimal::dec_digits(b)) + seq![last]
                + rest,
        ) == read(obey(t, decimal::dec_digits(a) + seq![';'] + decimal::dec_digits(b), last), rest),
        numbers(decimal::dec_digits(a) + seq![';'] + decimal::dec_digits(b)) == seq![a, b],
{
    lemma_listed_params(a, seq![b]);
    lemma_listed_one(b);
    let p = decimal::dec_digits(a) + seq![';'] + decimal::dec_digits(b);
    assert(p =~= decimal::dec_digits(a) + listed(seq![b]));
    assert(seq![a] + seq![b] =~= seq![a, b]);
    lemma_read_control(t, p, last, rest);
}

/// The cursor is put at a place.
proof fn lemma_read_move(t: Terminal, row: nat, col: nat, rest: Seq<char>)
    ensures
        read(
            t,
            seq!['\x1b', '['] + (decimal::dec_digits(row) + seq![';'] + decimal::dec_digits(col)) + seq!['H']
                + rest,
        ) == read(Terminal { row: row as int, col: col as int, ..t }, rest),
{
    lemma_read_pair(t, row, col, 'H', rest);
}

/// The look is reset.
proof fn lemma_read_reset(t: Terminal, rest: Seq<char>)
    ensures
        read(t, "\x1b[0m"@ + rest) == read(Terminal { look: plain(), ..t }, rest),
{
    reveal_strlit("\x1b[0m");
    lemma_read_number(t, 0, 'm', rest);
    assert("\x1b[0m"@ =~= seq!['\x1b', '['] + decimal::dec_digits(0) + seq!['m']);
    assert(seq![0nat] + Seq::<nat>::empty() =~= seq![0nat]);
    lemma_graphic_reset(t.look, Seq::empty());
}

/// The rest of the row is erased.
proof fn lemma_read_erase(t: Terminal, rest: Seq<char>)
    ensures
        read(t, "\x1b[K"@ + rest) == read(obey(t, Seq::empty(), 'K'), rest),
{
    reveal_strlit("\x1b[K");
    lemma_read_control(t, Seq::empty(), 'K', rest);
    assert("\x1b[K"@ =~= seq!['\x1b', '['] + Seq::<char>::empty() + seq!['K']);
}

proof fn lemma_row_parts(cells: Seq<Cell>, row: nat, rest: Seq<char>)
    ensures
        screen::line_text(cells, row) + rest == seq!['\x1b', '['] + (decimal::dec_digits(row) + seq![';']
            + decimal::dec_digits(1)) + seq!['H'] + (screen::cells_text(cells, None) + ("\x1b[0m"@ + (
        "\x1b[K"@ + rest))),
{
    reveal_strlit("\x1b[");
    reveal_strlit(";1H");
    reveal_strlit("\x1b[0m");
    reveal_strlit("\x1b[K");
    reveal_strlit("\x1b[0m\x1b[K");
    assert(decimal::dec_digits(1) =~= seq!['1']);
    assert("\x1b["@ =~= seq!['\x1b', '[']);
    let d = decimal::dec_digits(row);
    let one = decimal::dec_digits(1);
    let c = screen::cells_text(cells, None);
    assert(";1H"@ =~= seq![';'] + one + seq!['H']);
    assert("\x1b[0m\x1b[K"@ =~= "\x1b[0m"@ + "\x1b[K"@);
    lemma_regroup(seq!['\x1b', '['], d, seq![';'], one, seq!['H'], c, "\x1b[0m"@, "\x1b[K"@, rest);
}

proof fn lemma_regroup(
    h: Seq<char>,
    d: Seq<char>,
    s: Seq<char>,
    o: Seq<char>,
    l: Seq<char>,
    c: Seq<char>,
    m: Seq<char>,
    k: Seq<char>,
    rest: Seq<char>,
)
    ensures
        h + d + (s + o + l) + c + (m + k) + rest == h + (d + s + o) + l + (c + (m + (k + rest))),
{
    assert(h + d + (s + o + l) + c + (m + k) + rest =~= h + (d + s + o) + l + (c + (m + (k + rest))));
}

proof fn lemma_read_row(t: Terminal, cells: Seq<Cell>, row: nat, rest: Seq<char>)
    requires
        laid_out(cells, t.wide),
    ensures
        read(t, screen::line_text(cells, row) + rest) == read(after_row(t, cells, row), rest),
{
    reveal(after_row);
    let at = Terminal { row: row as int, col: 1, ..t };
    let end = "\x1b[0m"@ + ("\x1b[K"@ + rest);
    lemma_row_parts(cells, row, rest);
    lemma_read_move(t, row, 1, screen::cells_text(cells, None) + end);
    assert(cells.skip(0) =~= cells);
    lemma_read_cells(at, cells, 0, None, end);
    let p = painted(at, cells);
    lemma_read_reset(p, "\x1b[K"@ + rest);
    lemma_read_erase(Terminal { look: plain(), ..p }, rest);
}

proof fn lemma_after_row(t: Terminal, cells: Seq<Cell>, row: nat)
    requires
        laid_out(cells, t.wide),
    ensures
        ({
            let u = after_row(t, cells, row);
            &&& shows_row(u, row as int, cells)
            &&& forall|r: int| r != row ==> #[trigger] same_row(u, t, r)
            &&& u.look == plain()
            &&& u.saved == t.saved && u.region == t.region && u.held == t.held && u.wide == t.wide
        }),
{
    reveal(after_row);
    let at = Terminal { row: row as int, col: 1, ..t };
    let u = after_row(t, cells, row);
    assert(cells.skip(0) =~= cells);
    lemma_painted(at, cells, 0);
    let p = painted(at, cells);
    assert forall|r: int| r != row implies #[trigger] same_row(u, t, r) by {
        assert forall|c: int| #[trigger] same_at(u, t, (r, c)) by {
            assert(same_at(p, at, (r, c)));
        }
    }
}

/// A painted row is what the terminal shows after it: each character of the row in
/// its column with its own colours and attributes, and nothing behind the last, at
/// whatever place and with whatever look the terminal was before. No other row
/// changes, and what is written next has no attributes left.
pub proof fn law_row_is_shown(t: Terminal, cells: Seq<Cell>, row: nat)
    requires
        laid_out(cells, t.wide),
    ensures
        ({
            let u = read(t, screen::line_text(cells, row));
            &&& shows_row(u, row as int, cells)
            &&& forall|r: int| r != row ==> #[trigger] same_row(u, t, r)
            &&& u.look == plain()
            &&& u.saved == t.saved && u.region == t.region && u.held == t.held
        }),
{
    lemma_read_row(t, cells, row, Seq::empty());
    lemma_after_row(t, cells, row);
    assert(screen::line_text(cells, row) + Seq::<char>::empty() =~= screen::line_text(cells, row));
    lemma_read_end(after_row(t, cells, row));
}

/// The terminal after several painted rows.
spec fn after_rows(t: Terminal, on: Screen, lines: Seq<usize>, top: u16) -> Terminal
    decreases lines.len(),
{
    if lines.len() == 0 {
        t
    } else {
        after_row(
            after_rows(t, on, lines.drop_last(), top),
            on.row(lines.last() as int),
            (top + lines.last()) as nat,
        )
    }
}

/// Whether all rows of a screen can stand on a terminal.
pub open spec fn all_laid_out(on: Screen, wide: Set<char>) -> bool {
    forall|i: int| 0 <= i < on.rows@.len() ==> laid_out(#[trigger] on.row(i), wide)
}

/// Whether these are rows of the screen.
pub open spec fn on_screen(on: Screen, lines: Seq<usize>) -> bool {
    forall|i: int| 0 <= i < lines.len() ==> (#[trigger] lines[i]) < on.rows@.len()
}

proof fn lemma_assoc(a: Seq<char>, b: Seq<char>, c: Seq<char>)
    ensures
        a + b + c == a + (b + c),
{
    assert(a + b + c =~= a + (b + c));
}

proof fn lemma_read_rows(t: Terminal, on: Screen, lines: Seq<usize>, top: u16, rest: Seq<char>)
    requires
        all_laid_out(on, t.wide),
        on_screen(on, lines),
    ensures
        read(t, screen::lines_text(on, lines, top) + rest) == read(after_rows(t, on, lines, top), rest),
        after_rows(t, on, lines, top).wide == t.wide,
        after_rows(t, on, lines, top).saved == t.saved,
        after_rows(t, on, lines, top).region == t.region,
        after_rows(t, on, lines, top).held == t.held,
        lines.len() == 0 ==> after_rows(t, on, lines, top).look == t.look,
        lines.len() > 0 ==> after_rows(t, on, lines, top).look == plain(),
    decreases lines.len(),
{
    if lines.len() == 0 {
        assert(screen::lines_text(on, lines, top) + rest =~= rest);
    } else {
        let dl = lines.drop_last();
        let l = lines.last();
        let text = screen::line_text(on.row(l as int), (top + l) as nat);
        assert(on_screen(on, dl)) by {
            assert forall|i: int| 0 <= i < dl.len() implies (#[trigger] dl[i]) < on.rows@.len() by {
                assert(dl[i] == lines[i]);
            }
        }
        assert(l == lines[lines.len() - 1]);
        lemma_read_rows(t, on, dl, top, text + rest);
        lemma_assoc(screen::lines_text(on, dl, top), text, rest);
        lemma_read_row(after_rows(t, on, dl, top), on.row(l as int), (top + l) as nat, rest);
        lemma_after_row(after_rows(t, on, dl, top), on.row(l as int), (top + l) as nat);
    }
}

proof fn lemma_after_rows(t: Terminal, on: Screen, lines: Seq<usize>, top: u16)
    requires
        all_laid_out(on, t.wide),
        on_screen(on, lines),
    ensures
        ({
            let u = after_rows(t, on, lines, top);
            &&& forall|i: int|
                0 <= i < lines.len() ==> shows_row(u, top + #[trigger] lines[i], on.row(lines[i] as int))
            &&& forall|r: int|
                (forall|i: int| 0 <= i < lines.len() ==> r != top + #[trigger] lines[i])
                    ==> #[trigger] same_row(u, t, r)
        }),
    decreases lines.len(),
{
    let u = after_rows(t, on, lines, top);
    if lines.len() == 0 {
        assert forall|r: int| #[trigger] same_row(u, t, r) by {}
    } else {
        let dl = lines.drop_last();
        let l = lines.last();
        let v = after_rows(t, on, dl, top);
        assert(on_screen(on, dl)) by {
            assert forall|i: int| 0 <= i < dl.len() implies (#[trigger] dl[i]) < on.rows@.len() by {
                assert(dl[i] == lines[i]);
            }
        }
        assert(l == lines[lines.len() - 1]);
        lemma_after_rows(t, on, dl, top);
        lemma_read_rows(t, on, dl, top, Seq::empty());
        lemma_after_row(v, on.row(l as int), (top + l) as nat);
        assert forall|i: int| 0 <= i < lines.len() implies shows_row(
            u,
            top + #[trigger] lines[i],
            on.row(lines[i] as int),
        ) by {
            if lines[i] != l {
                let r = top + lines[i];
                assert(dl[i] == lines[i]);
                assert(shows_row(v, r, on.row(lines[i] as int)));
                assert(same_row(u, v, r));
                let cells = on.row(lines[i] as int);
                assert forall|j: int|
                    0 <= j < cells.len() && !(#[trigger] cells[j]).spacer implies u.cells.dom().contains(
                    (r, j + 1),
                ) && u.cells[(r, j + 1)] == (look_of(cells[j]), cells[j].c) by {
                    assert(same_at(u, v, (r, j + 1)));
                }
                assert forall|c: int| c > cells.len() implies !(#[trigger] u.cells.dom().contains((r, c))) by {
                    assert(same_at(u, v, (r, c)));
                    assert(!v.cells.dom().contains((r, c)));
                }
            }
        }
        assert forall|r: int|
            (forall|i: int| 0 <= i < lines.len() ==> r != top + #[trigger] lines[i]) implies #[trigger] same_row(
            u,
            t,
            r,
        ) by {
            assert(r != top + lines[lines.len() - 1]);
            assert(same_row(u, v, r));
            assert forall|i: int| 0 <= i < dl.len() implies r != top + #[trigger] dl[i] by {
                assert(dl[i] == lines[i]);
            }
            assert(same_row(v, t, r));
            assert forall|c: int| #[trigger] same_at(u, t, (r, c)) by {
                assert(same_at(u, v, (r, c)));
                assert(same_at(v, t, (r, c)));
            }
        }
    }
}

/// After some rows of a screen are painted, each of them stands `top` rows further
/// down on the terminal, as it is on the screen, and no other row of the terminal has
/// changed.
pub proof fn law_rows_are_shown(t: Terminal, on: Screen, lines: Seq<usize>, top: u16)
    requires
        all_laid_out(on, t.wide),
        on_screen(on, lines),
    ensures
        ({
            let u = read(t, screen::lines_text(on, lines, top));
            &&& forall|i: int|
                0 <= i < lines.len() ==> shows_row(u, top + #[trigger] lines[i], on.row(lines[i] as int))
            &&& forall|r: int|
                (forall|i: int| 0 <= i < lines.len() ==> r != top + #[trigger] lines[i])
                    ==> #[trigger] same_row(u, t, r)
        }),
{
    lemma_read_rows(t, on, lines, top, Seq::empty());
    lemma_after_rows(t, on, lines, top);
    assert(screen::lines_text(on, lines, top) + Seq::<char>::empty() =~= screen::lines_text(on, lines, top));
    lemma_read_end(after_rows(t, on, lines, top));
}

// ── Plain text ──────────────────────────────────────────────────────────────

/// Whether a text is shown character by character, one column each.
pub open spec fn is_plain(s: Seq<char>, wide: Set<char>) -> bool {
    forall|i: int| 0 <= i < s.len() ==> is_shown(#[trigger] s[i]) && !wide.contains(s[i])
}

/// The terminal after a plain text.
spec fn typed(t: Terminal, s: Seq<char>) -> Terminal
    decreases s.len(),
{
    if s.len() == 0 {
        t
    } else {
        typed(shown(t, s[0]), s.skip(1))
    }
}

proof fn lemma_typed(t: Terminal, s: Seq<char>, rest: Seq<char>)
    requires
        is_plain(s, t.wide),
    ensures
        read(t, s + rest) == read(typed(t, s), rest),
        ({
            let u = typed(t, s);
            &&& u == (Terminal { col: t.col + s.len(), cells: u.cells, ..t })
            &&& forall|j: int|
                0 <= j < s.len() ==> u.cells.dom().contains((t.row, t.col + j)) && #[trigger] s[j] == s[j]
                    && u.cells[(t.row, t.col + j)] == (t.look, s[j])
            &&& forall|at: (int, int)|
                at.0 != t.row || at.1 < t.col || at.1 >= t.col + s.len() ==> #[trigger] same_at(u, t, at)
        }),
    decreases s.len(),
{
    if s.len() == 0 {
        assert(s + rest =~= rest);
    } else {
        let one = shown(t, s[0]);
        let more = s.skip(1);
        assert(is_plain(more, t.wide)) by {
            assert forall|i: int| 0 <= i < more.len() implies is_shown(#[trigger] more[i])
                && !t.wide.contains(more[i]) by {
                assert(more[i] == s[i + 1]);
            }
        }
        assert(is_shown(s[0]) && !t.wide.contains(s[0]));
        assert(s + rest =~= seq![s[0]] + (more + rest));
        lemma_read_char(t, s[0], more + rest);
        lemma_typed(one, more, rest);
        let u = typed(one, more);
        assert(u == typed(t, s));
        assert forall|j: int| 0 <= j < s.len() implies u.cells.dom().contains((t.row, t.col + j))
            && #[trigger] s[j] == s[j] && u.cells[(t.row, t.col + j)] == (t.look, s[j]) by {
            if j > 0 {
                assert(s[j] == more[j - 1]);
                assert(t.col + j == one.col + (j - 1));
            } else {
                assert(same_at(u, one, (t.row, t.col)));
            }
        }
        assert forall|at: (int, int)|
            at.0 != t.row || at.1 < t.col || at.1 >= t.col + s.len() implies #[trigger] same_at(u, t, at) by {
            assert(same_at(u, one, at));
        }
    }
}

/// Whether the row from `col` on shows a text in one look.
pub open spec fn shows_text(t: Terminal, row: int, col: int, s: Seq<char>, look: Look) -> bool {
    forall|j: int|
        0 <= j < s.len() ==> t.cells.dom().contains((row, col + j)) && t.cells[(row, col + j)] == (
            look,
            #[trigger] s[j],
        )
}

// ── The bar ─────────────────────────────────────────────────────────────────

/// The text of a bar.
pub open spec fn bar_text(b: bar::BarView, secs: nat, now: Span) -> Seq<char> {
    bar::fitted(
        bar::bar_label(
            secs,
            b.cwd_disp,
            b.git,
            bar::status_text(b.running, b.last_exit, bar::shown_dur(b, now)),
            b.host,
            b.debug,
        ),
        b.cols as nat,
    )
}

/// The terminal after the bar.
spec fn after_bar(t: Terminal, b: bar::BarView, secs: nat, now: Span) -> Terminal {
    if b.cols == 0 {
        t
    } else {
        let at = Terminal {
            saved: (t.row, t.col, t.look),
            row: 1,
            col: 1,
            look: Look { inverse: true, ..t.look },
            ..t
        };
        Terminal { cells: typed(at, bar_text(b, secs, now)).cells, saved: (t.row, t.col, t.look), ..t }
    }
}

proof fn lemma_read_bar(t: Terminal, b: bar::BarView, secs: nat, now: Span, rest: Seq<char>)
    requires
        is_plain(bar_text(b, secs, now), t.wide),
    ensures
        read(t, bar::bar_paint(b, secs, now) + rest) == read(after_bar(t, b, secs, now), rest),
{
    let paint = bar::bar_paint(b, secs, now);
    if b.cols == 0 {
        assert(paint + rest =~= rest);
    } else {
        reveal_strlit("\x1b7\x1b[1;1H\x1b[7m");
        reveal_strlit("\x1b[0m\x1b8");
        reveal_strlit("\x1b[0m");
        let text = bar_text(b, secs, now);
        let one = decimal::dec_digits(1);
        let seven = decimal::dec_digits(7);
        assert(one =~= seq!['1']);
        assert(seven =~= seq!['7']);
        let a = seq!['\x1b', '['] + (one + seq![';'] + one) + seq!['H'];
        let c = seq!['\x1b', '['] + seven + seq!['m'];
        let end = seq!['\x1b', '8'] + rest;
        let last = "\x1b[0m"@ + end;
        let body = text + last;
        assert("\x1b7\x1b[1;1H\x1b[7m"@ =~= seq!['\x1b', '7'] + (a + c));
        assert("\x1b[0m\x1b8"@ =~= "\x1b[0m"@ + seq!['\x1b', '8']);
        lemma_bar_parts(a, c, text, "\x1b[0m"@, rest);
        assert(paint + rest == seq!['\x1b', '7'] + (a + (c + body)));
        let t1 = Terminal { saved: (t.row, t.col, t.look), ..t };
        lemma_read_escape(t, '7', a + (c + body));
        let t2 = Terminal { row: 1, col: 1, ..t1 };
        lemma_read_move(t1, 1, 1, c + body);
        lemma_read_number(t2, 7, 'm', body);
        lemma_one_flag(t2.look);
        let t3 = Terminal { look: Look { inverse: true, ..t.look }, ..t2 };
        lemma_typed(t3, text, last);
        let t4 = typed(t3, text);
        lemma_read_reset(t4, end);
        lemma_read_escape(Terminal { look: plain(), ..t4 }, '8', rest);
    }
}

proof fn lemma_bar_parts(a: Seq<char>, c: Seq<char>, s: Seq<char>, m: Seq<char>, rest: Seq<char>)
    ensures
        seq!['\x1b', '7'] + (a + c) + s + (m + seq!['\x1b', '8']) + rest == seq!['\x1b', '7'] + (a + (c + (s
            + (m + (seq!['\x1b', '8'] + rest))))),
{
    assert(seq!['\x1b', '7'] + (a + c) + s + (m + seq!['\x1b', '8']) + rest =~= seq!['\x1b', '7'] + (a + (c
        + (s + (m + (seq!['\x1b', '8'] + rest))))));
}

proof fn lemma_after_bar(t: Terminal, b: bar::BarView, secs: nat, now: Span)
    requires
        is_plain(bar_text(b, secs, now), t.wide),
        b.cols > 0,
    ensures
        ({
            let u = after_bar(t, b, secs, now);
            &&& bar_text(b, secs, now).len() == b.cols
            &&& shows_text(u, 1, 1, bar_text(b, secs, now), Look { inverse: true, ..t.look })
            &&& forall|r: int| r != 1 ==> #[trigger] same_row(u, t, r)
            &&& u == (Terminal { cells: u.cells, saved: (t.row, t.col, t.look), ..t })
        }),
{
    let text = bar_text(b, secs, now);
    let u = after_bar(t, b, secs, now);
    let at = Terminal {
        saved: (t.row, t.col, t.look),
        row: 1,
        col: 1,
        look: Look { inverse: true, ..t.look },
        ..t
    };
    lemma_typed(at, text, Seq::empty());
    let v = typed(at, text);
    assert forall|j: int| 0 <= j < text.len() implies u.cells.dom().contains((1int, 1 + j)) && u.cells[(
        1int,
        1 + j,
    )] == (at.look, #[trigger] text[j]) by {
        assert(text[j] == text[j]);
        assert(v.cells.dom().contains((at.row, at.col + j)));
    }
    assert forall|r: int| r != 1 implies #[trigger] same_row(u, t, r) by {
        assert forall|c: int| #[trigger] same_at(u, t, (r, c)) by {
            assert(same_at(v, at, (r, c)));
        }
    }
}

/// Painting the bar puts its text on row one in reverse video, over the whole width,
/// and leaves every other row, the cursor and the look as they were.
pub proof fn law_bar_is_shown(t: Terminal, b: bar::BarView, secs: nat, now: Span)
    requires
        is_plain(bar_text(b, secs, now), t.wide),
    ensures
        ({
            let u = read(t, bar::bar_paint(b, secs, now));
            &&& b.cols > 0 ==> bar_text(b, secs, now).len() == b.cols && shows_text(
                u,
                1,
                1,
                bar_text(b, secs, now),
                Look { inverse: true, ..t.look },
            )
            &&& forall|r: int| r != 1 ==> #[trigger] same_row(u, t, r)
            &&& u.row == t.row && u.col == t.col && u.look == t.look
            &&& b.cols == 0 ==> u == t
        }),
{
    lemma_read_bar(t, b, secs, now, Seq::empty());
    let paint = bar::bar_paint(b, secs, now);
    assert(paint + Seq::<char>::empty() =~= paint);
    lemma_read_end(after_bar(t, b, secs, now));
    if b.cols > 0 {
        lemma_after_bar(t, b, secs, now);
    } else {
        assert forall|r: int| r != 1 implies #[trigger] same_row(t, t, r) by {}
    }
}

/// The terminal after a composed frame.
spec fn after_frame(t: Terminal, b: bar::BarView, on: Screen, lines: Seq<usize>, secs: nat, now: Span) -> Terminal {
    let painted = after_rows(after_bar(Terminal { held: true, ..t }, b, secs, now), on, lines, 2);
    Terminal { held: false, row: on.cursor_row + 2, col: on.cursor_col + 1, ..painted }
}

proof fn lemma_read_hold(t: Terminal, rest: Seq<char>)
    ensures
        read(t, "\x1b[?2026h"@ + rest) == read(Terminal { held: true, ..t }, rest),
        read(t, "\x1b[?2026l"@ + rest) == read(Terminal { held: false, ..t }, rest),
{
    reveal_strlit("\x1b[?2026h");
    reveal_strlit("\x1b[?2026l");
    reveal_strlit("?2026");
    assert("\x1b[?2026h"@ =~= seq!['\x1b', '['] + "?2026"@ + seq!['h']);
    assert("\x1b[?2026l"@ =~= seq!['\x1b', '['] + "?2026"@ + seq!['l']);
    lemma_read_control(t, "?2026"@, 'h', rest);
    lemma_read_control(t, "?2026"@, 'l', rest);
}

proof fn lemma_frame_text(b: bar::BarView, on: Screen, lines: Seq<usize>, secs: nat, now: Span)
    ensures
        session::frame_text(b, on, lines, secs, now) == "\x1b[?2026h"@ + (bar::bar_paint(b, secs, now) + (
        screen::lines_text(on, lines, 2) + (seq!['\x1b', '['] + (decimal::dec_digits(
            (on.cursor_row + 2) as nat,
        ) + seq![';'] + decimal::dec_digits((on.cursor_col + 1) as nat)) + seq!['H'] + ("\x1b[?2026l"@
            + Seq::<char>::empty())))),
{
    reveal_strlit("\x1b[");
    reveal_strlit(";");
    reveal_strlit("H\x1b[?2026l");
    reveal_strlit("\x1b[?2026l");
    assert("H\x1b[?2026l"@ =~= seq!['H'] + "\x1b[?2026l"@);
    assert("\x1b["@ =~= seq!['\x1b', '[']);
    assert(";"@ =~= seq![';']);
    lemma_frame_parts(
        "\x1b[?2026h"@,
        bar::bar_paint(b, secs, now),
        screen::lines_text(on, lines, 2),
        seq!['\x1b', '['],
        decimal::dec_digits((on.cursor_row + 2) as nat),
        seq![';'],
        decimal::dec_digits((on.cursor_col + 1) as nat),
        seq!['H'],
        "\x1b[?2026l"@,
    );
}

proof fn lemma_read_frame(
    t: Terminal,
    b: bar::BarView,
    on: Screen,
    lines: Seq<usize>,
    secs: nat,
    now: Span,
)
    requires
        is_plain(bar_text(b, secs, now), t.wide),
        all_laid_out(on, t.wide),
        on_screen(on, lines),
    ensures
        read(t, session::frame_text(b, on, lines, secs, now)) == after_frame(t, b, on, lines, secs, now),
{
    let row = (on.cursor_row + 2) as nat;
    let col = (on.cursor_col + 1) as nat;
    let end = "\x1b[?2026l"@ + Seq::<char>::empty();
    let to = seq!['\x1b', '['] + (decimal::dec_digits(row) + seq![';'] + decimal::dec_digits(col)) + seq!['H']
        + end;
    let rows = screen::lines_text(on, lines, 2) + to;
    lemma_frame_text(b, on, lines, secs, now);
    let t1 = Terminal { held: true, ..t };
    lemma_read_hold(t, bar::bar_paint(b, secs, now) + rows);
    let t2 = after_bar(t1, b, secs, now);
    lemma_read_bar(t1, b, secs, now, rows);
    assert(t2.wide == t.wide);
    lemma_read_rows(t2, on, lines, 2, to);
    let t3 = after_rows(t2, on, lines, 2);
    lemma_read_move(t3, row, col, end);
    let t4 = Terminal { row: row as int, col: col as int, ..t3 };
    lemma_read_hold(t4, Seq::empty());
    lemma_read_end(Terminal { held: false, ..t4 });
}

/// A composed frame is held back until it is complete, and then shows the bar on row
/// one, each row that has changed right below where it is on the child's screen, and
/// the cursor where the child has it. No other row changes.
pub proof fn law_frame_is_shown(
    t: Terminal,
    b: bar::BarView,
    on: Screen,
    lines: Seq<usize>,
    secs: nat,
    now: Span,
)
    requires
        is_plain(bar_text(b, secs, now), t.wide),
        all_laid_out(on, t.wide),
        on_screen(on, lines),
    ensures
        ({
            let u = read(t, session::frame_text(b, on, lines, secs, now));
            &&& forall|i: int|
                0 <= i < lines.len() ==> shows_row(u, 2 + #[trigger] lines[i], on.row(lines[i] as int))
            &&& b.cols > 0 ==> shows_text(
                u,
                1,
                1,
                bar_text(b, secs, now),
                Look { inverse: true, ..t.look },
            )
            &&& forall|r: int|
                r != 1 && (forall|i: int| 0 <= i < lines.len() ==> r != 2 + #[trigger] lines[i])
                    ==> #[trigger] same_row(u, t, r)
            &&& u.row == on.cursor_row + 2 && u.col == on.cursor_col + 1
            &&& !u.held
        }),
{
    lemma_read_frame(t, b, on, lines, secs, now);
    let t1 = Terminal { held: true, ..t };
    let t2 = after_bar(t1, b, secs, now);
    let t3 = after_rows(t2, on, lines, 2);
    let u = after_frame(t, b, on, lines, secs, now);
    lemma_after_rows(t2, on, lines, 2);
    assert forall|i: int| 0 <= i < lines.len() implies shows_row(
        u,
        2 + #[trigger] lines[i],
        on.row(lines[i] as int),
    ) by {
        assert(shows_row(t3, 2 + lines[i], on.row(lines[i] as int)));
    }
    if b.cols > 0 {
        lemma_after_bar(t1, b, secs, now);
        lemma_frame_bar(t, b, on, lines, secs, now);
    }
    assert forall|r: int|
        r != 1 && (forall|i: int| 0 <= i < lines.len() ==> r != 2 + #[trigger] lines[i]) implies #[trigger] same_row(
        u,
        t,
        r,
    ) by {
        assert(same_row(t3, t2, r));
        if b.cols > 0 {
            assert(same_row(t2, t1, r));
        }
        assert forall|c: int| #[trigger] same_at(u, t, (r, c)) by {
            assert(same_at(t3, t2, (r, c)));
            assert(same_at(t2, t1, (r, c)));
        }
    }
}

proof fn lemma_frame_bar(
    t: Terminal,
    b: bar::BarView,
    on: Screen,
    lines: Seq<usize>,
    secs: nat,
    now: Span,
)
    requires
        is_plain(bar_text(b, secs, now), t.wide),
        all_laid_out(on, t.wide),
        on_screen(on, lines),
        b.cols > 0,
    ensures
        shows_text(
            after_frame(t, b, on, lines, secs, now),
            1,
            1,
            bar_text(b, secs, now),
            Look { inverse: true, ..t.look },
        ),
{
    let t1 = Terminal { held: true, ..t };
    let t2 = after_bar(t1, b, secs, now);
    let t3 = after_rows(t2, on, lines, 2);
    let u = after_frame(t, b, on, lines, secs, now);
    lemma_after_bar(t1, b, secs, now);
    lemma_after_rows(t2, on, lines, 2);
    assert(same_row(t3, t2, 1));
    let text = bar_text(b, secs, now);
    let look = Look { inverse: true, ..t.look };
    assert forall|j: int| 0 <= j < text.len() implies u.cells.dom().contains((1int, 1 + j)) && u.cells[(
        1int,
        1 + j,
    )] == (look, #[trigger] text[j]) by {
        assert(t2.cells[(1int, 1 + j)] == (look, text[j]));
        assert(same_at(t3, t2, (1, 1 + j)));
    }
}

proof fn lemma_frame_parts(
    h: Seq<char>,
    p: Seq<char>,
    r: Seq<char>,
    e: Seq<char>,
    a: Seq<char>,
    s: Seq<char>,
    b: Seq<char>,
    m: Seq<char>,
    f: Seq<char>,
)
    ensures
        h + p + r + e + a + s + b + (m + f) == h + (p + (r + (e + (a + s + b) + m + (f
            + Seq::<char>::empty())))),
{
    assert(h + p + r + e + a + s + b + (m + f) =~= h + (p + (r + (e + (a + s + b) + m + (f
        + Seq::<char>::empty())))));
}

// ── Regions ─────────────────────────────────────────────────────────────────

/// Reserving row one makes the rows from the second to the last scroll, and leaves
/// what is shown, the cursor and the look alone. A screen without a second row is
/// left as it is.
pub proof fn law_row_one_is_reserved(t: Terminal, rows: u16)
    ensures
        ({
            let u = read(t, session::region_text(rows));
            &&& rows >= 2 ==> u.region == Some((2nat, rows as nat))
            &&& rows < 2 ==> u.region == t.region
            &&& u.cells == t.cells && u.row == t.row && u.col == t.col && u.look == t.look
        }),
{
    let none = Seq::<char>::empty();
    lemma_read_end(t);
    if rows >= 2 {
        reveal_strlit("\x1b7\x1b[2;");
        reveal_strlit("r\x1b8");
        let two = decimal::dec_digits(2);
        let d = decimal::dec_digits(rows as nat);
        assert(two =~= seq!['2']);
        let set = seq!['\x1b', '['] + (two + seq![';'] + d) + seq!['r'];
        let end = seq!['\x1b', '8'] + none;
        assert("\x1b7\x1b[2;"@ =~= seq!['\x1b', '7'] + seq!['\x1b', '['] + two + seq![';']);
        assert("r\x1b8"@ =~= seq!['r'] + end);
        assert(session::region_text(rows) =~= seq!['\x1b', '7'] + (set + end));
        lemma_read_escape(t, '7', set + end);
        let t1 = Terminal { saved: (t.row, t.col, t.look), ..t };
        lemma_read_pair(t1, 2, rows as nat, 'r', end);
        let t2 = Terminal { region: Some((2nat, rows as nat)), row: 1, col: 1, ..t1 };
        lemma_read_escape(t2, '8', none);
        lemma_read_end(escaped(t2, '8'));
    } else {
        assert(session::region_text(rows) =~= none);
    }
}

proof fn lemma_no_numbers()
    ensures
        numbers(Seq::empty()).len() == 1,
{
    assert(text::find_char(Seq::empty(), ';') == 0);
}

/// Giving the screen back lets all its rows scroll again, and leaves what is shown,
/// the cursor and the look alone.
pub proof fn law_whole_screen_is_given_back(t: Terminal)
    ensures
        ({
            let u = read(t, session::whole_screen_text());
            &&& u.region is None
            &&& u.cells == t.cells && u.row == t.row && u.col == t.col && u.look == t.look
        }),
{
    let none = Seq::<char>::empty();
    reveal_strlit("\x1b7\x1b[r\x1b8");
    let set = seq!['\x1b', '['] + none + seq!['r'];
    let end = seq!['\x1b', '8'] + none;
    assert(session::whole_screen_text() =~= seq!['\x1b', '7'] + (set + end));
    lemma_read_escape(t, '7', set + end);
    let t1 = Terminal { saved: (t.row, t.col, t.look), ..t };
    lemma_no_numbers();
    lemma_read_control(t1, none, 'r', end);
    let t2 = Terminal { region: None, row: 1, col: 1, ..t1 };
    lemma_read_escape(t2, '8', none);
    lemma_read_end(escaped(t2, '8'));
}

/// When the host leaves, all rows scroll, row one is empty, every other row is as it
/// was, and the cursor is at the start of the last row.
pub proof fn law_teardown_leaves_the_screen_whole(t: Terminal, rows: u16)
    ensures
        ({
            let u = read(t, session::teardown_text(rows));
            &&& u.region is None
            &&& forall|c: int| !(#[trigger] u.cells.dom().contains((1int, c)))
            &&& forall|r: int| r != 1 ==> #[trigger] same_row(u, t, r)
            &&& u.row == rows && u.col == 1 && u.look == t.look
        }),
{
    let none = Seq::<char>::empty();
    reveal_strlit("\x1b[r\x1b[1;1H\x1b[2K\x1b[");
    reveal_strlit(";1H");
    let one = decimal::dec_digits(1);
    let two = decimal::dec_digits(2);
    let d = decimal::dec_digits(rows as nat);
    assert(one =~= seq!['1']);
    assert(two =~= seq!['2']);
    let set = seq!['\x1b', '['] + none + seq!['r'];
    let home = seq!['\x1b', '['] + (one + seq![';'] + one) + seq!['H'];
    let wipe = seq!['\x1b', '['] + two + seq!['K'];
    let to = seq!['\x1b', '['] + (d + seq![';'] + one) + seq!['H'];
    assert("\x1b[r\x1b[1;1H\x1b[2K\x1b["@ =~= set + home + wipe + seq!['\x1b', '[']);
    assert(";1H"@ =~= seq![';'] + one + seq!['H']);
    assert(session::teardown_text(rows) =~= set + (home + (wipe + (to + none))));
    lemma_no_numbers();
    lemma_read_control(t, none, 'r', home + (wipe + (to + none)));
    let t1 = Terminal { region: None, row: 1, col: 1, ..t };
    lemma_read_move(t1, 1, 1, wipe + (to + none));
    lemma_read_number(t1, 2, 'K', to + none);
    let t2 = obey(t1, two, 'K');
    lemma_read_move(t2, rows as nat, 1, none);
    let u = Terminal { row: rows as int, col: 1, ..t2 };
    lemma_read_end(u);
    assert forall|r: int| r != 1 implies #[trigger] same_row(u, t, r) by {
        assert forall|c: int| #[trigger] same_at(u, t, (r, c)) by {}
    }
}

// ── The transient prompt ────────────────────────────────────────────────────

/// The glyph of a command that has ended turns green where it succeeded and red where
/// it failed, at the start of its row; nothing else on the screen changes, and the
/// cursor stays. Where the exit code is not known, nothing changes at all.
pub proof fn law_glyph_tells_the_outcome(t: Terminal, row: nat, exit: Option<i32>)
    requires
        !t.wide.contains('❯'),
    ensures
        ({
            let u = read(t, transient::recolor_text(row, exit));
            let place = (row as int + 1, 1int);
            &&& exit is None ==> u == t
            &&& exit matches Some(n) ==> {
                &&& u.cells.dom().contains(place) && u.cells[place].1 == '❯'
                &&& u.cells[place].0 == (Look {
                    fg: Some(
                        CellColor::Named(
                            if n == 0 {
                                2
                            } else {
                                1
                            },
                        ),
                    ),
                    ..t.look
                })
                &&& forall|at: (int, int)| at != place ==> #[trigger] same_at(u, t, at)
                &&& u.row == t.row && u.col == t.col && u.look == t.look
            }
        }),
{
    let none = Seq::<char>::empty();
    lemma_read_end(t);
    match exit {
        None => {
            assert(transient::recolor_text(row, exit) =~= none);
        },
        Some(n) => {
            let shade: nat = if n == 0 {
                2
            } else {
                1
            };
            reveal_strlit("\x1b7\x1b[");
            reveal_strlit(";1H\x1b[3");
            reveal_strlit("m❯\x1b[0m\x1b8");
            reveal_strlit("\x1b[0m");
            let one = decimal::dec_digits(1);
            let d = decimal::dec_digits(row + 1);
            let c = decimal::dec_digits(shade);
            let both = decimal::dec_digits(30 + shade);
            assert(one =~= seq!['1']);
            assert(c =~= seq![decimal::digit_char(shade)]);
            assert(both == decimal::dec_digits((30 + shade) / 10).push(decimal::digit_char((30 + shade) % 10)));
            assert((30 + shade) / 10 == 3 && (30 + shade) % 10 == shade);
            assert(decimal::dec_digits(3) =~= seq!['3']);
            assert(both =~= seq!['3'] + c);
            let to = seq!['\x1b', '['] + (d + seq![';'] + one) + seq!['H'];
            let color = seq!['\x1b', '['] + both + seq!['m'];
            let back = seq!['\x1b', '8'] + none;
            let end = "\x1b[0m"@ + back;
            let glyph = seq!['❯'] + end;
            assert("\x1b7\x1b["@ =~= seq!['\x1b', '7'] + seq!['\x1b', '[']);
            assert(";1H\x1b[3"@ =~= seq![';'] + one + seq!['H'] + seq!['\x1b', '['] + seq!['3']);
            assert("m❯\x1b[0m\x1b8"@ =~= seq!['m'] + glyph);
            assert(transient::recolor_text(row, exit) =~= seq!['\x1b', '7'] + (to + (color + glyph)));
            lemma_read_escape(t, '7', to + (color + glyph));
            let t1 = Terminal { saved: (t.row, t.col, t.look), ..t };
            lemma_read_move(t1, row + 1, 1, color + glyph);
            let t2 = Terminal { row: row as int + 1, col: 1, ..t1 };
            lemma_read_number(t2, 30 + shade, 'm', glyph);
            let look = colored(t.look, true, Some(CellColor::Named(shade as u16)));
            assert(seq![30 + shade].skip(1) =~= Seq::<nat>::empty());
            reveal_with_fuel(graphic, 2);
            assert(graphic(t.look, seq![30 + shade]) == look);
            let t3 = Terminal { look, ..t2 };
            lemma_read_char(t3, '❯', end);
            let t4 = shown(t3, '❯');
            lemma_read_reset(t4, back);
            lemma_read_escape(Terminal { look: plain(), ..t4 }, '8', none);
            lemma_read_end(escaped(Terminal { look: plain(), ..t4 }, '8'));
        },
    }
}

/// Collapsing leaves the rows above the prompt alone, puts the glyph and the command
/// on the prompt's row without colours or attributes, and leaves nothing below it; the
/// cursor is at the start of the next row.
pub proof fn law_prompt_is_collapsed(t: Terminal, top: nat, cmd: Seq<char>)
    requires
        is_plain(cmd, t.wide),
        !t.wide.contains('❯'),
        !t.wide.contains(' '),
    ensures
        ({
            let u = read(t, transient::collapse_text(top, cmd));
            &&& shows_text(u, top as int + 1, 1, seq!['❯', ' '] + cmd, plain())
            &&& forall|c: int| c > cmd.len() + 2 ==> !(#[trigger] u.cells.dom().contains((top as int + 1, c)))
            &&& forall|at: (int, int)| at.0 > top + 1 ==> !(#[trigger] u.cells.dom().contains(at))
            &&& forall|r: int| r <= top ==> #[trigger] same_row(u, t, r)
            &&& u.row == top + 2 && u.col == 1 && u.look == plain()
        }),
{
    let none = Seq::<char>::empty();
    reveal_strlit("\x1b[");
    reveal_strlit(";1H\x1b[J\x1b[0m❯ ");
    reveal_strlit("\x1b[0m");
    reveal_strlit("\r\n");
    let one = decimal::dec_digits(1);
    let d = decimal::dec_digits(top + 1);
    assert(one =~= seq!['1']);
    let to = seq!['\x1b', '['] + (d + seq![';'] + one) + seq!['H'];
    let wipe = seq!['\x1b', '['] + none + seq!['J'];
    let line = seq!['❯', ' '] + cmd;
    let feed = seq!['\n'] + none;
    let end = seq!['\r'] + feed;
    assert("\x1b["@ =~= seq!['\x1b', '[']);
    assert(";1H\x1b[J\x1b[0m❯ "@ =~= seq![';'] + one + seq!['H'] + wipe + "\x1b[0m"@ + seq!['❯', ' ']);
    assert("\r\n"@ =~= end);
    assert(transient::collapse_text(top, cmd) =~= to + (wipe + ("\x1b[0m"@ + (line + end))));
    lemma_read_move(t, top + 1, 1, wipe + ("\x1b[0m"@ + (line + end)));
    let t1 = Terminal { row: top as int + 1, col: 1, ..t };
    lemma_read_control(t1, none, 'J', "\x1b[0m"@ + (line + end));
    let t2 = obey(t1, none, 'J');
    lemma_read_reset(t2, line + end);
    let t3 = Terminal { look: plain(), ..t2 };
    assert(is_plain(line, t.wide)) by {
        assert forall|i: int| 0 <= i < line.len() implies is_shown(#[trigger] line[i]) && !t.wide.contains(
            line[i],
        ) by {
            if i >= 2 {
                assert(line[i] == cmd[i - 2]);
            }
        }
    }
    lemma_typed(t3, line, end);
    let t4 = typed(t3, line);
    lemma_read_char(t4, '\r', feed);
    lemma_read_char(shown(t4, '\r'), '\n', none);
    let u = shown(shown(t4, '\r'), '\n');
    lemma_read_end(u);
    assert forall|j: int| 0 <= j < line.len() implies u.cells.dom().contains((top as int + 1, 1 + j))
        && u.cells[(top as int + 1, 1 + j)] == (plain(), #[trigger] line[j]) by {
        assert(line[j] == line[j]);
        assert(t4.cells.dom().contains((t3.row, t3.col + j)));
    }
    assert forall|c: int| c > cmd.len() + 2 implies !(#[trigger] u.cells.dom().contains((top as int + 1, c))) by {
        assert(same_at(t4, t3, (top as int + 1, c)));
    }
    assert forall|at: (int, int)| at.0 > top + 1 implies !(#[trigger] u.cells.dom().contains(at)) by {
        assert(same_at(t4, t3, at));
    }
    assert forall|r: int| r <= top implies #[trigger] same_row(u, t, r) by {
        assert forall|c: int| #[trigger] same_at(u, t, (r, c)) by {
            assert(same_at(t4, t3, (r, c)));
        }
    }
}

// ── Colours of the palette ──────────────────────────────────────────────────

proof fn lemma_read_indexed(t: Terminal, fg: bool, n: u8, rest: Seq<char>)
    ensures
        read(
            t,
            (if fg {
                color::fg_of(n as nat)
            } else {
                color::bg_of(n as nat)
            }) + rest,
        ) == read(Terminal { look: colored(t.look, fg, Some(CellColor::Indexed(n))), ..t }, rest),
{
    reveal_strlit("\x1b[38;5;");
    reveal_strlit("\x1b[48;5;");
    reveal_strlit("m");
    let base: nat = if fg {
        38
    } else {
        48
    };
    let code = if fg {
        color::fg_of(n as nat)
    } else {
        color::bg_of(n as nat)
    };
    let ns = seq![5nat, n as nat];
    let p = decimal::dec_digits(base) + listed(ns);
    assert(decimal::dec_digits(5) =~= seq!['5']);
    assert(decimal::dec_digits(3) =~= seq!['3']);
    assert(decimal::dec_digits(4) =~= seq!['4']);
    assert(decimal::dec_digits(38) =~= seq!['3', '8']);
    assert(decimal::dec_digits(48) =~= seq!['4', '8']);
    assert(ns.skip(1).skip(1).len() == 0);
    reveal_with_fuel(listed, 3);
    assert(listed(ns) =~= seq![';', '5', ';'] + decimal::dec_digits(n as nat));
    assert(code + rest =~= seq!['\x1b', '['] + p + seq!['m'] + rest);
    lemma_listed_params(base, ns);
    lemma_read_control(t, p, 'm', rest);
    let ps = seq![base] + ns;
    assert(ps =~= seq![base, 5nat, n as nat]);
    assert(ps.skip(3) =~= Seq::<nat>::empty());
    reveal_with_fuel(graphic, 2);
    assert(graphic(t.look, ps) == colored(t.look, fg, Some(CellColor::Indexed(n))));
}

/// The two sequences of a colour set the foreground and the background to that entry of
/// the palette, each of them one of the two, and nothing else.
pub proof fn law_palette_colours(t: Terminal, n: u8)
    ensures
        read(t, color::fg_of(n as nat)) == (Terminal {
            look: Look { fg: Some(CellColor::Indexed(n)), ..t.look },
            ..t
        }),
        read(t, color::bg_of(n as nat)) == (Terminal {
            look: Look { bg: Some(CellColor::Indexed(n)), ..t.look },
            ..t
        }),
{
    let none = Seq::<char>::empty();
    lemma_read_indexed(t, true, n, none);
    lemma_read_indexed(t, false, n, none);
    assert(color::fg_of(n as nat) + none =~= color::fg_of(n as nat));
    assert(color::bg_of(n as nat) + none =~= color::bg_of(n as nat));
    lemma_read_end(Terminal { look: colored(t.look, true, Some(CellColor::Indexed(n))), ..t });
    lemma_read_end(Terminal { look: colored(t.look, false, Some(CellColor::Indexed(n))), ..t });
}

/// Between two segments stands an arrow in the colour of the one on the left, on that
/// of the one on the right, and what follows is on that of the right one; before the
/// first segment there is no arrow.
pub proof fn law_arrow_joins_two_segments(t: Terminal, from: u8, to: u8)
    requires
        !t.wide.contains('\u{e0b0}'),
    ensures
        ({
            let u = read(t, color::arrow_between(Some(from), to));
            &&& u.cells[(t.row, t.col)] == (
                Look { fg: Some(CellColor::Indexed(from)), bg: Some(CellColor::Indexed(to)), ..t.look },
                '\u{e0b0}',
            )
            &&& u.cells.dom().contains((t.row, t.col))
            &&& u.row == t.row && u.col == t.col + 1
            &&& u.look.bg == Some(CellColor::Indexed(to))
            &&& forall|at: (int, int)| at != (t.row, t.col) ==> #[trigger] same_at(u, t, at)
        }),
        read(t, color::arrow_between(None, to)) == (Terminal {
            look: Look { bg: Some(CellColor::Indexed(to)), ..t.look },
            ..t
        }),
{
    let none = Seq::<char>::empty();
    law_palette_colours(t, to);
    reveal_strlit("\u{e0b0}");
    let arrow = seq!['\u{e0b0}'] + none;
    assert(color::ARROW@ =~= arrow);
    let all = color::arrow_between(Some(from), to);
    assert(all =~= color::fg_of(from as nat) + (color::bg_of(to as nat) + arrow));
    lemma_read_indexed(t, true, from, color::bg_of(to as nat) + arrow);
    let t1 = Terminal { look: colored(t.look, true, Some(CellColor::Indexed(from))), ..t };
    lemma_read_indexed(t1, false, to, arrow);
    let t2 = Terminal { look: colored(t1.look, false, Some(CellColor::Indexed(to))), ..t1 };
    lemma_read_char(t2, '\u{e0b0}', none);
    lemma_read_end(shown(t2, '\u{e0b0}'));
}

} // verus!
