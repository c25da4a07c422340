//! Colours of the terminal, and how a shell is told that they take no room.

use vstd::prelude::*;
use crate::decimal;
use crate::decimal::push_u64;
use crate::text;
use crate::text::{chars_of, joined, owned, str_eq};

verus! {

pub const ARROW: &'static str = "\u{E0B0}";

pub const THIN: &'static str = "\u{E0B1}";

pub const BRANCH_ICON: &'static str = "\u{E0A0}";

pub const PENCIL_ICON: &'static str = "\u{F040}";

pub const RST: &'static str = "\x1b[0m";

pub const BOLD: &'static str = "\x1b[1m";

pub const UNBOLD: &'static str = "\x1b[22m";

/// The escape that sets the foreground to a colour of the palette.
pub open spec fn fg_of(color: nat) -> Seq<char> {
    "\x1b[38;5;"@ + decimal::dec_digits(color) + "m"@
}

/// The escape that sets the background to a colour of the palette.
pub open spec fn bg_of(color: nat) -> Seq<char> {
    "\x1b[48;5;"@ + decimal::dec_digits(color) + "m"@
}

/// The escape that sets the foreground to a colour of the palette.
#[must_use]
pub fn fg(color: u8) -> (r: String)
    ensures
        r@ == fg_of(color as nat),
{
    let mut s: String = owned("\x1b[38;5;");
    push_u64(&mut s, color as u64);
    s.push_str("m");
    s
}

/// The escape that sets the background to a colour of the palette.
#[must_use]
pub fn bg(color: u8) -> (r: String)
    ensures
        r@ == bg_of(color as nat),
{
    let mut s: String = owned("\x1b[48;5;");
    push_u64(&mut s, color as u64);
    s.push_str("m");
    s
}

/// The step from one segment to the next. The first segment has no arrow.
pub open spec fn arrow_between(from_bg: Option<u8>, to_bg: u8) -> Seq<char> {
    match from_bg {
        Some(prev) => fg_of(prev as nat) + bg_of(to_bg as nat) + ARROW@,
        None => bg_of(to_bg as nat),
    }
}

/// The step from one segment to the next. `None` is the first segment's.
#[must_use]
pub fn arrow(from_bg: Option<u8>, to_bg: u8) -> (r: String)
    ensures
        r@ == arrow_between(from_bg, to_bg),
{
    match from_bg {
        Some(prev) => {
            let mut s: String = joined(fg(prev).as_str(), bg(to_bg).as_str());
            s.push_str(ARROW);
            s
        },
        None => bg(to_bg),
    }
}

// ── Escapes that take no room ───────────────────────────────────────────────

/// The length of the escape at the start of `s`: from the escape character to the
/// first `m`, with no other escape character between. 0 where there is none.
pub open spec fn escape_len(s: Seq<char>) -> nat {
    if s.len() == 0 || s[0] != '\x1b' {
        0
    } else {
        let rest = s.skip(1);
        let m = text::find_char(rest, 'm');
        let next = text::find_char(rest, '\x1b');
        if m < rest.len() && m < next {
            m + 2
        } else {
            0
        }
    }
}

/// `s` with `open` before and `close` after each of its escapes.
pub open spec fn wrap_of(open: Seq<char>, close: Seq<char>, s: Seq<char>) -> Seq<char>
    decreases s.len(),
{
    if s.len() == 0 {
        Seq::empty()
    } else if escape_len(s) > 0 {
        proof {
            text::lemma_find_char(s.skip(1), 'm');
        }
        let n = escape_len(s) as int;
        open + s.take(n) + close + wrap_of(open, close, s.skip(n))
    } else {
        seq![s[0]] + wrap_of(open, close, s.skip(1))
    }
}

/// The length of the escape at `i`.
fn escape_at(v: &Vec<char>, i: usize) -> (r: usize)
    requires
        i < v@.len(),
    ensures
        r == escape_len(v@.skip(i as int)),
        i + r <= v@.len(),
{
    let len: usize = v.len();
    if v[i] != '\x1b' {
        return 0;
    }
    let ghost rest = v@.skip(i as int).skip(1);
    proof {
        assert(rest =~= v@.skip(i as int + 1));
        text::lemma_find_char(rest, 'm');
        text::lemma_find_char(rest, '\x1b');
    }
    let mut j: usize = i + 1;
    while j < len && v[j] != 'm' && v[j] != '\x1b'
        invariant
            len == v@.len(),
            i < j <= v@.len(),
            rest == v@.skip(i as int + 1),
            forall|k: int| i < k < j ==> v@[k] != 'm' && v@[k] != '\x1b',
        decreases v@.len() - j,
    {
        j += 1;
    }
    proof {
        let m = text::find_char(rest, 'm');
        let next = text::find_char(rest, '\x1b');
        if m < rest.len() {
            assert(rest[m as int] == v@[i + 1 + m]);
        }
        if next < rest.len() {
            assert(rest[next as int] == v@[i + 1 + next]);
        }
        if j < v@.len() {
            assert(rest[j - i - 1] == v@[j as int]);
        }
    }
    if j < len && v[j] == 'm' {
        j + 1 - i
    } else {
        0
    }
}

/// `s` with `open` before and `close` after each of its escapes.
fn wrap(open: &str, close: &str, s: &str) -> (r: String)
    ensures
        r@ == wrap_of(open@, close@, s@),
{
    let v: Vec<char> = chars_of(s);
    let mut out: String = String::new();
    let mut i: usize = 0;
    proof {
        assert(v@.skip(0) =~= v@);
        assert(out@ + wrap_of(open@, close@, v@) =~= wrap_of(open@, close@, v@));
    }
    while i < v.len()
        invariant
            i <= v@.len(),
            out@ + wrap_of(open@, close@, v@.skip(i as int)) == wrap_of(open@, close@, v@),
        decreases v@.len() - i,
    {
        let ghost rest = v@.skip(i as int);
        let ghost prior = out@;
        let n: usize = escape_at(&v, i);
        if n > 0 {
            let piece: String = text::string_of_range(&v, i, i + n);
            proof {
                assert(v@.subrange(i as int, i + n) =~= rest.take(n as int));
                assert(rest.skip(n as int) =~= v@.skip(i + n));
            }
            out.push_str(open);
            out.push_str(piece.as_str());
            out.push_str(close);
            proof {
                assert(out@ + wrap_of(open@, close@, rest.skip(n as int)) =~= prior + wrap_of(
                    open@,
                    close@,
                    rest,
                ));
            }
            i += n;
        } else {
            proof {
                assert(rest.skip(1) =~= v@.skip(i as int + 1));
                assert(rest[0] == v@[i as int]);
            }
            out.push(v[i]);
            proof {
                assert(out@ + wrap_of(open@, close@, rest.skip(1)) =~= prior + wrap_of(
                    open@,
                    close@,
                    rest,
                ));
            }
            i += 1;
        }
    }
    proof {
        assert(v@.skip(i as int) =~= Seq::empty());
        assert(out@ + wrap_of(open@, close@, v@.skip(i as int)) =~= out@);
    }
    out
}

/// `s` with its escapes in `%{...%}`, so that zsh can tell how wide the prompt is.
pub open spec fn zsh_wrapped(s: Seq<char>) -> Seq<char> {
    wrap_of("%{"@, "%}"@, s)
}

/// `s` with its escapes in `\x01...\x02`, so that readline can tell how wide the
/// prompt is.
pub open spec fn bash_wrapped(s: Seq<char>) -> Seq<char> {
    wrap_of("\x01"@, "\x02"@, s)
}

/// `s` with its escapes in `%{...%}`, so that zsh can tell how wide the prompt is.
#[must_use]
pub fn zsh_wrap_escapes(s: &str) -> (r: String)
    ensures
        r@ == zsh_wrapped(s@),
{
    wrap("%{", "%}", s)
}

/// `s` with its escapes in `\x01...\x02`, so that readline can tell how wide the
/// prompt is.
#[must_use]
pub fn bash_wrap_escapes(s: &str) -> (r: String)
    ensures
        r@ == bash_wrapped(s@),
{
    wrap("\x01", "\x02", s)
}

/// `s` for a shell: fish needs no help, and one that is not known is taken for zsh.
pub open spec fn wrapped_for(shell: Seq<char>, s: Seq<char>) -> Seq<char> {
    if shell == "bash"@ {
        bash_wrapped(s)
    } else if shell == "fish"@ {
        s
    } else {
        zsh_wrapped(s)
    }
}

/// `s` for a shell: fish needs no help, and one that is not known is taken for zsh.
#[must_use]
pub fn wrap_for_shell(shell: &str, s: &str) -> (r: String)
    ensures
        r@ == wrapped_for(shell@, s@),
{
    if str_eq(shell, "bash") {
        bash_wrap_escapes(s)
    } else if str_eq(shell, "fish") {
        owned(s)
    } else {
        zsh_wrap_escapes(s)
    }
}

/// Text without an escape character is left as it is, for every shell.
pub proof fn law_plain_text_is_untouched(shell: Seq<char>, s: Seq<char>)
    requires
        forall|i: int| 0 <= i < s.len() ==> #[trigger] s[i] != '\x1b',
    ensures
        wrapped_for(shell, s) == s,
{
    lemma_plain("%{"@, "%}"@, s);
    lemma_plain("\x01"@, "\x02"@, s);
}

proof fn lemma_plain(open: Seq<char>, close: Seq<char>, s: Seq<char>)
    requires
        forall|i: int| 0 <= i < s.len() ==> #[trigger] s[i] != '\x1b',
    ensures
        wrap_of(open, close, s) == s,
    decreases s.len(),
{
    if s.len() > 0 {
        assert(s[0] != '\x1b');
        assert forall|i: int| 0 <= i < s.skip(1).len() implies #[trigger] s.skip(1)[i] != '\x1b' by {
            assert(s[i + 1] != '\x1b');
        }
        lemma_plain(open, close, s.skip(1));
        assert(s =~= seq![s[0]] + s.skip(1));
    } else {
        assert(s =~= Seq::empty());
    }
}

/// `s` without two marks.
pub open spec fn without(s: Seq<char>, a: char, b: char) -> Seq<char>
    decreases s.len(),
{
    if s.len() == 0 {
        Seq::empty()
    } else if s[0] == a || s[0] == b {
        without(s.skip(1), a, b)
    } else {
        seq![s[0]] + without(s.skip(1), a, b)
    }
}

proof fn lemma_without_add(s: Seq<char>, t: Seq<char>, a: char, b: char)
    ensures
        without(s + t, a, b) == without(s, a, b) + without(t, a, b),
    decreases s.len(),
{
    if s.len() == 0 {
        assert(s + t =~= t);
        assert(without(s, a, b) + without(t, a, b) =~= without(t, a, b));
    } else {
        assert((s + t).skip(1) =~= s.skip(1) + t);
        lemma_without_add(s.skip(1), t, a, b);
        assert(without(s + t, a, b) =~= without(s, a, b) + without(t, a, b));
    }
}

proof fn lemma_without_none(s: Seq<char>, a: char, b: char)
    requires
        forall|i: int| 0 <= i < s.len() ==> #[trigger] s[i] != a && s[i] != b,
    ensures
        without(s, a, b) == s,
    decreases s.len(),
{
    if s.len() == 0 {
        assert(s =~= Seq::empty());
    } else {
        assert(s[0] != a && s[0] != b);
        assert forall|i: int| 0 <= i < s.skip(1).len() implies #[trigger] s.skip(1)[i] != a && s.skip(
            1,
        )[i] != b by {
            assert(s[i + 1] != a && s[i + 1] != b);
        }
        lemma_without_none(s.skip(1), a, b);
        assert(s =~= seq![s[0]] + s.skip(1));
    }
}

/// For bash nothing but the two marks is added: without them the text is what it
/// was.
pub proof fn law_bash_marks_are_all_that_is_added(s: Seq<char>)
    requires
        forall|i: int| 0 <= i < s.len() ==> #[trigger] s[i] != '\x01' && s[i] != '\x02',
    ensures
        without(bash_wrapped(s), '\x01', '\x02') == s,
    decreases s.len(),
{
    reveal_strlit("\x01");
    reveal_strlit("\x02");
    let a = '\x01';
    let b = '\x02';
    if s.len() == 0 {
        assert(s =~= Seq::empty());
    } else if escape_len(s) > 0 {
        text::lemma_find_char(s.skip(1), 'm');
        let n = escape_len(s) as int;
        let head = s.take(n);
        let rest = s.skip(n);
        assert forall|i: int| 0 <= i < rest.len() implies #[trigger] rest[i] != a && rest[i] != b by {
            assert(s[i + n] != a && s[i + n] != b);
        }
        assert forall|i: int| 0 <= i < head.len() implies #[trigger] head[i] != a && head[i] != b by {
            assert(s[i] != a && s[i] != b);
        }
        law_bash_marks_are_all_that_is_added(rest);
        lemma_without_none(head, a, b);
        let w = bash_wrapped(rest);
        lemma_without_add("\x01"@ + head + "\x02"@, w, a, b);
        lemma_without_add("\x01"@ + head, "\x02"@, a, b);
        lemma_without_add("\x01"@, head, a, b);
        lemma_without_none(Seq::empty(), a, b);
        assert("\x01"@.skip(1) =~= Seq::empty());
        assert("\x02"@.skip(1) =~= Seq::empty());
        assert(without(bash_wrapped(s), a, b) =~= head + rest);
        assert(head + rest =~= s);
    } else {
        let rest = s.skip(1);
        assert(s[0] != a && s[0] != b);
        assert forall|i: int| 0 <= i < rest.len() implies #[trigger] rest[i] != a && rest[i] != b by {
            assert(s[i + 1] != a && s[i + 1] != b);
        }
        law_bash_marks_are_all_that_is_added(rest);
        let w = bash_wrapped(rest);
        assert((seq![s[0]] + w).skip(1) =~= w);
        assert(s =~= seq![s[0]] + rest);
    }
}

/// A part of a text holds no more than the text.
proof fn lemma_part_lacks(s: Seq<char>, i: int, j: int, p: Seq<char>)
    requires
        0 <= i <= j <= s.len(),
        !text::contains_of(s, p),
    ensures
        !text::contains_of(s.subrange(i, j), p),
{
    let part = s.subrange(i, j);
    if text::contains_of(part, p) {
        let k = choose|k: int| text::occurs_at(part, p, k);
        assert(s.subrange(i + k, i + k + p.len()) =~= part.subrange(k, k + p.len()));
        assert(text::occurs_at(s, p, i + k));
    }
}

/// What holds no mark, and does not end as one starts, stays.
proof fn lemma_replace_past(a: Seq<char>, b: Seq<char>, p: Seq<char>, q: Seq<char>)
    requires
        p.len() == 2,
        !text::contains_of(a, p),
        a.len() > 0 ==> a.last() != p[0],
    ensures
        text::replaced_of(a + b, p, q) == a + text::replaced_of(b, p, q),
    decreases a.len(),
{
    if a.len() == 0 {
        assert(a + b =~= b);
        assert(a + text::replaced_of(b, p, q) =~= text::replaced_of(b, p, q));
    } else {
        let s = a + b;
        if text::starts_with_of(s, p) {
            assert(s.subrange(0, 2)[0] == a[0]);
            if a.len() > 1 {
                assert(a.subrange(0, 2) =~= s.subrange(0, 2));
                assert(text::occurs_at(a, p, 0));
            }
        }
        let rest = a.skip(1);
        assert(s.skip(1) =~= rest + b);
        assert(rest =~= a.subrange(1, a.len() as int));
        lemma_part_lacks(a, 1, a.len() as int, p);
        lemma_replace_past(rest, b, p, q);
        assert(seq![a[0]] + (rest + text::replaced_of(b, p, q)) =~= a + text::replaced_of(b, p, q));
    }
}

/// What a text splits into: the escape or the character at its head, and the rest.
spec fn head_len(s: Seq<char>) -> int {
    if escape_len(s) > 0 {
        escape_len(s) as int
    } else {
        1
    }
}

/// The parts of a text lack what the text lacks, and an escape ends with an `m`.
proof fn lemma_head(s: Seq<char>, p: Seq<char>)
    requires
        s.len() > 0,
        !text::contains_of(s, p),
    ensures
        0 < head_len(s) <= s.len(),
        escape_len(s) > 0 ==> s.take(head_len(s)).last() == 'm',
        escape_len(s) == 0 ==> s.take(head_len(s)) == seq![s[0]],
        s == s.take(head_len(s)) + s.skip(head_len(s)),
        !text::contains_of(s.take(head_len(s)), p),
        !text::contains_of(s.skip(head_len(s)), p),
{
    text::lemma_find_char(s.skip(1), 'm');
    let n = head_len(s);
    assert(s =~= s.take(n) + s.skip(n));
    assert(s.take(n) =~= s.subrange(0, n));
    assert(s.skip(n) =~= s.subrange(n, s.len() as int));
    lemma_part_lacks(s, 0, n, p);
    lemma_part_lacks(s, n, s.len() as int, p);
    if escape_len(s) == 0 {
        assert(s.take(n) =~= seq![s[0]]);
    } else {
        assert(s.skip(1)[n - 2] == s[n - 1]);
    }
}

/// With another opening mark in its place.
proof fn lemma_replace_open(s: Seq<char>, q: Seq<char>)
    requires
        !text::contains_of(s, "%{"@),
    ensures
        text::replaced_of(zsh_wrapped(s), "%{"@, q) == wrap_of(q, "%}"@, s),
    decreases s.len(),
{
    reveal_strlit("%{");
    reveal_strlit("%}");
    let open = "%{"@;
    let close = "%}"@;
    if s.len() > 0 {
        lemma_head(s, open);
        let n = head_len(s);
        let head = s.take(n);
        let rest = s.skip(n);
        lemma_replace_open(rest, q);
        let w = zsh_wrapped(rest);
        if escape_len(s) > 0 {
            let all = open + head + close + w;
            let t = close + w;
            assert(all.subrange(0, 2) =~= open);
            assert(all.skip(2) =~= head + t);
            lemma_replace_past(head, t, open, q);
            if text::contains_of(close, open) {
                let k = choose|k: int| text::occurs_at(close, open, k);
                assert(close.subrange(k, k + 2)[1] == '}');
            }
            lemma_replace_past(close, w, open, q);
            assert(q + (head + (close + text::replaced_of(w, open, q))) =~= q + head + close
                + text::replaced_of(w, open, q));
        } else {
            let t = head + w;
            if text::starts_with_of(t, open) {
                assert(t.subrange(0, 2)[0] == s[0]);
                assert(t.subrange(0, 2)[1] == w[0]);
                if rest.len() > 0 && escape_len(rest) == 0 {
                    assert(w[0] == rest[0]);
                    assert(s.subrange(0, 2) =~= open);
                    assert(text::occurs_at(s, open, 0));
                } else if rest.len() > 0 {
                    assert(w[0] == '%');
                }
            }
            assert(t.skip(1) =~= w);
        }
    }
}

/// With another closing mark in its place.
proof fn lemma_replace_close(s: Seq<char>, q: Seq<char>, r: Seq<char>)
    requires
        !text::contains_of(s, "%}"@),
        q.len() <= 1,
        forall|i: int| 0 <= i < q.len() ==> #[trigger] q[i] != '%' && q[i] != '}',
    ensures
        text::replaced_of(wrap_of(q, "%}"@, s), "%}"@, r) == wrap_of(q, r, s),
    decreases s.len(),
{
    reveal_strlit("%}");
    let close = "%}"@;
    if s.len() > 0 {
        lemma_head(s, close);
        let n = head_len(s);
        let head = s.take(n);
        let rest = s.skip(n);
        lemma_replace_close(rest, q, r);
        let w = wrap_of(q, close, rest);
        if escape_len(s) > 0 {
            let t = close + w;
            assert(q + head + close + w =~= q + (head + t));
            if text::contains_of(q, close) {
                let k = choose|k: int| text::occurs_at(q, close, k);
                assert(k + 2 <= q.len());
            }
            lemma_replace_past(q, head + t, close, r);
            lemma_replace_past(head, t, close, r);
            assert(t.subrange(0, 2) =~= close);
            assert(t.skip(2) =~= w);
            assert(q + (head + (r + text::replaced_of(w, close, r))) =~= q + head + r + text::replaced_of(
                w,
                close,
                r,
            ));
        } else {
            let t = head + w;
            if text::starts_with_of(t, close) {
                assert(t.subrange(0, 2)[0] == s[0]);
                assert(t.subrange(0, 2)[1] == w[0]);
                if rest.len() > 0 && escape_len(rest) == 0 {
                    assert(w[0] == rest[0]);
                    assert(s.subrange(0, 2) =~= close);
                    assert(text::occurs_at(s, close, 0));
                } else if rest.len() > 0 {
                    assert(w[0] == if q.len() > 0 {
                        q[0]
                    } else {
                        rest[0]
                    });
                }
            }
            assert(t.skip(1) =~= w);
        }
    }
}

/// Without marks there is nothing but the text.
proof fn lemma_no_marks(s: Seq<char>)
    ensures
        wrap_of(Seq::empty(), Seq::empty(), s) == s,
    decreases s.len(),
{
    if s.len() == 0 {
        assert(s =~= Seq::empty());
    } else {
        text::lemma_find_char(s.skip(1), 'm');
        let n = head_len(s);
        lemma_no_marks(s.skip(n));
        assert(wrap_of(Seq::empty(), Seq::empty(), s) =~= s.take(n) + s.skip(n));
        assert(s.take(n) + s.skip(n) =~= s);
    }
}

/// For zsh nothing but the two marks is added: without them the text is what it
/// was.
pub proof fn law_zsh_marks_are_all_that_is_added(s: Seq<char>)
    requires
        !text::contains_of(s, "%{"@),
        !text::contains_of(s, "%}"@),
    ensures
        text::replaced_of(
            text::replaced_of(zsh_wrapped(s), "%{"@, Seq::empty()),
            "%}"@,
            Seq::empty(),
        ) == s,
{
    lemma_replace_open(s, Seq::empty());
    lemma_replace_close(s, Seq::empty(), Seq::empty());
    lemma_no_marks(s);
}

/// The two shells are told the same: what zsh is given, with the marks of bash for its
/// own, is what bash is given.
pub proof fn law_shells_differ_in_their_marks_alone(s: Seq<char>)
    requires
        !text::contains_of(s, "%{"@),
        !text::contains_of(s, "%}"@),
    ensures
        text::replaced_of(text::replaced_of(zsh_wrapped(s), "%{"@, "\x01"@), "%}"@, "\x02"@) == bash_wrapped(
            s,
        ),
{
    reveal_strlit("\x01");
    lemma_replace_open(s, "\x01"@);
    lemma_replace_close(s, "\x01"@, "\x02"@);
}

// ── Without escapes ─────────────────────────────────────────────────────────

/// `s` without its escapes.
pub open spec fn unescaped(s: Seq<char>) -> Seq<char>
    decreases s.len(),
{
    if s.len() == 0 {
        Seq::empty()
    } else if escape_len(s) > 0 {
        proof {
            text::lemma_find_char(s.skip(1), 'm');
        }
        unescaped(s.skip(escape_len(s) as int))
    } else {
        seq![s[0]] + unescaped(s.skip(1))
    }
}

/// Text without an escape character stays.
pub proof fn lemma_unescaped_plain(a: Seq<char>, b: Seq<char>)
    requires
        !a.contains('\x1b'),
    ensures
        unescaped(a + b) == a + unescaped(b),
    decreases a.len(),
{
    if a.len() == 0 {
        assert(a + b =~= b);
        assert(a + unescaped(b) =~= unescaped(b));
    } else {
        assert(a.contains(a[0]));
        let rest = a.skip(1);
        if rest.contains('\x1b') {
            let i = rest.index_of('\x1b');
            assert(a[i + 1] == '\x1b');
        }
        lemma_unescaped_plain(rest, b);
        assert((a + b).skip(1) =~= rest + b);
        assert(seq![a[0]] + (rest + unescaped(b)) =~= a + unescaped(b));
    }
}

/// An escape goes.
pub proof fn lemma_unescaped_escape(e: Seq<char>, b: Seq<char>)
    requires
        e.len() >= 2,
        e[0] == '\x1b',
        e.last() == 'm',
        forall|i: int| 0 < i < e.len() - 1 ==> #[trigger] e[i] != '\x1b' && e[i] != 'm',
    ensures
        unescaped(e + b) == unescaped(b),
{
    let s = e + b;
    let rest = s.skip(1);
    text::lemma_find_char(rest, 'm');
    text::lemma_find_char(rest, '\x1b');
    let m = text::find_char(rest, 'm') as int;
    let next = text::find_char(rest, '\x1b') as int;
    assert(rest[e.len() - 2] == e[e.len() - 1]);
    if m < e.len() - 2 {
        assert(rest[m] == e[m + 1]);
    }
    if next < e.len() - 2 {
        assert(rest[next] == e[next + 1]);
    }
    assert(s.skip(e.len() as int) =~= b);
}

// ── Each escape by itself ───────────────────────────────────────────────────

/// Whether a text is one escape: it begins with the escape character, has no other, and
/// its only `m` ends it.
pub open spec fn is_escape(e: Seq<char>) -> bool {
    &&& e.len() >= 2
    &&& e[0] == '\x1b'
    &&& e.last() == 'm'
    &&& forall|i: int| 0 < i < e.len() - 1 ==> #[trigger] e[i] != '\x1b' && e[i] != 'm'
}

proof fn lemma_escape_len(e: Seq<char>, rest: Seq<char>)
    requires
        is_escape(e),
    ensures
        escape_len(e + rest) == e.len(),
{
    let s = e + rest;
    let tail = s.skip(1);
    let body = e.subrange(1, e.len() - 1);
    assert(tail =~= body + seq!['m'] + rest);
    assert forall|i: int| 0 <= i < body.len() implies #[trigger] body[i] != 'm' by {
        assert(body[i] == e[i + 1]);
    }
    text::lemma_find_char_at(body, 'm', rest);
    text::lemma_find_char(tail, '\x1b');
    let n = text::find_char(tail, '\x1b');
    if n <= body.len() {
        if n < body.len() {
            assert(tail[n as int] == body[n as int]);
            assert(body[n as int] == e[n as int + 1]);
        } else if n < tail.len() {
            assert(tail[n as int] == 'm');
        }
    }
}

/// Each escape is put between the marks of the shell, where it has any, and each other
/// character stays as it is; what follows is treated in the same way.
pub proof fn law_escapes_are_marked_one_by_one(e: Seq<char>, c: char, rest: Seq<char>)
    requires
        is_escape(e),
        c != '\x1b',
    ensures
        zsh_wrapped(e + rest) == seq!['%', '{'] + e + seq!['%', '}'] + zsh_wrapped(rest),
        bash_wrapped(e + rest) == seq!['\x01'] + e + seq!['\x02'] + bash_wrapped(rest),
        zsh_wrapped(seq![c] + rest) == seq![c] + zsh_wrapped(rest),
        bash_wrapped(seq![c] + rest) == seq![c] + bash_wrapped(rest),
        unescaped(e + rest) == unescaped(rest),
        unescaped(seq![c] + rest) == seq![c] + unescaped(rest),
{
    reveal_strlit("%{");
    reveal_strlit("%}");
    reveal_strlit("\x01");
    reveal_strlit("\x02");
    assert("%{"@ =~= seq!['%', '{']);
    assert("%}"@ =~= seq!['%', '}']);
    assert("\x01"@ =~= seq!['\x01']);
    assert("\x02"@ =~= seq!['\x02']);
    lemma_escape_len(e, rest);
    let s = e + rest;
    assert(s.take(e.len() as int) =~= e);
    assert(s.skip(e.len() as int) =~= rest);
    let t = seq![c] + rest;
    assert(t[0] == c);
    assert(t.skip(1) =~= rest);
}

/// The escapes of the palette are escapes.
pub proof fn law_palette_escapes(n: u8)
    ensures
        is_escape(fg_of(n as nat)),
        is_escape(bg_of(n as nat)),
{
    reveal_strlit("\x1b[38;5;");
    reveal_strlit("\x1b[48;5;");
    reveal_strlit("m");
    decimal::lemma_dec_digits(n as nat);
    let d = decimal::dec_digits(n as nat);
    let f = fg_of(n as nat);
    let b = bg_of(n as nat);
    assert forall|i: int| 0 < i < f.len() - 1 implies #[trigger] f[i] != '\x1b' && f[i] != 'm' by {
        if i >= 7 {
            assert(f[i] == d[i - 7]);
            assert(decimal::is_digit(d[i - 7]));
        }
    }
    assert forall|i: int| 0 < i < b.len() - 1 implies #[trigger] b[i] != '\x1b' && b[i] != 'm' by {
        if i >= 7 {
            assert(b[i] == d[i - 7]);
            assert(decimal::is_digit(d[i - 7]));
        }
    }
}

/// bash and zsh get their own marks, fish gets none, and any other shell is taken for
/// zsh.
pub proof fn law_shells_get_their_own_marks(shell: Seq<char>, s: Seq<char>)
    ensures
        shell == "bash"@ ==> wrapped_for(shell, s) == bash_wrapped(s),
        shell == "fish"@ ==> wrapped_for(shell, s) == s,
        shell != "bash"@ && shell != "fish"@ ==> wrapped_for(shell, s) == zsh_wrapped(s),
{
    reveal_strlit("bash");
    reveal_strlit("fish");
    assert("bash"@[0] != "fish"@[0]);
}

} // verus!
