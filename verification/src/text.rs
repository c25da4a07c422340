//! Characters, tokens and decimal numbers: the small vocabulary that the
//! other modules state their contracts in.

use vstd::prelude::*;
use vstd::utf8::*;

verus! {

/// `String::push` appends one character.
pub assume_specification[ String::push ](s: &mut String, c: char)
    ensures
        final(s)@ == old(s)@.push(c),
;

/// `String::push_str` appends a string slice.
pub assume_specification[ String::push_str ](s: &mut String, t: &str)
    ensures
        final(s)@ == old(s)@ + t@,
;

/// `String::from_utf8`: succeeds exactly on valid UTF-8, and the string it
/// returns holds the decoded characters.
#[verifier::external_body]
pub(crate) fn string_from_utf8(bytes: Vec<u8>) -> (r: Option<String>)
    ensures
        r is Some <==> valid_utf8(bytes@),
        r matches Some(s) ==> s@ == decode_utf8(bytes@),
{
    String::from_utf8(bytes).ok()
}

/// What `String::from_utf8_lossy` makes of bytes: the characters that they encode,
/// with U+FFFD where they encode none.
pub uninterp spec fn lossy_text(bytes: Seq<u8>) -> Seq<char>;

/// `String::from_utf8_lossy`. Valid UTF-8 is decoded, and something is made of every
/// other input; how many replacement characters stand for which bytes is left to the
/// standard library.
#[verifier::external_body]
pub(crate) fn string_lossy(bytes: &[u8]) -> (r: String)
    ensures
        r@ == lossy_text(bytes@),
        valid_utf8(bytes@) ==> r@ == decode_utf8(bytes@),
        r@.len() == 0 <==> bytes@.len() == 0,
{
    String::from_utf8_lossy(bytes).into_owned()
}

/// What `format!("{:?}")` writes for a string: quoted, and escaped by the rules
/// of `str`'s `Debug`.
pub uninterp spec fn debug_quoted(s: Seq<char>) -> Seq<char>;

/// `format!` with `{:?}` on a string slice. Which characters are escaped is
/// left to the standard library; the result depends on the string alone.
#[verifier::external_body]
pub(crate) fn debug_str(s: &str) -> (r: String)
    ensures
        r@ == debug_quoted(s@),
{
    format!("{s:?}")
}

// ── Strings and character vectors ───────────────────────────────────────────

/// The characters of `s`, in order.
pub fn chars_of(s: &str) -> (r: Vec<char>)
    ensures
        r@ == s@,
{
    let mut v: Vec<char> = Vec::new();
    for c in it: s.chars()
        invariant
            v@ == it.seq().take(it.index() as int),
            it.seq() == s@,
    {
        proof {
            assert(it.seq().take(it.index() as int).push(c) =~= it.seq().take(
                it.index() as int + 1,
            ));
        }
        v.push(c);
    }
    v
}

/// The string made of `v[from..to]`.
pub fn string_of_range(v: &Vec<char>, from: usize, to: usize) -> (r: String)
    requires
        from <= to <= v@.len(),
    ensures
        r@ == v@.subrange(from as int, to as int),
{
    let mut out: String = String::new();
    let mut i: usize = from;
    while i < to
        invariant
            from <= i <= to <= v@.len(),
            out@ == v@.subrange(from as int, i as int),
        decreases to - i,
    {
        proof {
            assert(v@.subrange(from as int, i as int).push(v@[i as int]) =~= v@.subrange(
                from as int,
                i as int + 1,
            ));
        }
        out.push(v[i]);
        i += 1;
    }
    out
}

/// Two strings with the same bytes have the same characters.
pub proof fn lemma_same_bytes_same_chars(a: Seq<char>, b: Seq<char>)
    requires
        encode_utf8(a) == encode_utf8(b),
    ensures
        a == b,
{
    encode_utf8_decode_utf8(a);
    encode_utf8_decode_utf8(b);
}

/// Whether `a` and `b` hold the same bytes.
pub fn bytes_eq(a: &[u8], b: &[u8]) -> (r: bool)
    ensures
        r == (a@ == b@),
{
    if a.len() != b.len() {
        return false;
    }
    let mut i: usize = 0;
    while i < a.len()
        invariant
            a@.len() == b@.len(),
            i <= a@.len(),
            forall|j: int| 0 <= j < i ==> a@[j] == b@[j],
        decreases a@.len() - i,
    {
        if a[i] != b[i] {
            return false;
        }
        i += 1;
    }
    assert(a@ =~= b@);
    true
}

/// Whether `a` and `b` hold the same characters.
pub fn str_eq(a: &str, b: &str) -> (r: bool)
    ensures
        r == (a@ == b@),
{
    let r: bool = bytes_eq(a.as_bytes(), b.as_bytes());
    proof {
        if r {
            lemma_same_bytes_same_chars(a@, b@);
        }
    }
    r
}

/// A copy of `s`.
pub fn owned(s: &str) -> (r: String)
    ensures
        r@ == s@,
{
    s.to_owned()
}

/// `a` followed by `b`.
pub fn joined(a: &str, b: &str) -> (r: String)
    ensures
        r@ == a@ + b@,
{
    let mut out: String = a.to_owned();
    out.push_str(b);
    out
}

/// The value of an optional string.
pub open spec fn opt_view(o: Option<String>) -> Option<Seq<char>> {
    match o {
        Some(s) => Some(s@),
        None => None,
    }
}

/// The value of an optional string slice.
pub open spec fn opt_str_view(o: Option<&str>) -> Option<Seq<char>> {
    match o {
        Some(s) => Some(s@),
        None => None,
    }
}

/// `n` copies of `c`.
pub open spec fn repeated(c: char, n: nat) -> Seq<char> {
    Seq::new(n, |i: int| c)
}

/// A string of `n` copies of `c`.
pub fn repeat_char(c: char, n: usize) -> (r: String)
    ensures
        r@ == repeated(c, n as nat),
{
    let mut out: String = String::new();
    let mut i: usize = 0;
    while i < n
        invariant
            i <= n,
            out@ == repeated(c, i as nat),
        decreases n - i,
    {
        proof {
            assert(repeated(c, i as nat).push(c) =~= repeated(c, i as nat + 1));
        }
        out.push(c);
        i += 1;
    }
    out
}

// ── White space, tokens, separators ─────────────────────────────────────────

/// The characters with Unicode's White_Space property.
pub open spec fn is_white(c: char) -> bool {
    let u = c as u32;
    ||| 0x09 <= u <= 0x0d
    ||| u == 0x20
    ||| u == 0x85
    ||| u == 0xa0
    ||| u == 0x1680
    ||| 0x2000 <= u <= 0x200a
    ||| u == 0x2028
    ||| u == 0x2029
    ||| u == 0x202f
    ||| u == 0x205f
    ||| u == 0x3000
}

/// Whether `c` is white space.
pub fn white(c: char) -> (r: bool)
    ensures
        r == is_white(c),
{
    let u: u32 = c as u32;
    (0x09 <= u && u <= 0x0d) || u == 0x20 || u == 0x85 || u == 0xa0 || u == 0x1680 || (0x2000 <= u
        && u <= 0x200a) || u == 0x2028 || u == 0x2029 || u == 0x202f || u == 0x205f || u == 0x3000
}

/// `s` without its leading white space.
pub open spec fn trim_start_of(s: Seq<char>) -> Seq<char>
    decreases s.len(),
{
    if s.len() > 0 && is_white(s[0]) {
        trim_start_of(s.skip(1))
    } else {
        s
    }
}

/// `s` without its trailing white space.
pub open spec fn trim_end_of(s: Seq<char>) -> Seq<char>
    decreases s.len(),
{
    if s.len() > 0 && is_white(s.last()) {
        trim_end_of(s.drop_last())
    } else {
        s
    }
}

/// `s` without leading and trailing white space.
pub open spec fn trim_of(s: Seq<char>) -> Seq<char> {
    trim_end_of(trim_start_of(s))
}

/// `s` without its leading white space.
pub fn trim_start_str(s: &str) -> (r: String)
    ensures
        r@ == trim_start_of(s@),
{
    let v: Vec<char> = chars_of(s);
    let mut i: usize = 0;
    proof {
        assert(v@.skip(0) =~= v@);
    }
    while i < v.len() && white(v[i])
        invariant
            i <= v@.len(),
            trim_start_of(v@) == trim_start_of(v@.skip(i as int)),
        decreases v@.len() - i,
    {
        proof {
            assert(v@.skip(i as int).skip(1) =~= v@.skip(i as int + 1));
        }
        i += 1;
    }
    proof {
        assert(v@.skip(i as int) =~= v@.subrange(i as int, v@.len() as int));
        if i < v@.len() {
            assert(v@.skip(i as int)[0] == v@[i as int]);
        }
    }
    string_of_range(&v, i, v.len())
}

/// `s` without leading and trailing white space.
pub fn trim_str(s: &str) -> (r: String)
    ensures
        r@ == trim_of(s@),
{
    let head: String = trim_start_str(s);
    let v: Vec<char> = chars_of(head.as_str());
    let mut n: usize = v.len();
    proof {
        assert(v@.take(n as int) =~= v@);
    }
    while n > 0 && white(v[n - 1])
        invariant
            n <= v@.len(),
            trim_end_of(v@) == trim_end_of(v@.take(n as int)),
        decreases n,
    {
        proof {
            assert(v@.take(n as int).last() == v@[n - 1]);
            assert(v@.take(n as int).drop_last() =~= v@.take(n as int - 1));
        }
        n -= 1;
    }
    proof {
        assert(v@.take(n as int) =~= v@.subrange(0, n as int));
        if n > 0 {
            assert(v@.take(n as int).last() == v@[n - 1]);
        }
    }
    string_of_range(&v, 0, n)
}

/// The separators between the tokens of a line: ASCII white space.
pub open spec fn is_blank(c: char) -> bool {
    c == ' ' || c == '\t' || c == '\n' || c == '\u{c}' || c == '\r'
}

/// Whether `c` separates tokens.
pub fn blank(c: char) -> (r: bool)
    ensures
        r == is_blank(c),
{
    c == ' ' || c == '\t' || c == '\n' || c == '\u{c}' || c == '\r'
}

/// What a text can be cut at.
#[derive(Debug, Clone, Copy, PartialEq, Eq, Structural)]
pub enum Gap {
    /// ASCII white space.
    Blank,
    /// Unicode white space.
    White,
}

pub open spec fn is_gap(g: Gap, c: char) -> bool {
    match g {
        Gap::Blank => is_blank(c),
        Gap::White => is_white(c),
    }
}

fn gap(g: Gap, c: char) -> (r: bool)
    ensures
        r == is_gap(g, c),
{
    match g {
        Gap::Blank => blank(c),
        Gap::White => white(c),
    }
}

/// The length of the longest prefix of `s` without a gap.
pub open spec fn run_len(g: Gap, s: Seq<char>) -> nat
    decreases s.len(),
{
    if s.len() == 0 || is_gap(g, s[0]) {
        0
    } else {
        1 + run_len(g, s.skip(1))
    }
}

pub proof fn lemma_run_len(g: Gap, s: Seq<char>)
    ensures
        run_len(g, s) <= s.len(),
        forall|i: int| 0 <= i < run_len(g, s) ==> !is_gap(g, #[trigger] s[i]),
        run_len(g, s) < s.len() ==> is_gap(g, s[run_len(g, s) as int]),
    decreases s.len(),
{
    if s.len() == 0 || is_gap(g, s[0]) {
    } else {
        lemma_run_len(g, s.skip(1));
        assert forall|i: int| 0 <= i < run_len(g, s) implies !is_gap(g, #[trigger] s[i]) by {
            if i > 0 {
                assert(s[i] == s.skip(1)[i - 1]);
            }
        }
        if run_len(g, s) < s.len() {
            assert(s[run_len(g, s) as int] == s.skip(1)[run_len(g, s.skip(1)) as int]);
        }
    }
}

/// The longest runs of `s` without a gap, in order.
pub open spec fn runs_of(g: Gap, s: Seq<char>) -> Seq<Seq<char>>
    decreases s.len(),
{
    if s.len() == 0 {
        Seq::empty()
    } else if is_gap(g, s[0]) {
        runs_of(g, s.skip(1))
    } else {
        proof {
            lemma_run_len(g, s);
        }
        seq![s.take(run_len(g, s) as int)] + runs_of(g, s.skip(run_len(g, s) as int))
    }
}

/// The tokens of a line: what stands between its blanks.
pub open spec fn tokens_of(s: Seq<char>) -> Seq<Seq<char>> {
    runs_of(Gap::Blank, s)
}

/// The words of a text: what stands between its white space.
pub open spec fn words_of(s: Seq<char>) -> Seq<Seq<char>> {
    runs_of(Gap::White, s)
}

/// The views of a vector of strings.
pub open spec fn views(v: Seq<String>) -> Seq<Seq<char>> {
    Seq::new(v.len(), |i: int| v[i]@)
}

fn split_runs(g: Gap, s: &str) -> (r: Vec<String>)
    ensures
        views(r@) == runs_of(g, s@),
{
    let v: Vec<char> = chars_of(s);
    let mut out: Vec<String> = Vec::new();
    let mut i: usize = 0;
    proof {
        assert(v@.skip(0) =~= v@);
        assert(views(out@) + runs_of(g, v@.skip(0)) =~= runs_of(g, v@));
    }
    while i < v.len()
        invariant
            i <= v@.len(),
            views(out@) + runs_of(g, v@.skip(i as int)) == runs_of(g, v@),
        decreases v@.len() - i,
    {
        let ghost rest = v@.skip(i as int);
        proof {
            lemma_run_len(g, rest);
            assert(rest[0] == v@[i as int]);
        }
        if gap(g, v[i]) {
            proof {
                assert(rest.skip(1) =~= v@.skip(i as int + 1));
            }
            i += 1;
        } else {
            let mut j: usize = i;
            while j < v.len() && !gap(g, v[j])
                invariant
                    i <= j <= v@.len(),
                    rest == v@.skip(i as int),
                    j - i <= run_len(g, rest),
                    run_len(g, rest) <= rest.len(),
                    forall|k: int| 0 <= k < run_len(g, rest) ==> !is_gap(g, #[trigger] rest[k]),
                    run_len(g, rest) < rest.len() ==> is_gap(g, rest[run_len(g, rest) as int]),
                decreases v@.len() - j,
            {
                proof {
                    assert(rest[j - i] == v@[j as int]);
                }
                j += 1;
            }
            proof {
                if j < v@.len() {
                    assert(rest[j - i] == v@[j as int]);
                }
                assert(j - i == run_len(g, rest));
                assert(rest.take(j - i) =~= v@.subrange(i as int, j as int));
                assert(rest.skip(j - i) =~= v@.skip(j as int));
                assert(run_len(g, rest) > 0);
            }
            let ghost before = views(out@);
            let tok: String = string_of_range(&v, i, j);
            out.push(tok);
            proof {
                assert(views(out@) =~= before + seq![rest.take(j - i)]);
                assert(views(out@) + runs_of(g, v@.skip(j as int)) =~= before + (seq![
                    rest.take(j - i),
                ] + runs_of(g, v@.skip(j as int))));
            }
            i = j;
        }
    }
    proof {
        assert(v@.skip(i as int).len() == 0);
        assert(views(out@) + runs_of(g, v@.skip(i as int)) =~= views(out@));
    }
    out
}

/// The tokens of a line.
pub fn split_tokens(s: &str) -> (r: Vec<String>)
    ensures
        views(r@) == tokens_of(s@),
{
    split_runs(Gap::Blank, s)
}

/// The words of a text.
pub fn split_words(s: &str) -> (r: Vec<String>)
    ensures
        views(r@) == words_of(s@),
{
    split_runs(Gap::White, s)
}

/// A run without gaps, closed by a gap or by the end, is the first run.
pub proof fn lemma_runs_first(g: Gap, a: Seq<char>, rest: Seq<char>)
    requires
        a.len() > 0,
        forall|i: int| 0 <= i < a.len() ==> !is_gap(g, #[trigger] a[i]),
        rest.len() > 0 ==> is_gap(g, rest[0]),
    ensures
        runs_of(g, a + rest) == seq![a] + runs_of(g, rest),
{
    lemma_run_len_prefix(g, a, rest);
    let s = a + rest;
    lemma_run_len(g, s);
    assert(s[0] == a[0]);
    assert(s.take(a.len() as int) =~= a);
    assert(s.skip(a.len() as int) =~= rest);
}

proof fn lemma_run_len_prefix(g: Gap, a: Seq<char>, rest: Seq<char>)
    requires
        forall|i: int| 0 <= i < a.len() ==> !is_gap(g, #[trigger] a[i]),
        rest.len() > 0 ==> is_gap(g, rest[0]),
    ensures
        run_len(g, a + rest) == a.len(),
    decreases a.len(),
{
    let s = a + rest;
    if a.len() == 0 {
        assert(s =~= rest);
    } else {
        assert(s[0] == a[0]);
        assert(s.skip(1) =~= a.skip(1) + rest);
        assert forall|i: int| 0 <= i < a.skip(1).len() implies !is_gap(g, #[trigger] a.skip(1)[i]) by {
            assert(a.skip(1)[i] == a[i + 1]);
        }
        lemma_run_len_prefix(g, a.skip(1), rest);
    }
}

/// A leading gap adds no run.
pub proof fn lemma_runs_gap(g: Gap, c: char, rest: Seq<char>)
    requires
        is_gap(g, c),
    ensures
        runs_of(g, seq![c] + rest) == runs_of(g, rest),
{
    let s = seq![c] + rest;
    lemma_run_len(g, s);
    assert(s.skip(1) =~= rest);
}

/// The position of the first `c` in `s`, or the length of `s`.
pub open spec fn find_char(s: Seq<char>, c: char) -> nat
    decreases s.len(),
{
    if s.len() == 0 || s[0] == c {
        0
    } else {
        1 + find_char(s.skip(1), c)
    }
}

pub proof fn lemma_find_char(s: Seq<char>, c: char)
    ensures
        find_char(s, c) <= s.len(),
        forall|i: int| 0 <= i < find_char(s, c) ==> #[trigger] s[i] != c,
        find_char(s, c) < s.len() ==> s[find_char(s, c) as int] == c,
    decreases s.len(),
{
    if s.len() == 0 || s[0] == c {
    } else {
        lemma_find_char(s.skip(1), c);
        assert forall|i: int| 0 <= i < find_char(s, c) implies #[trigger] s[i] != c by {
            if i > 0 {
                assert(s[i] == s.skip(1)[i - 1]);
            }
        }
        if find_char(s, c) < s.len() {
            assert(s[find_char(s, c) as int] == s.skip(1)[find_char(s.skip(1), c) as int]);
        }
    }
}

/// The first `c` of `a + [c] + b` is the one after `a`, where `a` has none.
pub proof fn lemma_find_char_at(a: Seq<char>, c: char, b: Seq<char>)
    requires
        forall|i: int| 0 <= i < a.len() ==> #[trigger] a[i] != c,
    ensures
        find_char(a + seq![c] + b, c) == a.len(),
{
    let s = a + seq![c] + b;
    lemma_find_char(s, c);
    let n = find_char(s, c);
    if n < a.len() {
        assert(s[n as int] == a[n as int]);
    }
    assert(s[a.len() as int] == c);
}

/// The position of the first `c` in `v`, or the length of `v`.
pub fn position(v: &Vec<char>, c: char) -> (r: usize)
    ensures
        r == find_char(v@, c),
{
    proof {
        lemma_find_char(v@, c);
    }
    let mut i: usize = 0;
    while i < v.len() && v[i] != c
        invariant
            i <= v@.len(),
            i <= find_char(v@, c) <= v@.len(),
            find_char(v@, c) < v@.len() ==> v@[find_char(v@, c) as int] == c,
            forall|j: int| 0 <= j < i ==> v@[j] != c,
        decreases v@.len() - i,
    {
        i += 1;
    }
    proof {
        if i < find_char(v@, c) {
            assert(v@[i as int] != c);
        }
    }
    i
}

/// `s` cut at its first `c`: what stands before it and what follows it.
/// `None` where `s` has no `c`.
pub open spec fn split_once_of(s: Seq<char>, c: char) -> Option<(Seq<char>, Seq<char>)> {
    let n = find_char(s, c) as int;
    if n < s.len() {
        Some((s.take(n), s.skip(n + 1)))
    } else {
        None
    }
}

/// `s` cut at its first `c`.
pub fn split_once_char(s: &str, c: char) -> (r: Option<(String, String)>)
    ensures
        r matches Some(p) ==> split_once_of(s@, c) == Some((p.0@, p.1@)),
        r is None <==> split_once_of(s@, c) is None,
{
    let v: Vec<char> = chars_of(s);
    let n: usize = position(&v, c);
    proof {
        lemma_find_char(v@, c);
    }
    if n < v.len() {
        proof {
            assert(v@.take(n as int) =~= v@.subrange(0, n as int));
            assert(v@.skip(n as int + 1) =~= v@.subrange(n as int + 1, v@.len() as int));
        }
        Some((string_of_range(&v, 0, n), string_of_range(&v, n + 1, v.len())))
    } else {
        None
    }
}

/// Cutting `a + [c] + b` at `c` gives back `a` and `b`, where `a` has no `c`.
pub proof fn lemma_split_once_at(a: Seq<char>, c: char, b: Seq<char>)
    requires
        forall|i: int| 0 <= i < a.len() ==> #[trigger] a[i] != c,
    ensures
        split_once_of(a + seq![c] + b, c) == Some((a, b)),
{
    lemma_find_char_at(a, c, b);
    let s = a + seq![c] + b;
    assert(s.take(a.len() as int) =~= a);
    assert(s.skip(a.len() as int + 1) =~= b);
}

// ── Pieces of a text ────────────────────────────────────────────────────────

/// `c` in lower case, where it is an ASCII letter.
pub open spec fn lower_char(c: char) -> char {
    if 'A' <= c <= 'Z' {
        (c as u32 + 32) as char
    } else {
        c
    }
}

/// `s` with its ASCII letters in lower case.
pub open spec fn lower_of(s: Seq<char>) -> Seq<char> {
    Seq::new(s.len(), |i: int| lower_char(s[i]))
}

/// `s` with its ASCII letters in lower case.
pub fn ascii_lower(s: &str) -> (r: String)
    ensures
        r@ == lower_of(s@),
{
    let v: Vec<char> = chars_of(s);
    let mut out: String = String::new();
    let mut i: usize = 0;
    while i < v.len()
        invariant
            i <= v@.len(),
            out@ == lower_of(v@.take(i as int)),
        decreases v@.len() - i,
    {
        let c: char = v[i];
        if 'A' <= c && c <= 'Z' {
            out.push((c as u8 + 32) as char);
        } else {
            out.push(c);
        }
        proof {
            assert(lower_of(v@.take(i as int)).push(lower_char(c)) =~= lower_of(
                v@.take(i as int + 1),
            ));
        }
        i += 1;
    }
    proof {
        assert(v@.take(i as int) =~= v@);
    }
    out
}

/// Whether `p` stands in `s` at position `i`.
pub open spec fn occurs_at(s: Seq<char>, p: Seq<char>, i: int) -> bool {
    0 <= i && i + p.len() <= s.len() && s.subrange(i, i + p.len()) == p
}

/// Whether `s` starts with `p`.
pub open spec fn starts_with_of(s: Seq<char>, p: Seq<char>) -> bool {
    occurs_at(s, p, 0)
}

/// Whether `p` stands anywhere in `s`.
pub open spec fn contains_of(s: Seq<char>, p: Seq<char>) -> bool {
    exists|i: int| occurs_at(s, p, i)
}

/// Whether `p` stands in `s` at position `i`.
pub fn matches_at(s: &Vec<char>, p: &Vec<char>, i: usize) -> (r: bool)
    ensures
        r == occurs_at(s@, p@, i as int),
{
    if i > s.len() || p.len() > s.len() - i {
        return false;
    }
    let mut j: usize = 0;
    while j < p.len()
        invariant
            i + p@.len() <= s.len(),
            j <= p@.len(),
            forall|k: int| 0 <= k < j ==> s@[i + k] == p@[k],
        decreases p@.len() - j,
    {
        if s[i + j] != p[j] {
            proof {
                assert(s@.subrange(i as int, i + p@.len())[j as int] == s@[i + j]);
            }
            return false;
        }
        j += 1;
    }
    proof {
        assert(s@.subrange(i as int, i + p@.len()) =~= p@);
    }
    true
}

/// Whether `s` starts with `p`.
pub fn starts_with_str(s: &str, p: &str) -> (r: bool)
    ensures
        r == starts_with_of(s@, p@),
{
    matches_at(&chars_of(s), &chars_of(p), 0)
}

/// Whether `p` stands anywhere in `s`.
pub fn contains_str(s: &str, p: &str) -> (r: bool)
    ensures
        r == contains_of(s@, p@),
{
    let sv: Vec<char> = chars_of(s);
    let pv: Vec<char> = chars_of(p);
    let mut i: usize = 0;
    while i < sv.len()
        invariant
            sv@ == s@,
            pv@ == p@,
            i <= sv@.len(),
            forall|k: int| 0 <= k < i ==> !occurs_at(s@, p@, k),
        decreases sv@.len() - i,
    {
        if matches_at(&sv, &pv, i) {
            return true;
        }
        i += 1;
    }
    let at_end: bool = matches_at(&sv, &pv, i);
    proof {
        if !at_end {
            assert forall|k: int| !occurs_at(s@, p@, k) by {}
        }
    }
    at_end
}

/// What follows `p` in `s`, where `s` starts with `p`.
pub open spec fn strip_prefix_of(s: Seq<char>, p: Seq<char>) -> Option<Seq<char>> {
    if starts_with_of(s, p) {
        Some(s.skip(p.len() as int))
    } else {
        None
    }
}

/// What follows `p` in `s`.
pub fn strip_prefix_str(s: &str, p: &str) -> (r: Option<String>)
    ensures
        match r {
            Some(t) => strip_prefix_of(s@, p@) == Some(t@),
            None => strip_prefix_of(s@, p@) is None,
        },
{
    let sv: Vec<char> = chars_of(s);
    let pv: Vec<char> = chars_of(p);
    if matches_at(&sv, &pv, 0) {
        proof {
            assert(s@.skip(p@.len() as int) =~= sv@.subrange(pv@.len() as int, sv@.len() as int));
        }
        Some(string_of_range(&sv, pv.len(), sv.len()))
    } else {
        None
    }
}

/// The pieces with `sep` between any two.
pub open spec fn join_of(parts: Seq<Seq<char>>, sep: Seq<char>) -> Seq<char>
    decreases parts.len(),
{
    if parts.len() == 0 {
        Seq::empty()
    } else if parts.len() == 1 {
        parts[0]
    } else {
        join_of(parts.drop_last(), sep) + sep + parts.last()
    }
}

/// The views of a vector of string slices.
pub open spec fn str_views(v: Seq<&'static str>) -> Seq<Seq<char>> {
    Seq::new(v.len(), |i: int| v[i]@)
}

/// The pieces with `sep` between any two.
pub fn join_strs(parts: &Vec<&'static str>, sep: &str) -> (r: String)
    ensures
        r@ == join_of(str_views(parts@), sep@),
{
    let mut out: String = String::new();
    let ghost pv = str_views(parts@);
    let mut i: usize = 0;
    while i < parts.len()
        invariant
            pv == str_views(parts@),
            i <= parts@.len(),
            out@ == join_of(pv.take(i as int), sep@),
        decreases parts@.len() - i,
    {
        if i > 0 {
            out.push_str(sep);
        }
        out.push_str(parts[i]);
        proof {
            let t = pv.take(i as int + 1);
            assert(t.drop_last() =~= pv.take(i as int));
            assert(t.last() == parts@[i as int]@);
            if i == 0 {
                assert(out@ =~= t[0]);
            }
        }
        i += 1;
    }
    proof {
        assert(pv.take(i as int) =~= pv);
    }
    out
}

/// `s` filled on the left with `fill` to `width` characters.
pub open spec fn pad_left_of(s: Seq<char>, width: nat, fill: char) -> Seq<char> {
    if s.len() >= width {
        s
    } else {
        repeated(fill, (width - s.len()) as nat) + s
    }
}

/// `s` filled on the left with `fill` to `width` characters.
pub fn pad_left(s: &str, width: usize, fill: char) -> (r: String)
    ensures
        r@ == pad_left_of(s@, width as nat, fill),
{
    let len: usize = chars_of(s).len();
    if len >= width {
        s.to_owned()
    } else {
        let mut out: String = repeat_char(fill, width - len);
        out.push_str(s);
        out
    }
}

/// The first line of `s`, without its line ending.
pub open spec fn first_line_of(s: Seq<char>) -> Seq<char> {
    let n = find_char(s, '\n') as int;
    if n >= s.len() {
        s
    } else if n > 0 && s[n - 1] == '\r' {
        s.take(n - 1)
    } else {
        s.take(n)
    }
}

/// The first line of `s`, without its line ending.
pub fn first_line(s: &str) -> (r: String)
    ensures
        r@ == first_line_of(s@),
{
    let v: Vec<char> = chars_of(s);
    let n: usize = position(&v, '\n');
    proof {
        lemma_find_char(v@, '\n');
    }
    if n >= v.len() {
        return s.to_owned();
    }
    let end: usize = if n > 0 && v[n - 1] == '\r' {
        n - 1
    } else {
        n
    };
    proof {
        assert(v@.take(end as int) =~= v@.subrange(0, end as int));
    }
    string_of_range(&v, 0, end)
}

/// What follows the first line of `s` and its line ending.
pub open spec fn after_line_of(s: Seq<char>) -> Seq<char> {
    let n = find_char(s, '\n') as int;
    if n >= s.len() {
        Seq::empty()
    } else {
        s.skip(n + 1)
    }
}

/// The lines of `s`, each without its line ending. A line ending at the end of
/// `s` starts no further line.
pub open spec fn lines_of(s: Seq<char>) -> Seq<Seq<char>>
    decreases s.len(),
{
    if s.len() == 0 {
        Seq::empty()
    } else {
        seq![first_line_of(s)] + lines_of(after_line_of(s))
    }
}

/// The lines of `s`, each without its line ending.
pub fn split_lines(s: &str) -> (r: Vec<String>)
    ensures
        views(r@) == lines_of(s@),
{
    let mut out: Vec<String> = Vec::new();
    let mut rest: String = s.to_owned();
    proof {
        assert(views(out@) + lines_of(rest@) =~= lines_of(s@));
    }
    while !rest.as_str().is_empty()
        invariant
            views(out@) + lines_of(rest@) == lines_of(s@),
        decreases rest@.len(),
    {
        let line: String = first_line(rest.as_str());
        let v: Vec<char> = chars_of(rest.as_str());
        let n: usize = position(&v, '\n');
        let ghost before = out@;
        proof {
            lemma_find_char(v@, '\n');
        }
        let next: String = if n < v.len() {
            proof {
                assert(v@.subrange(n + 1, v@.len() as int) =~= v@.skip(n + 1));
            }
            string_of_range(&v, n + 1, v.len())
        } else {
            String::new()
        };
        out.push(line);
        proof {
            assert(next@ =~= after_line_of(rest@));
            assert(views(out@) =~= views(before) + seq![first_line_of(rest@)]);
            assert(views(out@) + lines_of(next@) =~= views(before) + lines_of(rest@));
        }
        rest = next;
    }
    proof {
        assert(views(out@) + lines_of(rest@) =~= views(out@));
    }
    out
}

/// The length of `s` in UTF-8.
pub open spec fn byte_len(s: Seq<char>) -> nat {
    encode_utf8(s).len()
}

/// The length of `s` in UTF-8.
pub fn byte_len_of(s: &str) -> (r: usize)
    ensures
        r == byte_len(s@),
{
    s.as_bytes().len()
}

/// Whether `v` holds `s`.
pub fn holds(v: &Vec<String>, s: &str) -> (r: bool)
    ensures
        r == views(v@).contains(s@),
{
    let mut i: usize = 0;
    while i < v.len()
        invariant
            i <= v@.len(),
            forall|j: int| 0 <= j < i ==> views(v@)[j] != s@,
        decreases v@.len() - i,
    {
        if str_eq(v[i].as_str(), s) {
            proof {
                assert(views(v@)[i as int] == s@);
            }
            return true;
        }
        proof {
            assert(views(v@)[i as int] == v@[i as int]@);
        }
        i += 1;
    }
    false
}

/// `s` with `q` for each occurrence of `p`, taken from left to right.
pub open spec fn replaced_of(s: Seq<char>, p: Seq<char>, q: Seq<char>) -> Seq<char>
    decreases s.len(),
{
    if s.len() == 0 || p.len() == 0 {
        s
    } else if starts_with_of(s, p) {
        q + replaced_of(s.skip(p.len() as int), p, q)
    } else {
        seq![s[0]] + replaced_of(s.skip(1), p, q)
    }
}

/// Whether `s` ends with `p`.
pub open spec fn ends_with_of(s: Seq<char>, p: Seq<char>) -> bool {
    occurs_at(s, p, s.len() - p.len())
}

/// Whether `s` ends with `p`.
pub fn ends_with_str(s: &str, p: &str) -> (r: bool)
    ensures
        r == ends_with_of(s@, p@),
{
    let sv: Vec<char> = chars_of(s);
    let pv: Vec<char> = chars_of(p);
    if pv.len() > sv.len() {
        false
    } else {
        matches_at(&sv, &pv, sv.len() - pv.len())
    }
}

/// Whether `c` stands anywhere in `s`.
pub fn contains_char(s: &str, c: char) -> (r: bool)
    ensures
        r == s@.contains(c),
{
    let v: Vec<char> = chars_of(s);
    let n: usize = position(&v, c);
    proof {
        lemma_find_char(v@, c);
        if v@.contains(c) {
            let i = choose|i: int| 0 <= i < v@.len() && v@[i] == c;
            if n == v@.len() {
                assert(v@[i] != c);
            }
        }
    }
    n < v.len()
}

/// `s` without the `c`s at its end.
pub open spec fn trim_end_char_of(s: Seq<char>, c: char) -> Seq<char>
    decreases s.len(),
{
    if s.len() > 0 && s.last() == c {
        trim_end_char_of(s.drop_last(), c)
    } else {
        s
    }
}

/// `s` without the `c`s at its end.
pub fn trim_end_char(s: &str, c: char) -> (r: String)
    ensures
        r@ == trim_end_char_of(s@, c),
{
    let v: Vec<char> = chars_of(s);
    let mut n: usize = v.len();
    proof {
        assert(v@.take(n as int) =~= v@);
    }
    while n > 0 && v[n - 1] == c
        invariant
            n <= v@.len(),
            trim_end_char_of(v@, c) == trim_end_char_of(v@.take(n as int), c),
        decreases n,
    {
        proof {
            assert(v@.take(n as int).last() == v@[n - 1]);
            assert(v@.take(n as int).drop_last() =~= v@.take(n - 1));
        }
        n -= 1;
    }
    proof {
        assert(v@.subrange(0, n as int) =~= v@.take(n as int));
        if n > 0 {
            assert(v@.take(n as int).last() == v@[n - 1]);
        }
    }
    string_of_range(&v, 0, n)
}

/// A text that neither starts nor ends with white space has none to trim.
pub proof fn lemma_trim_solid(s: Seq<char>)
    requires
        s.len() > 0,
        !is_white(s[0]),
        !is_white(s.last()),
    ensures
        trim_of(s) == s,
{
}

// ── Laws ────────────────────────────────────────────────────────────────────

/// Whether a text is all white space.
pub open spec fn all_white(s: Seq<char>) -> bool {
    forall|i: int| 0 <= i < s.len() ==> is_white(#[trigger] s[i])
}

proof fn lemma_trim_start(s: Seq<char>) -> (a: Seq<char>)
    ensures
        all_white(a),
        s == a + trim_start_of(s),
        trim_start_of(s).len() > 0 ==> !is_white(trim_start_of(s)[0]),
    decreases s.len(),
{
    if s.len() > 0 && is_white(s[0]) {
        let more = s.skip(1);
        let a = lemma_trim_start(more);
        let b = seq![s[0]] + a;
        assert forall|i: int| 0 <= i < b.len() implies is_white(#[trigger] b[i]) by {
            if i > 0 {
                assert(b[i] == a[i - 1]);
            }
        }
        assert(s =~= seq![s[0]] + more);
        assert(seq![s[0]] + (a + trim_start_of(more)) =~= b + trim_start_of(more));
        b
    } else {
        assert(s =~= Seq::<char>::empty() + trim_start_of(s));
        Seq::empty()
    }
}

proof fn lemma_trim_end(s: Seq<char>) -> (b: Seq<char>)
    ensures
        all_white(b),
        s == trim_end_of(s) + b,
        trim_end_of(s).len() > 0 ==> !is_white(trim_end_of(s).last()),
        trim_end_of(s).len() > 0 ==> trim_end_of(s)[0] == s[0],
    decreases s.len(),
{
    if s.len() > 0 && is_white(s.last()) {
        let less = s.drop_last();
        let b = lemma_trim_end(less);
        let c = b.push(s.last());
        assert forall|i: int| 0 <= i < c.len() implies is_white(#[trigger] c[i]) by {
            if i < b.len() {
                assert(c[i] == b[i]);
            }
        }
        assert(s =~= less.push(s.last()));
        assert((trim_end_of(less) + b).push(s.last()) =~= trim_end_of(less) + c);
        c
    } else {
        assert(s =~= trim_end_of(s) + Seq::<char>::empty());
        Seq::empty()
    }
}

/// Trimming takes away white space at both ends, all of it and nothing else.
pub proof fn law_trim_takes_white_space_alone(s: Seq<char>)
    ensures
        exists|a: Seq<char>, b: Seq<char>|
            all_white(a) && all_white(b) && s == #[trigger] (a + trim_of(s) + b),
        trim_of(s).len() > 0 ==> !is_white(trim_of(s)[0]) && !is_white(trim_of(s).last()),
{
    let a = lemma_trim_start(s);
    let b = lemma_trim_end(trim_start_of(s));
    assert(s =~= a + trim_of(s) + b);
}

/// Blanks, tabs and line ends are white space, and no visible ASCII character is.
pub proof fn law_white_space()
    ensures
        is_white(' ') && is_white('\t') && is_white('\n') && is_white('\r'),
        forall|c: char| '!' <= c <= '~' ==> !is_white(c),
{
}

/// Lines end at line feeds, with or without a carriage return before them, which belong
/// to no line; a text that does not end with one has its rest as its last line.
pub proof fn law_lines_read_back(line: Seq<char>, rest: Seq<char>)
    requires
        forall|i: int| 0 <= i < line.len() ==> #[trigger] line[i] != '\n',
        line.len() == 0 || line.last() != '\r',
    ensures
        lines_of(line + seq!['\n'] + rest) == seq![line] + lines_of(rest),
        lines_of(line + seq!['\r', '\n'] + rest) == seq![line] + lines_of(rest),
        line.len() > 0 ==> lines_of(line) == seq![line],
{
    let a = line + seq!['\n'] + rest;
    lemma_find_char_at(line, '\n', rest);
    assert(a.take(line.len() as int) =~= line);
    assert(a.skip(line.len() as int + 1) =~= rest);
    if line.len() > 0 {
        assert(a[line.len() - 1] == line.last());
    }
    let cr = line.push('\r');
    let b = line + seq!['\r', '\n'] + rest;
    assert(b =~= cr + seq!['\n'] + rest);
    lemma_find_char_at(cr, '\n', rest);
    assert(b[cr.len() - 1] == '\r');
    assert(b.take(cr.len() - 1) =~= line);
    assert(b.skip(cr.len() as int + 1) =~= rest);
    if line.len() > 0 {
        lemma_find_char(line, '\n');
        let n = find_char(line, '\n');
        if n < line.len() {
            assert(line[n as int] == '\n');
        }
        assert(lines_of(Seq::<char>::empty()) =~= Seq::<Seq<char>>::empty());
        assert(lines_of(line) =~= seq![line]);
    }
}

/// Lower case is one letter for one: a capital becomes the small letter of its place in
/// the alphabet, and every other character stays.
pub proof fn law_lower_case(c: char)
    ensures
        'A' <= c <= 'Z' ==> lower_char(c) as int - 'a' as int == c as int - 'A' as int,
        !('A' <= c <= 'Z') ==> lower_char(c) == c,
        lower_char(lower_char(c)) == lower_char(c),
{
}

/// Each place at which the pattern stands gets the replacement, from left to right, and
/// the rest stays.
pub proof fn law_replacing(p: Seq<char>, q: Seq<char>, s: Seq<char>, c: char)
    requires
        p.len() > 0,
    ensures
        replaced_of(p + s, p, q) == q + replaced_of(s, p, q),
        c != p[0] ==> replaced_of(seq![c] + s, p, q) == seq![c] + replaced_of(s, p, q),
        replaced_of(Seq::empty(), p, q).len() == 0,
{
    let a = p + s;
    assert(a.subrange(0, p.len() as int) =~= p);
    assert(a.skip(p.len() as int) =~= s);
    let b = seq![c] + s;
    if c != p[0] {
        if starts_with_of(b, p) {
            assert(b.subrange(0, p.len() as int)[0] == b[0]);
        }
        assert(b.skip(1) =~= s);
        assert(b[0] == c);
    }
}

} // verus!
