//! String literals of JSON.
//!
//! Backspace and form feed have short names in JSON. Some of the writers here use
//! them and some spell these two by number, as they do the other control
//! characters; `named` tells which.

use vstd::prelude::*;
use crate::decimal;
use crate::decimal::hex_lower_char;
use crate::text::chars_of;

verus! {

/// How one character stands in a JSON string literal.
pub open spec fn json_char(named: bool, c: char) -> Seq<char> {
    if c == '"' {
        seq!['\\', '"']
    } else if c == '\\' {
        seq!['\\', '\\']
    } else if c == '\n' {
        seq!['\\', 'n']
    } else if c == '\r' {
        seq!['\\', 'r']
    } else if c == '\t' {
        seq!['\\', 't']
    } else if named && c == '\u{8}' {
        seq!['\\', 'b']
    } else if named && c == '\u{c}' {
        seq!['\\', 'f']
    } else if (c as u32) < 0x20 {
        seq![
            '\\',
            'u',
            '0',
            '0',
            decimal::hex_lower((c as u32 / 16) as nat),
            decimal::hex_lower((c as u32 % 16) as nat),
        ]
    } else {
        seq![c]
    }
}

/// The inside of the JSON string literal for `s`.
pub open spec fn json_escaped(named: bool, s: Seq<char>) -> Seq<char>
    decreases s.len(),
{
    if s.len() == 0 {
        Seq::empty()
    } else {
        json_char(named, s[0]) + json_escaped(named, s.skip(1))
    }
}

/// Appends how one character stands in a JSON string literal.
pub fn push_json_char(out: &mut String, named: bool, c: char)
    ensures
        final(out)@ == old(out)@ + json_char(named, c),
{
    if c == '"' {
        out.push('\\');
        out.push('"');
    } else if c == '\\' {
        out.push('\\');
        out.push('\\');
    } else if c == '\n' {
        out.push('\\');
        out.push('n');
    } else if c == '\r' {
        out.push('\\');
        out.push('r');
    } else if c == '\t' {
        out.push('\\');
        out.push('t');
    } else if named && c == '\u{8}' {
        out.push('\\');
        out.push('b');
    } else if named && c == '\u{c}' {
        out.push('\\');
        out.push('f');
    } else if (c as u32) < 0x20 {
        let n: u8 = c as u8;
        out.push('\\');
        out.push('u');
        out.push('0');
        out.push('0');
        out.push(hex_lower_char(n / 16));
        out.push(hex_lower_char(n % 16));
    } else {
        out.push(c);
    }
    proof {
        assert(out@ =~= old(out)@ + json_char(named, c));
    }
}

/// Appends the inside of the JSON string literal for `s`.
pub fn json_escape_into(out: &mut String, named: bool, s: &str)
    ensures
        final(out)@ == old(out)@ + json_escaped(named, s@),
{
    let v: Vec<char> = chars_of(s);
    let mut i: usize = 0;
    let ghost start = out@;
    proof {
        assert(v@.skip(0) =~= v@);
    }
    while i < v.len()
        invariant
            v@ == s@,
            i <= v@.len(),
            out@ + json_escaped(named, v@.skip(i as int)) == start + json_escaped(named, s@),
        decreases v@.len() - i,
    {
        let ghost rest = v@.skip(i as int);
        let ghost before = out@;
        push_json_char(out, named, v[i]);
        proof {
            assert(rest[0] == v@[i as int]);
            assert(rest.skip(1) =~= v@.skip(i as int + 1));
            assert(out@ + json_escaped(named, rest.skip(1)) =~= before + json_escaped(named, rest));
        }
        i += 1;
    }
    proof {
        assert(v@.skip(i as int).len() == 0);
        assert(out@ + json_escaped(named, v@.skip(i as int)) =~= out@);
    }
}

/// The text that the inside of a JSON string literal stands for, for literals
/// that spell characters as [`json_char`] does.
pub open spec fn json_unescaped(e: Seq<char>) -> Option<Seq<char>>
    decreases e.len(),
{
    if e.len() == 0 {
        Some(Seq::empty())
    } else if e[0] != '\\' {
        match json_unescaped(e.skip(1)) {
            Some(t) => Some(seq![e[0]] + t),
            None => None,
        }
    } else if e.len() == 1 {
        None
    } else if e[1] == 'u' {
        if e.len() < 6 {
            None
        } else {
            match json_unescaped(e.skip(6)) {
                Some(t) => Some(seq![hex_pair_char(e[4], e[5])] + t),
                None => None,
            }
        }
    } else {
        match json_unescaped(e.skip(2)) {
            Some(t) => Some(seq![named_char(e[1])] + t),
            None => None,
        }
    }
}

pub open spec fn hex_digit_value(c: char) -> int {
    if '0' <= c <= '9' {
        c as int - 48
    } else {
        c as int - 87
    }
}

/// The control character that two hexadecimal digits denote.
pub open spec fn hex_pair_char(hi: char, lo: char) -> char {
    (16 * hex_digit_value(hi) + hex_digit_value(lo)) as u32 as char
}

/// The character that a letter after a backslash denotes.
pub open spec fn named_char(c: char) -> char {
    if c == 'n' {
        '\n'
    } else if c == 'r' {
        '\r'
    } else if c == 't' {
        '\t'
    } else if c == 'b' {
        '\u{8}'
    } else if c == 'f' {
        '\u{c}'
    } else {
        c
    }
}

/// Unescaping an escaped text gives the text back.
pub proof fn law_json_unescape_inverts_escape(named: bool, s: Seq<char>)
    ensures
        json_unescaped(json_escaped(named, s)) == Some(s),
    decreases s.len(),
{
    if s.len() == 0 {
        assert(s =~= Seq::empty());
    } else {
        law_json_unescape_inverts_escape(named, s.skip(1));
        let e = json_escaped(named, s);
        let h = json_char(named, s[0]);
        let rest = json_escaped(named, s.skip(1));
        assert(e.skip(h.len() as int) =~= rest);
        assert(seq![s[0]] + s.skip(1) =~= s);
        assert(forall|i: int| 0 <= i < h.len() ==> e[i] == h[i]);
        if h.len() == 6 {
            let c = s[0] as u32;
            assert(hex_digit_value(decimal::hex_lower((c / 16) as nat)) == c / 16);
            assert(hex_digit_value(decimal::hex_lower((c % 16) as nat)) == c % 16);
            assert(e[4] == h[4] && e[5] == h[5]);
            assert(16 * (c / 16) + c % 16 == c);
            let n = (16 * hex_digit_value(e[4]) + hex_digit_value(e[5])) as u32;
            assert(n == c);
            vstd::utf8::char_u32_cast(s[0], n);
        }
    }
}

proof fn lemma_not_control(c: char)
    requires
        c as u32 >= 0x20,
    ensures
        ' ' <= c,
{
}

/// An escaped text is one line: it holds no control character.
pub proof fn law_json_escaped_has_no_control(named: bool, s: Seq<char>)
    ensures
        forall|i: int| 0 <= i < json_escaped(named, s).len() ==> ' ' <= #[trigger] json_escaped(named, s)[i],
    decreases s.len(),
{
    if s.len() > 0 {
        law_json_escaped_has_no_control(named, s.skip(1));
        let h = json_char(named, s[0]);
        let rest = json_escaped(named, s.skip(1));
        let c = s[0] as u32;
        assert(c % 16 < 16);
        assert(c < 0x20 ==> c / 16 < 2);
        assert forall|i: int| 0 <= i < h.len() implies ' ' <= #[trigger] h[i] by {
            if h.len() == 6 {
                assert(decimal::hex_lower((c / 16) as nat) >= ' ');
                assert(decimal::hex_lower((c % 16) as nat) >= ' ');
                assert(' ' <= h[0] && ' ' <= h[1] && ' ' <= h[2] && ' ' <= h[3] && ' ' <= h[4] && ' '
                    <= h[5]);
                assert(i == 0 || i == 1 || i == 2 || i == 3 || i == 4 || i == 5);
            } else if h.len() == 2 {
                assert(' ' <= h[0] && ' ' <= h[1]);
                assert(i == 0 || i == 1);
            } else {
                assert(h[0] == s[0]);
                lemma_not_control(s[0]);
            }
        }
        assert forall|i: int| 0 <= i < (h + rest).len() implies ' ' <= #[trigger] (h + rest)[i] by {
            if i >= h.len() {
                assert((h + rest)[i] == rest[i - h.len()]);
            } else {
                assert((h + rest)[i] == h[i]);
            }
        }
    }
}

/// The length of what stands before the quote that ends a string literal, or of all
/// where there is none. A backslash takes the character behind it along.
pub open spec fn literal_len(s: Seq<char>) -> nat
    decreases s.len(),
{
    if s.len() == 0 || s[0] == '"' {
        0
    } else if s[0] == '\\' && s.len() > 1 {
        2 + literal_len(s.skip(2))
    } else {
        1 + literal_len(s.skip(1))
    }
}

/// The text of the string literal whose opening quote stands before `s`, and what
/// follows its closing quote.
pub open spec fn read_literal(s: Seq<char>) -> Option<(Seq<char>, Seq<char>)> {
    let n = literal_len(s) as int;
    if n >= s.len() {
        None
    } else {
        match json_unescaped(s.take(n)) {
            Some(t) => Some((t, s.skip(n + 1))),
            None => None,
        }
    }
}

proof fn lemma_literal_len(named: bool, x: Seq<char>, rest: Seq<char>)
    ensures
        literal_len(json_escaped(named, x) + seq!['"'] + rest) == json_escaped(named, x).len(),
    decreases x.len(),
{
    let s = json_escaped(named, x) + seq!['"'] + rest;
    if x.len() == 0 {
        assert(s[0] == '"');
    } else {
        let h = json_char(named, x[0]);
        let after = json_escaped(named, x.skip(1)) + seq!['"'] + rest;
        lemma_literal_len(named, x.skip(1), rest);
        assert(s =~= h + after);
        assert(forall|i: int| 0 <= i < h.len() ==> s[i] == h[i]);
        if h.len() == 6 {
            let c = x[0] as u32;
            let hi = decimal::hex_lower((c / 16) as nat);
            let lo = decimal::hex_lower((c % 16) as nat);
            assert(hi != '"' && hi != '\\' && lo != '"' && lo != '\\');
            let s2 = s.skip(2);
            let s3 = s2.skip(1);
            let s4 = s3.skip(1);
            let s5 = s4.skip(1);
            assert(s2[0] == h[2] && s3[0] == h[3] && s4[0] == h[4] && s5[0] == h[5]);
            assert(s5.skip(1) =~= after);
            assert(literal_len(s5) == 1 + literal_len(after));
            assert(literal_len(s4) == 1 + literal_len(s5));
            assert(literal_len(s3) == 1 + literal_len(s4));
            assert(literal_len(s2) == 1 + literal_len(s3));
        } else if h.len() == 2 {
            assert(s.skip(2) =~= after);
        } else {
            assert(s.skip(1) =~= after);
        }
    }
}

/// A text that was written as a string literal is read back, whatever follows it.
pub proof fn law_literal_reads_back(named: bool, x: Seq<char>, rest: Seq<char>)
    ensures
        read_literal(json_escaped(named, x) + seq!['"'] + rest) == Some((x, rest)),
{
    let e = json_escaped(named, x);
    let s = e + seq!['"'] + rest;
    lemma_literal_len(named, x, rest);
    law_json_unescape_inverts_escape(named, x);
    assert(s.take(e.len() as int) =~= e);
    assert(s.skip(e.len() as int + 1) =~= rest);
}

} // verus!
