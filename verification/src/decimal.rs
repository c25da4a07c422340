//! Decimal and hexadecimal notation for integers, and its reading.

use vstd::prelude::*;
use crate::text;
use crate::text::{chars_of, repeat_char};

verus! {

// ── Writing ─────────────────────────────────────────────────────────────────

/// The digit that stands for `d`, for `d` below ten.
pub open spec fn digit_char(d: nat) -> char {
    (48 + d) as char
}

/// `n` in decimal, without leading zeros.
pub open spec fn dec_digits(n: nat) -> Seq<char>
    decreases n,
{
    if n < 10 {
        seq![digit_char(n)]
    } else {
        dec_digits(n / 10).push(digit_char(n % 10))
    }
}

/// `n` in decimal, with a minus sign where it is negative.
pub open spec fn dec_int(n: int) -> Seq<char> {
    if n < 0 {
        seq!['-'] + dec_digits((-n) as nat)
    } else {
        dec_digits(n as nat)
    }
}

/// `n` in decimal, filled on the left with `fill` to `width` characters.
pub open spec fn dec_filled(n: nat, width: nat, fill: char) -> Seq<char> {
    let d = dec_digits(n);
    if d.len() >= width {
        d
    } else {
        crate::text::repeated(fill, (width - d.len()) as nat) + d
    }
}

/// The digit that stands for `d`, for `d` below ten.
pub fn digit_char_of(d: u8) -> (r: char)
    requires
        d < 10,
    ensures
        r == digit_char(d as nat),
{
    (48 + d) as char
}

/// Appends `n` in decimal.
pub fn push_u64(out: &mut String, n: u64)
    ensures
        final(out)@ == old(out)@ + dec_digits(n as nat),
    decreases n,
{
    if n < 10 {
        out.push((48u8 + n as u8) as char);
        proof {
            assert(dec_digits(n as nat) =~= seq![digit_char(n as nat)]);
            assert(out@ =~= old(out)@ + dec_digits(n as nat));
        }
    } else {
        push_u64(out, n / 10);
        let d: u8 = (n % 10) as u8;
        out.push((48u8 + d) as char);
        proof {
            assert(out@ =~= old(out)@ + dec_digits(n as nat));
        }
    }
}

/// `n` in decimal.
pub fn dec_u64(n: u64) -> (r: String)
    ensures
        r@ == dec_digits(n as nat),
{
    let mut out: String = String::new();
    push_u64(&mut out, n);
    proof {
        assert(Seq::<char>::empty() + dec_digits(n as nat) =~= dec_digits(n as nat));
    }
    out
}

/// Appends `n` in decimal.
pub fn push_i64(out: &mut String, n: i64)
    ensures
        final(out)@ == old(out)@ + dec_int(n as int),
{
    if n < 0 {
        let mag: u64 = if n == i64::MIN {
            9223372036854775808u64
        } else {
            (-n) as u64
        };
        out.push('-');
        push_u64(out, mag);
        proof {
            assert(mag == -(n as int));
            assert(out@ =~= old(out)@ + dec_int(n as int));
        }
    } else {
        push_u64(out, n as u64);
    }
}

/// `n` in decimal.
pub fn dec_i64(n: i64) -> (r: String)
    ensures
        r@ == dec_int(n as int),
{
    let mut out: String = String::new();
    push_i64(&mut out, n);
    proof {
        assert(Seq::<char>::empty() + dec_int(n as int) =~= dec_int(n as int));
    }
    out
}

/// `n` in decimal, filled on the left with `fill` to `width` characters.
pub fn dec_u64_filled(n: u64, width: usize, fill: char) -> (r: String)
    ensures
        r@ == dec_filled(n as nat, width as nat, fill),
{
    let d: String = dec_u64(n);
    let len: usize = chars_of(d.as_str()).len();
    if len >= width {
        d
    } else {
        let mut out: String = repeat_char(fill, width - len);
        out.push_str(d.as_str());
        out
    }
}

/// The uppercase hexadecimal digit for `d`, for `d` below sixteen.
pub open spec fn hex_upper(d: nat) -> char {
    if d < 10 {
        (48 + d) as char
    } else {
        (55 + d) as char
    }
}

/// The uppercase hexadecimal digit for `d`.
pub fn hex_upper_char(d: u8) -> (r: char)
    requires
        d < 16,
    ensures
        r == hex_upper(d as nat),
{
    if d < 10 {
        (48u8 + d) as char
    } else {
        (55u8 + d) as char
    }
}

/// The lowercase hexadecimal digit for `d`, for `d` below sixteen.
pub open spec fn hex_lower(d: nat) -> char {
    if d < 10 {
        (48 + d) as char
    } else {
        (87 + d) as char
    }
}

/// The lowercase hexadecimal digit for `d`.
pub fn hex_lower_char(d: u8) -> (r: char)
    requires
        d < 16,
    ensures
        r == hex_lower(d as nat),
{
    if d < 10 {
        (48u8 + d) as char
    } else {
        (87u8 + d) as char
    }
}

// ── Reading ─────────────────────────────────────────────────────────────────

pub open spec fn is_digit(c: char) -> bool {
    '0' <= c <= '9'
}

/// The value of a digit.
pub open spec fn digit_value(c: char) -> nat {
    (c as int - 48) as nat
}

pub open spec fn all_digits(s: Seq<char>) -> bool {
    forall|i: int| 0 <= i < s.len() ==> is_digit(#[trigger] s[i])
}

/// The number that a run of digits denotes.
pub open spec fn digits_value(s: Seq<char>) -> nat
    decreases s.len(),
{
    if s.len() == 0 {
        0
    } else {
        digits_value(s.drop_last()) * 10 + digit_value(s.last())
    }
}

/// A non-empty run of digits, read as a number.
pub open spec fn parse_digits_of(s: Seq<char>) -> Option<nat> {
    if s.len() > 0 && all_digits(s) {
        Some(digits_value(s))
    } else {
        None
    }
}

/// Digits with an optional plus sign, read as a number of at most `max`.
pub open spec fn parse_unsigned_of(s: Seq<char>, max: nat) -> Option<nat> {
    let t = if s.len() > 0 && s[0] == '+' {
        s.skip(1)
    } else {
        s
    };
    match parse_digits_of(t) {
        Some(n) => if n <= max {
            Some(n)
        } else {
            None
        },
        None => None,
    }
}

/// Digits with an optional sign, read as a number from `min` to `max`.
pub open spec fn parse_signed_of(s: Seq<char>, min: int, max: int) -> Option<int> {
    if s.len() > 0 && s[0] == '-' {
        match parse_digits_of(s.skip(1)) {
            Some(n) => if -n >= min {
                Some(-n)
            } else {
                None
            },
            None => None,
        }
    } else {
        match parse_unsigned_of(s, max as nat) {
            Some(n) => Some(n as int),
            None => None,
        }
    }
}

proof fn lemma_prefix_value(s: Seq<char>, n: int)
    requires
        0 <= n <= s.len(),
    ensures
        digits_value(s.take(n)) <= digits_value(s),
    decreases s.len() - n,
{
    if n == s.len() {
        assert(s.take(n) =~= s);
    } else {
        lemma_prefix_value(s, n + 1);
        assert(s.take(n + 1).drop_last() =~= s.take(n));
    }
}

/// Reads `v[from..]` as a run of digits, where the number fits.
fn parse_digits(v: &Vec<char>, from: usize) -> (r: Option<u64>)
    requires
        from <= v@.len(),
    ensures
        match parse_digits_of(v@.skip(from as int)) {
            Some(n) => if n <= u64::MAX {
                r == Some(n as u64)
            } else {
                r is None
            },
            None => r is None,
        },
{
    let ghost t = v@.skip(from as int);
    if from == v.len() {
        return None;
    }
    let mut acc: u64 = 0;
    let mut i: usize = from;
    while i < v.len()
        invariant
            from <= i <= v@.len(),
            from < v@.len(),
            t == v@.skip(from as int),
            acc == digits_value(t.take(i - from)),
            all_digits(t.take(i - from)),
        decreases v@.len() - i,
    {
        let c: char = v[i];
        let ghost k = i - from;
        proof {
            assert(t[k] == c);
            assert(t.take(k + 1).drop_last() =~= t.take(k));
            lemma_prefix_value(t, k + 1);
        }
        if !('0' <= c && c <= '9') {
            return None;
        }
        let d: u64 = (c as u32 - 48) as u64;
        match acc.checked_mul(10) {
            None => {
                return None;
            },
            Some(m) => {
                match m.checked_add(d) {
                    None => {
                        return None;
                    },
                    Some(sum) => {
                        acc = sum;
                    },
                }
            },
        }
        proof {
            assert forall|j: int| 0 <= j < k + 1 implies is_digit(#[trigger] t.take(k + 1)[j]) by {
                if j < k {
                    assert(t.take(k + 1)[j] == t.take(k)[j]);
                }
            }
        }
        i += 1;
    }
    proof {
        assert(t.take(i - from) =~= t);
    }
    Some(acc)
}

/// Reads digits with an optional plus sign, of a number of at most `max`.
pub fn parse_unsigned(s: &str, max: u64) -> (r: Option<u64>)
    ensures
        match parse_unsigned_of(s@, max as nat) {
            Some(n) => r == Some(n as u64),
            None => r is None,
        },
{
    let v: Vec<char> = chars_of(s);
    let from: usize = if v.len() > 0 && v[0] == '+' {
        1
    } else {
        0
    };
    proof {
        assert(v@.skip(0) =~= v@);
    }
    match parse_digits(&v, from) {
        Some(n) => if n <= max {
            Some(n)
        } else {
            None
        },
        None => None,
    }
}

/// Reads digits with an optional sign, of a number from `min` to `max`.
pub fn parse_signed(s: &str, min: i64, max: i64) -> (r: Option<i64>)
    requires
        min <= 0 <= max,
    ensures
        match parse_signed_of(s@, min as int, max as int) {
            Some(n) => r == Some(n as i64),
            None => r is None,
        },
{
    let v: Vec<char> = chars_of(s);
    if v.len() > 0 && v[0] == '-' {
        match parse_digits(&v, 1) {
            Some(n) => {
                if n < 9223372036854775808u64 {
                    let k: i64 = -(n as i64);
                    if k >= min {
                        Some(k)
                    } else {
                        None
                    }
                } else if n == 9223372036854775808u64 && min == i64::MIN {
                    Some(i64::MIN)
                } else {
                    None
                }
            },
            None => None,
        }
    } else {
        match parse_unsigned(s, max as u64) {
            Some(n) => Some(n as i64),
            None => None,
        }
    }
}

// ── Reading back what was written ───────────────────────────────────────────

/// Decimal notation is a non-empty run of digits that denotes the number.
pub proof fn lemma_dec_digits(n: nat)
    ensures
        dec_digits(n).len() > 0,
        all_digits(dec_digits(n)),
        digits_value(dec_digits(n)) == n,
    decreases n,
{
    if n < 10 {
        let s = dec_digits(n);
        assert(s.drop_last() =~= Seq::empty());
        assert(digits_value(s.drop_last()) == 0);
    } else {
        lemma_dec_digits(n / 10);
        let s = dec_digits(n);
        assert(s.drop_last() =~= dec_digits(n / 10));
        assert forall|i: int| 0 <= i < s.len() implies is_digit(#[trigger] s[i]) by {
            if i < s.len() - 1 {
                assert(s[i] == dec_digits(n / 10)[i]);
            }
        }
    }
}

/// Reading what was written gives the number back.
pub proof fn law_parse_unsigned_reads_back(n: nat, max: nat)
    requires
        n <= max,
    ensures
        parse_unsigned_of(dec_digits(n), max) == Some(n),
{
    lemma_dec_digits(n);
    assert(is_digit(dec_digits(n)[0]));
}

/// Reading what was written gives the number back.
pub proof fn law_parse_signed_reads_back(n: int, min: int, max: int)
    requires
        min <= n <= max,
        min <= 0 <= max,
    ensures
        parse_signed_of(dec_int(n), min, max) == Some(n),
{
    if n < 0 {
        lemma_dec_digits((-n) as nat);
        assert(dec_int(n).skip(1) =~= dec_digits((-n) as nat));
    } else {
        law_parse_unsigned_reads_back(n as nat, max as nat);
        lemma_dec_digits(n as nat);
        assert(is_digit(dec_digits(n as nat)[0]));
    }
}

// ── The order of numbers and of their digits ────────────────────────────────

/// Ten to the power of `k`.
pub open spec fn pow10(k: nat) -> nat
    decreases k,
{
    if k == 0 {
        1
    } else {
        10 * pow10((k - 1) as nat)
    }
}

/// A number below ten to the power of `k` has at most `k` digits.
pub proof fn lemma_dec_len(n: nat, k: nat)
    requires
        k > 0,
        n < pow10(k),
    ensures
        dec_digits(n).len() <= k,
    decreases k,
{
    if n >= 10 {
        assert(pow10(0) == 1);
        assert(k > 1) by {
            if k == 1 {
                assert(pow10(1) == 10 * pow10(0));
            }
        }
        assert(n / 10 < pow10((k - 1) as nat)) by (nonlinear_arith)
            requires
                n < 10 * pow10((k - 1) as nat),
        ;
        lemma_dec_len(n / 10, (k - 1) as nat);
    }
}

/// Zeros in front of a number do not change it.
pub proof fn lemma_leading_zeros(m: nat, d: Seq<char>)
    ensures
        digits_value(text::repeated('0', m) + d) == digits_value(d),
    decreases d.len(), m,
{
    let s = text::repeated('0', m) + d;
    if d.len() > 0 {
        lemma_leading_zeros(m, d.drop_last());
        assert(s.drop_last() =~= text::repeated('0', m) + d.drop_last());
        assert(s.last() == d.last());
    } else if m > 0 {
        lemma_leading_zeros((m - 1) as nat, d);
        assert(s.drop_last() =~= text::repeated('0', (m - 1) as nat) + d);
        assert(s.last() == '0');
    } else {
        assert(s =~= d);
    }
}

/// A number filled with zeros to a width that it fits in.
pub proof fn lemma_zero_filled(n: nat, width: nat)
    requires
        dec_digits(n).len() <= width,
    ensures
        dec_filled(n, width, '0').len() == width,
        all_digits(dec_filled(n, width, '0')),
        digits_value(dec_filled(n, width, '0')) == n,
{
    lemma_dec_digits(n);
    let d = dec_digits(n);
    let m = (width - d.len()) as nat;
    lemma_leading_zeros(m, d);
    assert(text::repeated('0', 0) + d =~= d);
    let s = dec_filled(n, width, '0');
    assert(s =~= text::repeated('0', m) + d);
    assert forall|i: int| 0 <= i < s.len() implies is_digit(#[trigger] s[i]) by {
        if i >= m {
            assert(s[i] == d[i - m]);
        }
    }
}

/// Of two runs of digits of one length, the one with the smaller value has the
/// smaller digit where they first differ. That place is returned.
pub proof fn lemma_digits_order(a: Seq<char>, b: Seq<char>) -> (k: int)
    requires
        a.len() == b.len(),
        all_digits(a),
        all_digits(b),
        digits_value(a) < digits_value(b),
    ensures
        0 <= k < a.len(),
        a.take(k) == b.take(k),
        a[k] < b[k],
    decreases a.len(),
{
    if a.len() == 0 {
        return 0;
    }
    let p = a.drop_last();
    let q = b.drop_last();
    assert forall|i: int| 0 <= i < p.len() implies is_digit(#[trigger] p[i]) && is_digit(q[i]) by {
        assert(is_digit(a[i]) && is_digit(b[i]));
    }
    assert(all_digits(q)) by {
        assert forall|i: int| 0 <= i < q.len() implies is_digit(#[trigger] q[i]) by {
            assert(is_digit(b[i]));
        }
    }
    assert(is_digit(a[a.len() - 1]) && is_digit(b[b.len() - 1]));
    if digits_value(p) < digits_value(q) {
        let k = lemma_digits_order(p, q);
        assert(a.take(k) =~= p.take(k));
        assert(b.take(k) =~= q.take(k));
        k
    } else if digits_value(q) < digits_value(p) {
        let k = lemma_digits_order(q, p);
        k
    } else {
        lemma_same_digits(p, q);
        assert(a.take(a.len() - 1) =~= p);
        assert(b.take(b.len() - 1) =~= q);
        a.len() - 1
    }
}

/// Two runs of digits of one length and one value are the same.
pub proof fn lemma_same_digits(a: Seq<char>, b: Seq<char>)
    requires
        a.len() == b.len(),
        all_digits(a),
        all_digits(b),
        digits_value(a) == digits_value(b),
    ensures
        a == b,
    decreases a.len(),
{
    if a.len() > 0 {
        let p = a.drop_last();
        let q = b.drop_last();
        assert forall|i: int| 0 <= i < p.len() implies is_digit(#[trigger] p[i]) by {
            assert(is_digit(a[i]));
        }
        assert forall|i: int| 0 <= i < q.len() implies is_digit(#[trigger] q[i]) by {
            assert(is_digit(b[i]));
        }
        assert(is_digit(a[a.len() - 1]) && is_digit(b[b.len() - 1]));
        lemma_same_digits(p, q);
        assert(a =~= p.push(a.last()));
        assert(b =~= q.push(b.last()));
    } else {
        assert(a =~= b);
    }
}

} // verus!
