//! Spans of time on the command line: `now`, `30s`, `3 hours ago`.

use vstd::prelude::*;
use crate::decimal;
use crate::decimal::parse_signed;
use crate::history::args::{ParseOutcome, ParseOutcomeView};
use crate::text;
use crate::text::{
    ascii_lower, chars_of, debug_str, joined, split_words, str_eq, string_of_range, trim_str,
};

verus! {

pub open spec fn clamp_i64(n: int) -> int {
    if n < i64::MIN {
        i64::MIN as int
    } else if n > i64::MAX {
        i64::MAX as int
    } else {
        n
    }
}

/// The milliseconds of a unit of time, whatever its case.
pub open spec fn unit_ms(unit: Seq<char>) -> Option<int> {
    let u = text::lower_of(unit);
    if u == "s"@ || u == "sec"@ || u == "secs"@ || u == "second"@ || u == "seconds"@ {
        Some(1_000)
    } else if u == "m"@ || u == "min"@ || u == "mins"@ || u == "minute"@ || u == "minutes"@ {
        Some(60_000)
    } else if u == "h"@ || u == "hr"@ || u == "hrs"@ || u == "hour"@ || u == "hours"@ {
        Some(3_600_000)
    } else if u == "d"@ || u == "day"@ || u == "days"@ {
        Some(86_400_000)
    } else if u == "w"@ || u == "wk"@ || u == "wks"@ || u == "week"@ || u == "weeks"@ {
        Some(604_800_000)
    } else {
        None
    }
}

/// The milliseconds of a unit of time.
pub fn unit_to_ms(unit: &str) -> (r: Option<i64>)
    ensures
        match r {
            Some(n) => unit_ms(unit@) == Some(n as int) && n > 0,
            None => unit_ms(unit@) is None,
        },
{
    let u: String = ascii_lower(unit);
    let u: &str = u.as_str();
    if str_eq(u, "s") || str_eq(u, "sec") || str_eq(u, "secs") || str_eq(u, "second") || str_eq(
        u,
        "seconds",
    ) {
        Some(1_000)
    } else if str_eq(u, "m") || str_eq(u, "min") || str_eq(u, "mins") || str_eq(u, "minute")
        || str_eq(u, "minutes") {
        Some(60_000)
    } else if str_eq(u, "h") || str_eq(u, "hr") || str_eq(u, "hrs") || str_eq(u, "hour") || str_eq(
        u,
        "hours",
    ) {
        Some(3_600_000)
    } else if str_eq(u, "d") || str_eq(u, "day") || str_eq(u, "days") {
        Some(86_400_000)
    } else if str_eq(u, "w") || str_eq(u, "wk") || str_eq(u, "wks") || str_eq(u, "week") || str_eq(
        u,
        "weeks",
    ) {
        Some(604_800_000)
    } else {
        None
    }
}

/// The length of the longest prefix of digits.
pub open spec fn digits_len(s: Seq<char>) -> nat
    decreases s.len(),
{
    if s.len() > 0 && decimal::is_digit(s[0]) {
        1 + digits_len(s.skip(1))
    } else {
        0
    }
}

/// A span in the short form: digits and a unit, as in `30s`.
pub open spec fn short_span_of(t: Seq<char>) -> Result<int, ParseOutcomeView> {
    let cut = digits_len(t) as int;
    if cut >= t.len() {
        Err(
            ParseOutcomeView::Message(
                text::debug_quoted(t) + ": missing unit suffix (expected one of s,m,h,d,w)"@,
            ),
        )
    } else if cut == 0 {
        Err(ParseOutcomeView::Message(text::debug_quoted(t) + ": missing numeric prefix"@))
    } else {
        match decimal::parse_signed_of(t.take(cut), i64::MIN as int, i64::MAX as int) {
            None => Err(ParseOutcomeView::Message("invalid count in "@ + text::debug_quoted(t))),
            Some(n) => match unit_ms(t.skip(cut)) {
                None => Err(
                    ParseOutcomeView::Message(
                        "unknown unit suffix "@ + text::debug_quoted(t.skip(cut)) + " in "@
                            + text::debug_quoted(t),
                    ),
                ),
                Some(u) => Ok(clamp_i64(n * u)),
            },
        }
    }
}

/// A span in the long form: a count, a unit and `ago`.
pub open spec fn long_span_of(
    t: Seq<char>,
    count: Seq<char>,
    unit: Seq<char>,
) -> Result<int, ParseOutcomeView> {
    match decimal::parse_signed_of(count, i64::MIN as int, i64::MAX as int) {
        None => Err(ParseOutcomeView::Message("invalid count in "@ + text::debug_quoted(t))),
        Some(n) => match unit_ms(unit) {
            None => Err(ParseOutcomeView::Message("unknown time unit in "@ + text::debug_quoted(t))),
            Some(u) => Ok(clamp_i64(n * u)),
        },
    }
}

/// The milliseconds of a span, saturated, or why `s` is none.
pub open spec fn span_of(s: Seq<char>) -> Result<int, ParseOutcomeView> {
    let t = text::trim_of(s);
    let parts = text::words_of(t);
    if text::lower_of(t) == text::lower_of("now"@) {
        Ok(0)
    } else if parts.len() == 3 && text::lower_of(parts[2]) == text::lower_of("ago"@) {
        long_span_of(t, parts[0], parts[1])
    } else {
        short_span_of(t)
    }
}

/// `n * u`, saturated.
fn saturating_product(n: i64, u: i64) -> (r: i64)
    requires
        u > 0,
    ensures
        r == clamp_i64(n * u),
{
    match n.checked_mul(u) {
        Some(p) => p,
        None => {
            proof {
                assert(n < 0 ==> n * u < 0) by (nonlinear_arith)
                    requires
                        u > 0,
                ;
                assert(n >= 0 ==> n * u >= 0) by (nonlinear_arith)
                    requires
                        u > 0,
                ;
            }
            if n < 0 {
                i64::MIN
            } else {
                i64::MAX
            }
        },
    }
}

/// Whether `a` and `b` are the same, but for the case of ASCII letters.
pub fn same_ignoring_case(a: &str, b: &str) -> (r: bool)
    ensures
        r == (text::lower_of(a@) == text::lower_of(b@)),
{
    str_eq(ascii_lower(a).as_str(), ascii_lower(b).as_str())
}

fn message(text: String) -> (r: ParseOutcome)
    ensures
        r@ == ParseOutcomeView::Message(text@),
{
    ParseOutcome::Message(text)
}

fn parse_short_span(t: &str) -> (r: Result<i64, ParseOutcome>)
    ensures
        match r {
            Ok(n) => short_span_of(t@) == Ok::<int, ParseOutcomeView>(n as int),
            Err(e) => short_span_of(t@) == Err::<int, ParseOutcomeView>(e@),
        },
{
    let v: Vec<char> = chars_of(t);
    let mut cut: usize = 0;
    proof {
        assert(v@.skip(0) =~= v@);
    }
    while cut < v.len() && '0' <= v[cut] && v[cut] <= '9'
        invariant
            cut <= v@.len(),
            digits_len(v@) == cut + digits_len(v@.skip(cut as int)),
        decreases v@.len() - cut,
    {
        proof {
            assert(v@.skip(cut as int)[0] == v@[cut as int]);
            assert(v@.skip(cut as int).skip(1) =~= v@.skip(cut as int + 1));
        }
        cut += 1;
    }
    proof {
        if cut < v@.len() {
            assert(v@.skip(cut as int)[0] == v@[cut as int]);
        }
        assert(digits_len(v@) == cut);
    }
    if cut == v.len() {
        return Err(
            message(
                joined(
                    debug_str(t).as_str(),
                    ": missing unit suffix (expected one of s,m,h,d,w)",
                ),
            ),
        );
    }
    if cut == 0 {
        return Err(message(joined(debug_str(t).as_str(), ": missing numeric prefix")));
    }
    proof {
        assert(v@.take(cut as int) =~= v@.subrange(0, cut as int));
        assert(v@.skip(cut as int) =~= v@.subrange(cut as int, v@.len() as int));
    }
    let digits: String = string_of_range(&v, 0, cut);
    let suffix: String = string_of_range(&v, cut, v.len());
    match parse_signed(digits.as_str(), i64::MIN, i64::MAX) {
        None => Err(message(joined("invalid count in ", debug_str(t).as_str()))),
        Some(n) => match unit_to_ms(suffix.as_str()) {
            None => {
                let mut out: String = joined(
                    "unknown unit suffix ",
                    debug_str(suffix.as_str()).as_str(),
                );
                out.push_str(" in ");
                out.push_str(debug_str(t).as_str());
                Err(message(out))
            },
            Some(u) => Ok(saturating_product(n, u)),
        },
    }
}

fn parse_long_span(t: &str, count: &str, unit: &str) -> (r: Result<i64, ParseOutcome>)
    ensures
        match r {
            Ok(n) => long_span_of(t@, count@, unit@) == Ok::<int, ParseOutcomeView>(n as int),
            Err(e) => long_span_of(t@, count@, unit@) == Err::<int, ParseOutcomeView>(e@),
        },
{
    match parse_signed(count, i64::MIN, i64::MAX) {
        None => Err(message(joined("invalid count in ", debug_str(t).as_str()))),
        Some(n) => match unit_to_ms(unit) {
            None => Err(message(joined("unknown time unit in ", debug_str(t).as_str()))),
            Some(u) => Ok(saturating_product(n, u)),
        },
    }
}

/// Reads a span of time as milliseconds.
///
/// `now` is zero. `Nx` and `N <unit> ago` are `N` units, for seconds, minutes,
/// hours, days and weeks.
pub fn parse_duration_to_ms(s: &str) -> (r: Result<i64, ParseOutcome>)
    ensures
        match r {
            Ok(n) => span_of(s@) == Ok::<int, ParseOutcomeView>(n as int),
            Err(e) => span_of(s@) == Err::<int, ParseOutcomeView>(e@),
        },
{
    let t: String = trim_str(s);
    if same_ignoring_case(t.as_str(), "now") {
        return Ok(0);
    }
    let parts: Vec<String> = split_words(t.as_str());
    proof {
        assert(parts@.len() == text::words_of(t@).len());
    }
    if parts.len() == 3 {
        proof {
            assert(text::views(parts@)[0] == parts@[0]@);
            assert(text::views(parts@)[1] == parts@[1]@);
            assert(text::views(parts@)[2] == parts@[2]@);
        }
        if same_ignoring_case(parts[2].as_str(), "ago") {
            return parse_long_span(t.as_str(), parts[0].as_str(), parts[1].as_str());
        }
    }
    parse_short_span(t.as_str())
}

/// The moment that a span before `now` denotes, saturated.
pub open spec fn since_of(now: i64, s: Seq<char>) -> Result<int, ParseOutcomeView> {
    match span_of(s) {
        Ok(ms) => Ok(clamp_i64(now - ms)),
        Err(e) => Err(e),
    }
}

/// The moment that the span `s` before `now` denotes.
pub fn parse_since(now: i64, s: &str) -> (r: Result<i64, ParseOutcome>)
    ensures
        match r {
            Ok(n) => since_of(now, s@) == Ok::<int, ParseOutcomeView>(n as int),
            Err(e) => since_of(now, s@) == Err::<int, ParseOutcomeView>(e@),
        },
{
    match parse_duration_to_ms(s) {
        Ok(ms) => match now.checked_sub(ms) {
            Some(n) => Ok(n),
            None => if ms > 0 {
                Ok(i64::MIN)
            } else {
                Ok(i64::MAX)
            },
        },
        Err(e) => Err(e),
    }
}

// ── Laws ────────────────────────────────────────────────────────────────────

/// Not empty, and without white space.
pub open spec fn is_solid(s: Seq<char>) -> bool {
    s.len() > 0 && forall|i: int| 0 <= i < s.len() ==> !text::is_white(#[trigger] s[i])
}

/// Not empty, and of ASCII letters.
spec fn is_lettered(s: Seq<char>) -> bool {
    s.len() > 0 && forall|i: int|
        0 <= i < s.len() ==> 'a' <= #[trigger] text::lower_char(s[i]) <= 'z'
}

proof fn lemma_lettered(s: Seq<char>, low: Seq<char>)
    requires
        text::lower_of(s) == low,
        low.len() > 0,
        forall|i: int| 0 <= i < low.len() ==> 'a' <= #[trigger] low[i] <= 'z',
    ensures
        is_lettered(s),
        is_solid(s),
        !decimal::is_digit(s[0]),
{
    assert(s.len() == low.len());
    assert forall|i: int| 0 <= i < s.len() implies 'a' <= #[trigger] text::lower_char(s[i]) <= 'z' by {
        assert(low[i] == text::lower_char(s[i]));
    }
    assert forall|i: int| 0 <= i < s.len() implies !text::is_white(#[trigger] s[i]) by {
        assert('a' <= text::lower_char(s[i]) <= 'z');
    }
    assert('a' <= text::lower_char(s[0]) <= 'z');
}

/// The units are words of letters, none of them `now`.
proof fn lemma_unit(unit: Seq<char>)
    requires
        unit_ms(unit) is Some,
    ensures
        is_solid(unit),
        !decimal::is_digit(unit[0]),
        0 < unit_ms(unit)->0 <= 604_800_000,
        text::lower_of(unit) != text::lower_of("now"@),
{
    reveal_strlit("s");
    reveal_strlit("sec");
    reveal_strlit("secs");
    reveal_strlit("second");
    reveal_strlit("seconds");
    reveal_strlit("m");
    reveal_strlit("min");
    reveal_strlit("mins");
    reveal_strlit("minute");
    reveal_strlit("minutes");
    reveal_strlit("h");
    reveal_strlit("hr");
    reveal_strlit("hrs");
    reveal_strlit("hour");
    reveal_strlit("hours");
    reveal_strlit("d");
    reveal_strlit("day");
    reveal_strlit("days");
    reveal_strlit("w");
    reveal_strlit("wk");
    reveal_strlit("wks");
    reveal_strlit("week");
    reveal_strlit("weeks");
    reveal_strlit("now");
    let u = text::lower_of(unit);
    lemma_lettered(unit, u);
    if u == text::lower_of("now"@) {
        assert(u[0] == text::lower_char('n'));
        assert(u.len() == 3);
    }
}

proof fn lemma_digits_len(d: Seq<char>, rest: Seq<char>)
    requires
        decimal::all_digits(d),
        rest.len() > 0 ==> !decimal::is_digit(rest[0]),
    ensures
        digits_len(d + rest) == d.len(),
    decreases d.len(),
{
    let s = d + rest;
    if d.len() == 0 {
        assert(s =~= rest);
    } else {
        assert(decimal::is_digit(d[0]));
        assert(s[0] == d[0]);
        assert(s.skip(1) =~= d.skip(1) + rest);
        assert forall|i: int| 0 <= i < d.skip(1).len() implies decimal::is_digit(#[trigger] d.skip(1)[i]) by {
            assert(decimal::is_digit(d[i + 1]));
        }
        lemma_digits_len(d.skip(1), rest);
    }
}

/// A count is a word that starts with a digit.
proof fn lemma_count(n: u32)
    ensures
        decimal::all_digits(decimal::dec_digits(n as nat)),
        is_solid(decimal::dec_digits(n as nat)),
        decimal::is_digit(decimal::dec_digits(n as nat)[0]),
        decimal::parse_signed_of(decimal::dec_digits(n as nat), i64::MIN as int, i64::MAX as int) == Some(
            n as int,
        ),
{
    let d = decimal::dec_digits(n as nat);
    decimal::lemma_dec_digits(n as nat);
    decimal::law_parse_signed_reads_back(n as int, i64::MIN as int, i64::MAX as int);
    assert(decimal::is_digit(d[0]));
    assert forall|i: int| 0 <= i < d.len() implies !text::is_white(#[trigger] d[i]) by {
        assert(decimal::is_digit(d[i]));
    }
}

/// A word is read in the short form, but for `now`.
proof fn lemma_one_word(t: Seq<char>)
    requires
        is_solid(t),
        text::lower_of(t) != text::lower_of("now"@),
    ensures
        span_of(t) == short_span_of(t),
{
    text::lemma_trim_solid(t);
    assert forall|i: int| 0 <= i < t.len() implies !text::is_gap(text::Gap::White, #[trigger] t[i]) by {
        assert(!text::is_white(t[i]));
    }
    text::lemma_runs_first(text::Gap::White, t, Seq::empty());
    assert(t + Seq::empty() =~= t);
    assert(text::words_of(t) =~= seq![t]);
}

/// What starts with a digit is not `now`.
proof fn lemma_not_now(t: Seq<char>)
    requires
        t.len() > 0,
        decimal::is_digit(t[0]),
    ensures
        text::lower_of(t) != text::lower_of("now"@),
{
    reveal_strlit("now");
    if text::lower_of(t) == text::lower_of("now"@) {
        assert(text::lower_of(t)[0] == text::lower_char('n'));
    }
}

/// A count, a unit and `ago`.
pub open spec fn long_form(n: u32, unit: Seq<char>, ago: Seq<char>) -> Seq<char> {
    decimal::dec_digits(n as nat) + seq![' '] + unit + seq![' '] + ago
}

/// A count and a unit.
pub open spec fn short_form(n: u32, unit: Seq<char>) -> Seq<char> {
    decimal::dec_digits(n as nat) + unit
}

/// The short form is read as its digits and the rest.
proof fn lemma_short_form(n: u32, unit: Seq<char>)
    requires
        is_solid(unit),
        !decimal::is_digit(unit[0]),
    ensures
        span_of(short_form(n, unit)) == short_span_of(short_form(n, unit)),
        digits_len(short_form(n, unit)) == decimal::dec_digits(n as nat).len(),
        short_form(n, unit).take(decimal::dec_digits(n as nat).len() as int) == decimal::dec_digits(
            n as nat,
        ),
        short_form(n, unit).skip(decimal::dec_digits(n as nat).len() as int) == unit,
{
    let d = decimal::dec_digits(n as nat);
    let t = short_form(n, unit);
    lemma_count(n);
    assert(t[0] == d[0]);
    lemma_not_now(t);
    assert forall|i: int| 0 <= i < t.len() implies !text::is_white(#[trigger] t[i]) by {
        if i < d.len() {
            assert(t[i] == d[i]);
        } else {
            assert(t[i] == unit[i - d.len()]);
        }
    }
    lemma_one_word(t);
    lemma_digits_len(d, unit);
    assert(t.take(d.len() as int) =~= d);
    assert(t.skip(d.len() as int) =~= unit);
}

/// The long form is read as its three words.
proof fn lemma_long_form(n: u32, unit: Seq<char>, ago: Seq<char>)
    requires
        is_solid(unit),
        text::lower_of(ago) == text::lower_of("ago"@),
    ensures
        span_of(long_form(n, unit, ago)) == long_span_of(
            long_form(n, unit, ago),
            decimal::dec_digits(n as nat),
            unit,
        ),
{
    reveal_strlit("ago");
    let g = text::Gap::White;
    let d = decimal::dec_digits(n as nat);
    let t = long_form(n, unit, ago);
    lemma_count(n);
    assert(text::lower_of("ago"@) =~= seq!['a', 'g', 'o']);
    lemma_lettered(ago, seq!['a', 'g', 'o']);
    assert(t[0] == d[0]);
    assert(t.last() == ago.last());
    assert(!text::is_white(d[0]));
    assert(!text::is_white(ago[ago.len() - 1]));
    text::lemma_trim_solid(t);
    lemma_not_now(t);
    let r2 = seq![' '] + ago;
    let r1 = seq![' '] + (unit + r2);
    assert(t =~= d + r1);
    assert(ago =~= ago + Seq::empty());
    assert forall|i: int| 0 <= i < d.len() implies !text::is_gap(g, #[trigger] d[i]) by {
        assert(!text::is_white(d[i]));
    }
    assert forall|i: int| 0 <= i < unit.len() implies !text::is_gap(g, #[trigger] unit[i]) by {
        assert(!text::is_white(unit[i]));
    }
    assert forall|i: int| 0 <= i < ago.len() implies !text::is_gap(g, #[trigger] ago[i]) by {
        assert(!text::is_white(ago[i]));
    }
    text::lemma_runs_first(g, d, r1);
    text::lemma_runs_gap(g, ' ', unit + r2);
    text::lemma_runs_first(g, unit, r2);
    text::lemma_runs_gap(g, ' ', ago);
    text::lemma_runs_first(g, ago, Seq::empty());
    assert(text::words_of(t) =~= seq![d, unit, ago]);
}

/// `30s` and `30 seconds ago` are the same span: the count times the unit, whatever the
/// case of the letters.
pub proof fn law_both_forms_denote_the_product(n: u32, unit: Seq<char>, ago: Seq<char>)
    requires
        unit_ms(unit) is Some,
        text::lower_of(ago) == text::lower_of("ago"@),
    ensures
        span_of(short_form(n, unit)) == Ok::<int, ParseOutcomeView>(n * unit_ms(unit)->0),
        span_of(long_form(n, unit, ago)) == Ok::<int, ParseOutcomeView>(n * unit_ms(unit)->0),
{
    lemma_count(n);
    lemma_unit(unit);
    lemma_short_form(n, unit);
    lemma_long_form(n, unit, ago);
    let u = unit_ms(unit)->0;
    assert(0 <= n * u <= 0xffff_ffff * 604_800_000) by (nonlinear_arith)
        requires
            0 <= n <= 0xffff_ffff,
            0 < u <= 604_800_000,
    ;
}

/// `now` is zero, whatever the case of its letters.
pub proof fn law_now_is_zero(t: Seq<char>)
    requires
        text::lower_of(t) == text::lower_of("now"@),
    ensures
        span_of(t) == Ok::<int, ParseOutcomeView>(0),
{
    reveal_strlit("now");
    assert(text::lower_of("now"@) =~= seq!['n', 'o', 'w']);
    lemma_lettered(t, seq!['n', 'o', 'w']);
    assert(!text::is_white(t[t.len() - 1]));
    text::lemma_trim_solid(t);
}

/// A count alone and a unit alone are no spans.
pub proof fn law_half_a_span_is_refused(n: u32, unit: Seq<char>)
    requires
        unit_ms(unit) is Some,
    ensures
        span_of(decimal::dec_digits(n as nat)) is Err,
        span_of(unit) is Err,
{
    let d = decimal::dec_digits(n as nat);
    lemma_count(n);
    lemma_not_now(d);
    lemma_one_word(d);
    lemma_digits_len(d, Seq::empty());
    assert(d + Seq::empty() =~= d);
    lemma_unit(unit);
    lemma_one_word(unit);
}

/// A word that is no unit makes no span, in either form.
pub proof fn law_unknown_unit_is_refused(n: u32, unit: Seq<char>, ago: Seq<char>)
    requires
        is_solid(unit),
        unit_ms(unit) is None,
        text::lower_of(ago) == text::lower_of("ago"@),
    ensures
        !decimal::is_digit(unit[0]) ==> span_of(short_form(n, unit)) is Err,
        span_of(long_form(n, unit, ago)) is Err,
{
    lemma_count(n);
    if !decimal::is_digit(unit[0]) {
        lemma_short_form(n, unit);
    }
    lemma_long_form(n, unit, ago);
}

/// The units are what they are called: each has its short name, its long ones and their
/// plurals, in any case, and is so many of the next smaller one.
pub proof fn law_units_are_what_they_are_called(unit: Seq<char>)
    ensures
        unit_ms(unit) == Some(1_000int) <==> {
            let u = text::lower_of(unit);
            u == "s"@ || u == "sec"@ || u == "secs"@ || u == "second"@ || u == "seconds"@
        },
        unit_ms(unit) == Some(60 * 1_000int) <==> {
            let u = text::lower_of(unit);
            u == "m"@ || u == "min"@ || u == "mins"@ || u == "minute"@ || u == "minutes"@
        },
        unit_ms(unit) == Some(60 * 60 * 1_000int) <==> {
            let u = text::lower_of(unit);
            u == "h"@ || u == "hr"@ || u == "hrs"@ || u == "hour"@ || u == "hours"@
        },
        unit_ms(unit) == Some(24 * 60 * 60 * 1_000int) <==> {
            let u = text::lower_of(unit);
            u == "d"@ || u == "day"@ || u == "days"@
        },
        unit_ms(unit) == Some(7 * 24 * 60 * 60 * 1_000int) <==> {
            let u = text::lower_of(unit);
            u == "w"@ || u == "wk"@ || u == "wks"@ || u == "week"@ || u == "weeks"@
        },
{
    reveal_strlit("s");
    reveal_strlit("sec");
    reveal_strlit("secs");
    reveal_strlit("second");
    reveal_strlit("seconds");
    reveal_strlit("m");
    reveal_strlit("min");
    reveal_strlit("mins");
    reveal_strlit("minute");
    reveal_strlit("minutes");
    reveal_strlit("h");
    reveal_strlit("hr");
    reveal_strlit("hrs");
    reveal_strlit("hour");
    reveal_strlit("hours");
    reveal_strlit("d");
    reveal_strlit("day");
    reveal_strlit("days");
    reveal_strlit("w");
    reveal_strlit("wk");
    reveal_strlit("wks");
    reveal_strlit("week");
    reveal_strlit("weeks");
    let u = text::lower_of(unit);
    assert(u == "s"@ || u == "sec"@ || u == "secs"@ || u == "second"@ || u == "seconds"@ ==> u[0] == 's');
    assert(u == "m"@ || u == "min"@ || u == "mins"@ || u == "minute"@ || u == "minutes"@ ==> u[0] == 'm');
    assert(u == "h"@ || u == "hr"@ || u == "hrs"@ || u == "hour"@ || u == "hours"@ ==> u[0] == 'h');
    assert(u == "d"@ || u == "day"@ || u == "days"@ ==> u[0] == 'd');
    assert(u == "w"@ || u == "wk"@ || u == "wks"@ || u == "week"@ || u == "weeks"@ ==> u[0] == 'w');
}

/// A moment so long ago is now less that length of time, as far as it can be counted.
pub proof fn law_since_goes_back(now: i64, s: Seq<char>)
    ensures
        span_of(s) matches Ok(ms) ==> (since_of(now, s) matches Ok(t) && (i64::MIN <= now - ms <= i64::MAX
            ==> t == now - ms) && i64::MIN <= t <= i64::MAX),
        span_of(s) is Err <==> since_of(now, s) is Err,
{
}

/// A span that fits is the product of its count and its unit, and one that does not is
/// the largest or the smallest that does, on the side of its sign.
pub proof fn law_long_spans_stop_at_the_bounds(t: Seq<char>, n: i64, unit: Seq<char>)
    requires
        unit_ms(unit) is Some,
    ensures
        ({
            let product = n * unit_ms(unit)->0;
            let said = long_span_of(t, decimal::dec_int(n as int), unit);
            &&& said matches Ok(v)
            &&& i64::MIN <= v <= i64::MAX
            &&& i64::MIN <= product <= i64::MAX ==> v == product
            &&& product > i64::MAX ==> v == i64::MAX
            &&& product < i64::MIN ==> v == i64::MIN
        }),
{
    decimal::law_parse_signed_reads_back(n as int, i64::MIN as int, i64::MAX as int);
}

} // verus!
