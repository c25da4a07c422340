//! The layout of the health report.

use vstd::prelude::*;
use crate::color;
use crate::health::check;
use crate::health::check::{Check, CheckView, Severity};
use crate::text;
use crate::text::{byte_len_of, joined, repeat_char};

verus! {

/// The width of the report's boxes inside their borders.
pub const INNER_WIDTH: usize = 68;

/// `on` where colours are shown.
pub open spec fn escape_of(color: bool, on: Seq<char>) -> Seq<char> {
    if color {
        on
    } else {
        Seq::empty()
    }
}

/// `on` where colours are shown.
pub fn escape(color: bool, on: &'static str) -> (r: &'static str)
    ensures
        r@ == escape_of(color, on@),
{
    if color {
        on
    } else {
        let none: &'static str = "";
        proof {
            reveal_strlit("");
            assert(none@ =~= Seq::empty());
        }
        none
    }
}

/// As many spaces as `width` leaves after `used`.
pub open spec fn filling(width: nat, used: nat) -> Seq<char> {
    text::repeated(
        ' ',
        if used < width {
            (width - used) as nat
        } else {
            0
        },
    )
}

/// As many spaces as `width` leaves after `used`.
pub fn fill(width: usize, used: usize) -> (r: String)
    ensures
        r@ == filling(width as nat, used as nat),
{
    if used < width {
        repeat_char(' ', width - used)
    } else {
        repeat_char(' ', 0)
    }
}

// ── The header ──────────────────────────────────────────────────────────────

/// A line of a box that holds nothing.
pub open spec fn blank_row() -> Seq<char> {
    "║"@ + text::repeated(' ', INNER_WIDTH as nat) + "║\n"@
}

/// The title in its box.
pub open spec fn header_of(color: bool) -> Seq<char> {
    let bar = text::repeated('═', INNER_WIDTH as nat);
    let title = "System Health Report"@;
    "╔"@ + bar + "╗\n"@ + blank_row() + "║  "@ + escape_of(color, "\x1b[1m"@) + title + escape_of(
        color,
        "\x1b[0m"@,
    ) + filling(INNER_WIDTH as nat, 2 + text::byte_len(title)) + "║\n"@ + blank_row() + "╚"@ + bar + "╝\n"@
        + "\n"@
}

fn blank_line() -> (r: String)
    ensures
        r@ == blank_row(),
{
    let mut s: String = joined("║", repeat_char(' ', INNER_WIDTH).as_str());
    s.push_str("║\n");
    s
}

/// The title in its box.
fn header(color: bool) -> (r: String)
    ensures
        r@ == header_of(color),
{
    let bar: String = repeat_char('═', INNER_WIDTH);
    let title: &'static str = "System Health Report";
    let blank: String = blank_line();
    let len: usize = byte_len_of(title);
    let pad: String = if len < INNER_WIDTH {
        fill(INNER_WIDTH, 2 + len)
    } else {
        repeat_char(' ', 0)
    };
    let mut out: String = joined("╔", bar.as_str());
    out.push_str("╗\n");
    out.push_str(blank.as_str());
    out.push_str("║  ");
    out.push_str(escape(color, "\x1b[1m"));
    out.push_str(title);
    out.push_str(escape(color, "\x1b[0m"));
    out.push_str(pad.as_str());
    out.push_str("║\n");
    out.push_str(blank.as_str());
    out.push_str("╚");
    out.push_str(bar.as_str());
    out.push_str("╝\n");
    out.push_str("\n");
    out
}

// ── The checks ──────────────────────────────────────────────────────────────

/// The width of the widest label.
pub open spec fn label_width_of(checks: Seq<CheckView>) -> nat
    decreases checks.len(),
{
    if checks.len() == 0 {
        0
    } else {
        let rest = label_width_of(checks.drop_last());
        let last = text::byte_len(checks.last().label);
        if last > rest {
            last
        } else {
            rest
        }
    }
}

/// The width of the widest label.
pub fn label_width(checks: &Vec<Check>) -> (r: usize)
    ensures
        r == label_width_of(check::check_views(checks@)),
{
    let mut width: usize = 0;
    let mut i: usize = 0;
    let ghost all = check::check_views(checks@);
    while i < checks.len()
        invariant
            all == check::check_views(checks@),
            i <= checks@.len(),
            width == label_width_of(all.take(i as int)),
        decreases checks@.len() - i,
    {
        let len: usize = byte_len_of(checks[i].label);
        proof {
            let t = all.take(i as int + 1);
            assert(t.drop_last() =~= all.take(i as int));
            assert(t.last() == checks@[i as int]@);
        }
        if len > width {
            width = len;
        }
        i += 1;
    }
    proof {
        assert(all.take(i as int) =~= all);
    }
    width
}

/// The colour of a hint; none where a colour would mean nothing.
pub open spec fn severity_color_of(severity: Severity, color: bool) -> Option<Seq<char>> {
    if !color {
        Some(Seq::empty())
    } else {
        match severity {
            Severity::Warn => Some("\x1b[33m"@),
            Severity::Critical => Some("\x1b[31m"@),
            _ => None,
        }
    }
}

/// The colour of a hint; none where a colour would mean nothing.
pub fn severity_color(severity: Severity, color: bool) -> (r: Option<&'static str>)
    ensures
        text::opt_str_view(r) == severity_color_of(severity, color),
{
    if !color {
        return Some(escape(false, ""));
    }
    match severity {
        Severity::Warn => Some("\x1b[33m"),
        Severity::Critical => Some("\x1b[31m"),
        _ => None,
    }
}

/// What stands after a value: its hint, or that it is critical.
pub open spec fn note_of(c: CheckView, color: bool) -> Seq<char> {
    match (c.hint, severity_color_of(c.severity, color)) {
        (Some(hint), Some(shade)) => " "@ + shade + "("@ + hint + ")"@ + escape_of(color, "\x1b[0m"@),
        _ => if c.severity == Severity::Critical && c.hint is None && color {
            " "@ + "\x1b[31m"@ + "(critical)"@ + "\x1b[0m"@
        } else {
            Seq::empty()
        },
    }
}

/// One check: its label in a column of the given width, its value and its note.
pub open spec fn check_line_of(c: CheckView, width: nat, color: bool) -> Seq<char> {
    "  "@ + escape_of(color, "\x1b[33m"@) + c.label + ":"@ + escape_of(color, "\x1b[0m"@) + filling(
        width,
        text::byte_len(c.label),
    ) + " "@ + c.value + note_of(c, color) + "\n"@
}

fn note(c: &Check, color: bool) -> (r: String)
    ensures
        r@ == note_of(c@, color),
{
    match &c.hint {
        Some(hint) => match severity_color(c.severity, color) {
            Some(shade) => {
                let mut s: String = joined(" ", shade);
                s.push_str("(");
                s.push_str(hint.as_str());
                s.push_str(")");
                s.push_str(escape(color, "\x1b[0m"));
                s
            },
            None => String::new(),
        },
        None => {
            if c.severity == Severity::Critical && color {
                let mut s: String = joined(" ", "\x1b[31m");
                s.push_str("(critical)");
                s.push_str("\x1b[0m");
                s
            } else {
                String::new()
            }
        },
    }
}

fn check_line(c: &Check, width: usize, color: bool) -> (r: String)
    ensures
        r@ == check_line_of(c@, width as nat, color),
{
    let mut s: String = joined("  ", escape(color, "\x1b[33m"));
    s.push_str(c.label);
    s.push_str(":");
    s.push_str(escape(color, "\x1b[0m"));
    s.push_str(fill(width, byte_len_of(c.label)).as_str());
    s.push_str(" ");
    s.push_str(c.value.as_str());
    s.push_str(note(c, color).as_str());
    s.push_str("\n");
    s
}

/// The lines of some checks, in order.
pub open spec fn check_lines_of(checks: Seq<CheckView>, width: nat, color: bool) -> Seq<char>
    decreases checks.len(),
{
    if checks.len() == 0 {
        Seq::empty()
    } else {
        check_lines_of(checks.drop_last(), width, color) + check_line_of(checks.last(), width, color)
    }
}

fn check_lines(checks: &Vec<Check>, color: bool) -> (r: String)
    ensures
        r@ == check_lines_of(
            check::check_views(checks@),
            label_width_of(check::check_views(checks@)),
            color,
        ),
{
    let width: usize = label_width(checks);
    let mut out: String = String::new();
    let mut i: usize = 0;
    let ghost all = check::check_views(checks@);
    while i < checks.len()
        invariant
            all == check::check_views(checks@),
            i <= checks@.len(),
            out@ == check_lines_of(all.take(i as int), width as nat, color),
        decreases checks@.len() - i,
    {
        proof {
            let t = all.take(i as int + 1);
            assert(t.drop_last() =~= all.take(i as int));
            assert(t.last() == checks@[i as int]@);
        }
        out.push_str(check_line(&checks[i], width, color).as_str());
        i += 1;
    }
    proof {
        assert(all.take(i as int) =~= all);
    }
    out
}

// ── The recommendations ─────────────────────────────────────────────────────

/// Whether a check's hint is a recommendation.
pub open spec fn recommends_of(c: CheckView) -> bool {
    (c.severity == Severity::Warn || c.severity == Severity::Critical) && c.hint is Some
}

/// One recommendation.
pub open spec fn hint_row(hint: Seq<char>) -> Seq<char> {
    let line = "  - "@ + hint;
    "│"@ + line + filling(INNER_WIDTH as nat, text::byte_len(line)) + "│\n"@
}

/// The recommendations of some checks, in order.
pub open spec fn hint_rows(checks: Seq<CheckView>) -> Seq<char>
    decreases checks.len(),
{
    if checks.len() == 0 {
        Seq::empty()
    } else if recommends_of(checks.last()) {
        hint_rows(checks.drop_last()) + hint_row(checks.last().hint->0)
    } else {
        hint_rows(checks.drop_last())
    }
}

/// The recommendations in their box; nothing where there are none.
pub open spec fn recommendations_of(checks: Seq<CheckView>, color: bool) -> Seq<char> {
    let bar = text::repeated('─', INNER_WIDTH as nat);
    let label = "RECOMMENDATIONS"@;
    if exists|i: int| 0 <= i < checks.len() && recommends_of(#[trigger] checks[i]) {
        "\n"@ + "┌"@ + bar + "┐\n"@ + "│  "@ + escape_of(color, "\x1b[1m"@) + label + escape_of(
            color,
            "\x1b[0m"@,
        ) + filling(INNER_WIDTH as nat, 2 + text::byte_len(label)) + "│\n"@ + "├"@ + bar + "┤\n"@ + hint_rows(
            checks,
        ) + "└"@ + bar + "┘\n"@
    } else {
        Seq::empty()
    }
}

fn hint_line(hint: &str) -> (r: String)
    ensures
        r@ == hint_row(hint@),
{
    let line: String = joined("  - ", hint);
    let mut s: String = joined("│", line.as_str());
    s.push_str(fill(INNER_WIDTH, byte_len_of(line.as_str())).as_str());
    s.push_str("│\n");
    s
}

fn recommendations(checks: &Vec<Check>, color: bool) -> (r: String)
    ensures
        r@ == recommendations_of(check::check_views(checks@), color),
{
    let mut rows: String = String::new();
    let mut any: bool = false;
    let mut i: usize = 0;
    let ghost all = check::check_views(checks@);
    while i < checks.len()
        invariant
            all == check::check_views(checks@),
            i <= checks@.len(),
            rows@ == hint_rows(all.take(i as int)),
            any == (exists|j: int| 0 <= j < i && recommends_of(#[trigger] all[j])),
        decreases checks@.len() - i,
    {
        proof {
            let t = all.take(i as int + 1);
            assert(t.drop_last() =~= all.take(i as int));
            assert(t.last() == checks@[i as int]@);
            assert(all[i as int] == checks@[i as int]@);
        }
        if checks[i].severity == Severity::Warn || checks[i].severity == Severity::Critical {
            if let Some(hint) = &checks[i].hint {
                rows.push_str(hint_line(hint.as_str()).as_str());
                any = true;
                proof {
                    assert(recommends_of(all[i as int]));
                }
            }
        }
        i += 1;
    }
    proof {
        assert(all.take(i as int) =~= all);
    }
    if !any {
        return String::new();
    }
    let bar: String = repeat_char('─', INNER_WIDTH);
    let label: &'static str = "RECOMMENDATIONS";
    let len: usize = byte_len_of(label);
    let pad: String = if len < INNER_WIDTH {
        fill(INNER_WIDTH, 2 + len)
    } else {
        repeat_char(' ', 0)
    };
    let mut out: String = joined("\n", "┌");
    out.push_str(bar.as_str());
    out.push_str("┐\n");
    out.push_str("│  ");
    out.push_str(escape(color, "\x1b[1m"));
    out.push_str(label);
    out.push_str(escape(color, "\x1b[0m"));
    out.push_str(pad.as_str());
    out.push_str("│\n");
    out.push_str("├");
    out.push_str(bar.as_str());
    out.push_str("┤\n");
    out.push_str(rows.as_str());
    out.push_str("└");
    out.push_str(bar.as_str());
    out.push_str("┘\n");
    out
}

/// The report: its title, a line for each check, and the recommendations.
pub open spec fn render_of(checks: Seq<CheckView>, color: bool) -> Seq<char> {
    header_of(color) + check_lines_of(checks, label_width_of(checks), color) + recommendations_of(
        checks,
        color,
    )
}

/// The report.
pub fn render(checks: &Vec<Check>, color: bool) -> (r: String)
    ensures
        r@ == render_of(check::check_views(checks@), color),
{
    let mut out: String = header(color);
    out.push_str(check_lines(checks, color).as_str());
    out.push_str(recommendations(checks, color).as_str());
    out
}

/// Where nothing is recommended, the report ends with its last check.
pub proof fn law_no_recommendations_no_box(checks: Seq<CheckView>, color: bool)
    requires
        forall|i: int| 0 <= i < checks.len() ==> !recommends_of(#[trigger] checks[i]),
    ensures
        render_of(checks, color) == header_of(color) + check_lines_of(
            checks,
            label_width_of(checks),
            color,
        ),
{
    assert(render_of(checks, color) =~= header_of(color) + check_lines_of(
        checks,
        label_width_of(checks),
        color,
    ));
}

// ── Without colours ─────────────────────────────────────────────────────────

/// Whether a text holds no escape character.
pub open spec fn is_plain(s: Seq<char>) -> bool {
    !s.contains('\x1b')
}

/// Whether nothing that a check tells holds an escape character.
pub open spec fn is_plain_check(c: CheckView) -> bool {
    is_plain(c.label) && is_plain(c.value) && (c.hint matches Some(h) ==> is_plain(h))
}

/// Plain texts make a plain text.
pub broadcast proof fn lemma_plain_sum(a: Seq<char>, b: Seq<char>)
    requires
        is_plain(a),
        is_plain(b),
    ensures
        #[trigger] is_plain(a + b),
{
    if (a + b).contains('\x1b') {
        let i = (a + b).index_of('\x1b');
        if i < a.len() {
            assert(a[i] == '\x1b');
        } else {
            assert(b[i - a.len()] == '\x1b');
        }
    }
}

pub proof fn lemma_plain_run(c: char, n: nat)
    requires
        c != '\x1b',
    ensures
        is_plain(text::repeated(c, n)),
{
}

proof fn lemma_plain_lines(checks: Seq<CheckView>, width: nat)
    requires
        forall|i: int| 0 <= i < checks.len() ==> is_plain_check(#[trigger] checks[i]),
    ensures
        is_plain(check_lines_of(checks, width, false)),
        is_plain(hint_rows(checks)),
    decreases checks.len(),
{
    broadcast use lemma_plain_sum;

    reveal_strlit("  ");
    reveal_strlit(":");
    reveal_strlit(" ");
    reveal_strlit("\n");
    reveal_strlit("");
    reveal_strlit("(");
    reveal_strlit(")");
    reveal_strlit("  - ");
    reveal_strlit("│");
    reveal_strlit("│\n");
    if checks.len() > 0 {
        let c = checks.last();
        assert(is_plain_check(checks[checks.len() - 1]));
        assert forall|i: int| 0 <= i < checks.drop_last().len() implies is_plain_check(
            #[trigger] checks.drop_last()[i],
        ) by {
            assert(is_plain_check(checks[i]));
        }
        lemma_plain_lines(checks.drop_last(), width);
        let used = text::byte_len(c.label);
        lemma_plain_run(
            ' ',
            if used < width {
                (width - used) as nat
            } else {
                0
            },
        );
        assert(is_plain(note_of(c, false)));
        assert(is_plain(check_line_of(c, width, false)));
        match c.hint {
            Some(h) => {
                let line = "  - "@ + h;
                let taken = text::byte_len(line);
                lemma_plain_run(
                    ' ',
                    if taken < INNER_WIDTH {
                        (INNER_WIDTH - taken) as nat
                    } else {
                        0
                    },
                );
                assert(is_plain(hint_row(h)));
            },
            None => {},
        }
    }
}

/// Without colours the report holds no escape character, unless a check tells one.
pub proof fn law_no_colour_no_escapes(checks: Seq<CheckView>)
    requires
        forall|i: int| 0 <= i < checks.len() ==> is_plain_check(#[trigger] checks[i]),
    ensures
        is_plain(render_of(checks, false)),
{
    broadcast use lemma_plain_sum;

    reveal_strlit("╔");
    reveal_strlit("╗\n");
    reveal_strlit("║");
    reveal_strlit("║\n");
    reveal_strlit("║  ");
    reveal_strlit("System Health Report");
    reveal_strlit("╚");
    reveal_strlit("╝\n");
    reveal_strlit("\n");
    reveal_strlit("┌");
    reveal_strlit("┐\n");
    reveal_strlit("│  ");
    reveal_strlit("│\n");
    reveal_strlit("RECOMMENDATIONS");
    reveal_strlit("├");
    reveal_strlit("┤\n");
    reveal_strlit("└");
    reveal_strlit("┘\n");
    lemma_plain_lines(checks, label_width_of(checks));
    lemma_plain_run('═', INNER_WIDTH as nat);
    lemma_plain_run('─', INNER_WIDTH as nat);
    lemma_plain_run(' ', INNER_WIDTH as nat);
    let title = 2 + text::byte_len("System Health Report"@);
    lemma_plain_run(
        ' ',
        if title < INNER_WIDTH {
            (INNER_WIDTH - title) as nat
        } else {
            0
        },
    );
    let label = 2 + text::byte_len("RECOMMENDATIONS"@);
    lemma_plain_run(
        ' ',
        if label < INNER_WIDTH {
            (INNER_WIDTH - label) as nat
        } else {
            0
        },
    );
    assert(is_plain(blank_row()));
    assert(is_plain(header_of(false)));
    assert(is_plain(recommendations_of(checks, false)));
}

/// Whether `t` reads as `u` once its escapes are gone, whatever follows it.
#[verifier::opaque]
spec fn reads_as(t: Seq<char>, u: Seq<char>) -> bool {
    forall|b: Seq<char>| #[trigger] color::unescaped(t + b) == u + color::unescaped(b)
}

broadcast proof fn lemma_reads_sum(t: Seq<char>, u: Seq<char>, v: Seq<char>, w: Seq<char>)
    requires
        reads_as(t, u),
        reads_as(v, w),
    ensures
        #[trigger] reads_as(t + v, u + w),
{
    reveal(reads_as);
    assert forall|b: Seq<char>| #[trigger] color::unescaped(t + v + b) == u + w + color::unescaped(b) by {
        assert(t + v + b =~= t + (v + b));
        assert(color::unescaped(t + (v + b)) == u + color::unescaped(v + b));
        assert(u + (w + color::unescaped(b)) =~= u + w + color::unescaped(b));
    }
}

broadcast proof fn lemma_reads_plain(a: Seq<char>)
    requires
        is_plain(a),
    ensures
        #[trigger] reads_as(a, a),
{
    reveal(reads_as);
    assert forall|b: Seq<char>| #[trigger] color::unescaped(a + b) == a + color::unescaped(b) by {
        color::lemma_unescaped_plain(a, b);
    }
}

/// The escapes of a report.
proof fn lemma_reads_escapes()
    ensures
        reads_as(escape_of(true, "\x1b[0m"@), escape_of(false, "\x1b[0m"@)),
        reads_as(escape_of(true, "\x1b[1m"@), escape_of(false, "\x1b[1m"@)),
        reads_as(escape_of(true, "\x1b[31m"@), escape_of(false, "\x1b[31m"@)),
        reads_as(escape_of(true, "\x1b[33m"@), escape_of(false, "\x1b[33m"@)),
{
    reveal_strlit("\x1b[0m");
    reveal_strlit("\x1b[1m");
    reveal_strlit("\x1b[31m");
    reveal_strlit("\x1b[33m");
    lemma_reads_escape("\x1b[0m"@);
    lemma_reads_escape("\x1b[1m"@);
    lemma_reads_escape("\x1b[31m"@);
    lemma_reads_escape("\x1b[33m"@);
}

proof fn lemma_reads_escape(e: Seq<char>)
    requires
        e.len() >= 2,
        e[0] == '\x1b',
        e.last() == 'm',
        forall|i: int| 0 < i < e.len() - 1 ==> #[trigger] e[i] != '\x1b' && e[i] != 'm',
    ensures
        reads_as(e, Seq::empty()),
{
    reveal(reads_as);
    assert forall|b: Seq<char>| #[trigger] color::unescaped(e + b) == Seq::<char>::empty() + color::unescaped(b) by {
        color::lemma_unescaped_escape(e, b);
        assert(Seq::<char>::empty() + color::unescaped(b) =~= color::unescaped(b));
    }
}

/// Whether a check has a hint just where it has something to complain of.
pub open spec fn hints_where_due(c: CheckView) -> bool {
    c.hint is Some <==> (c.severity == Severity::Warn || c.severity == Severity::Critical)
}

proof fn lemma_reads_line(c: CheckView, width: nat)
    requires
        is_plain_check(c),
        hints_where_due(c),
    ensures
        reads_as(check_line_of(c, width, true), check_line_of(c, width, false)),
{
    broadcast use {lemma_reads_sum, lemma_reads_plain};

    reveal_strlit("  ");
    reveal_strlit(":");
    reveal_strlit(" ");
    reveal_strlit("\n");
    reveal_strlit("(");
    reveal_strlit(")");
    lemma_reads_escapes();
    let used = text::byte_len(c.label);
    lemma_plain_run(
        ' ',
        if used < width {
            (width - used) as nat
        } else {
            0
        },
    );
    assert(is_plain(Seq::<char>::empty()));
    assert(reads_as(note_of(c, true), note_of(c, false)));
}

proof fn lemma_reads_lines(checks: Seq<CheckView>, width: nat)
    requires
        forall|i: int|
            0 <= i < checks.len() ==> is_plain_check(#[trigger] checks[i]) && hints_where_due(checks[i]),
    ensures
        reads_as(check_lines_of(checks, width, true), check_lines_of(checks, width, false)),
    decreases checks.len(),
{
    broadcast use {lemma_reads_sum, lemma_reads_plain};

    assert(is_plain(Seq::<char>::empty()));
    if checks.len() > 0 {
        let init = checks.drop_last();
        assert forall|i: int| 0 <= i < init.len() implies is_plain_check(#[trigger] init[i])
            && hints_where_due(init[i]) by {
            assert(init[i] == checks[i]);
        }
        assert(checks[checks.len() - 1] == checks.last());
        lemma_reads_lines(init, width);
        lemma_reads_line(checks.last(), width);
    }
}

/// Colours are all that a report with them has more: without its escapes it is the
/// report without colours.
pub proof fn law_colours_are_all_that_is_added(checks: Seq<CheckView>)
    requires
        forall|i: int|
            0 <= i < checks.len() ==> is_plain_check(#[trigger] checks[i]) && hints_where_due(checks[i]),
    ensures
        color::unescaped(render_of(checks, true)) == render_of(checks, false),
{
    broadcast use {lemma_reads_sum, lemma_reads_plain};

    reveal_strlit("╔");
    reveal_strlit("╗\n");
    reveal_strlit("║");
    reveal_strlit("║\n");
    reveal_strlit("║  ");
    reveal_strlit("System Health Report");
    reveal_strlit("╚");
    reveal_strlit("╝\n");
    reveal_strlit("\n");
    reveal_strlit("┌");
    reveal_strlit("┐\n");
    reveal_strlit("│  ");
    reveal_strlit("│\n");
    reveal_strlit("RECOMMENDATIONS");
    reveal_strlit("├");
    reveal_strlit("┤\n");
    reveal_strlit("└");
    reveal_strlit("┘\n");
    lemma_reads_escapes();
    lemma_reads_lines(checks, label_width_of(checks));
    assert(is_plain(hint_rows(checks))) by {
        lemma_plain_lines(checks, label_width_of(checks));
    }
    lemma_plain_run('═', INNER_WIDTH as nat);
    lemma_plain_run('─', INNER_WIDTH as nat);
    lemma_plain_run(' ', INNER_WIDTH as nat);
    let title = 2 + text::byte_len("System Health Report"@);
    lemma_plain_run(
        ' ',
        if title < INNER_WIDTH {
            (INNER_WIDTH - title) as nat
        } else {
            0
        },
    );
    let label = 2 + text::byte_len("RECOMMENDATIONS"@);
    lemma_plain_run(
        ' ',
        if label < INNER_WIDTH {
            (INNER_WIDTH - label) as nat
        } else {
            0
        },
    );
    assert(is_plain(Seq::<char>::empty()));
    assert(is_plain(blank_row())) by {
        broadcast use lemma_plain_sum;

    }
    assert(reads_as(header_of(true), header_of(false)));
    assert(reads_as(recommendations_of(checks, true), recommendations_of(checks, false)));
    let t = render_of(checks, true);
    assert(reads_as(t, render_of(checks, false)));
    reveal(reads_as);
    assert(t + Seq::empty() =~= t);
    assert(color::unescaped(t + Seq::empty()) == render_of(checks, false) + color::unescaped(Seq::empty()));
    assert(render_of(checks, false) + Seq::empty() =~= render_of(checks, false));
}

proof fn lemma_note_start(c: CheckView)
    ensures
        c.severity is Warn && c.hint is Some ==> note_of(c, true) == " \x1b[33m("@ + c.hint->0 + ")"@ + "\x1b[0m"@,
        c.severity is Critical && c.hint is Some ==> note_of(c, true) == " \x1b[31m("@ + c.hint->0 + ")"@
            + "\x1b[0m"@,
        c.severity is Critical && c.hint is None ==> note_of(c, true) == " \x1b[31m("@ + "critical)"@ + "\x1b[0m"@,
        !(c.severity is Critical) && (!(c.severity is Warn) || c.hint is None) ==> note_of(c, true).len() == 0,
{
    reveal_strlit(" \x1b[33m(");
    reveal_strlit(" \x1b[31m(");
    reveal_strlit("\x1b[33m");
    reveal_strlit("\x1b[31m");
    reveal_strlit(" ");
    reveal_strlit("(");
    reveal_strlit("(critical)");
    reveal_strlit("critical)");
    assert(" "@ + "\x1b[33m"@ + "("@ =~= " \x1b[33m("@);
    assert(" "@ + "\x1b[31m"@ + "("@ =~= " \x1b[31m("@);
    assert(" "@ + "\x1b[31m"@ + "(critical)"@ =~= " \x1b[31m("@ + "critical)"@);
}

/// In colour a note is yellow for a warning and red for what is critical, and it is
/// there just where there is a hint for one of these, or something critical without
/// one; without colour every hint is noted.
pub proof fn law_note_follows_the_severity(c: CheckView)
    ensures
        text::starts_with_of(note_of(c, true), " \x1b[33m("@) <==> c.severity is Warn && c.hint is Some,
        text::starts_with_of(note_of(c, true), " \x1b[31m("@) <==> c.severity is Critical,
        (c.severity is Warn || c.severity is Critical) && c.hint is Some ==> text::occurs_at(
            note_of(c, true),
            c.hint->0,
            7,
        ),
        c.hint matches Some(h) ==> note_of(c, false) == seq![' ', '('] + h + seq![')'],
        c.hint is None ==> note_of(c, false).len() == 0,
{
    lemma_note_start(c);
    let yellow = " \x1b[33m("@;
    let red = " \x1b[31m("@;
    let n = note_of(c, true);
    assert(yellow.len() == 7 && red.len() == 7 && yellow[4] == '3' && red[4] == '1') by {
        reveal_strlit(" \x1b[33m(");
        reveal_strlit(" \x1b[31m(");
    }
    assert(n.len() >= 7 ==> n.subrange(0, 7)[4] == n[4]);
    if c.severity is Warn && c.hint is Some {
        assert(n.subrange(0, 7) =~= yellow);
        assert(n.subrange(7, 7 + c.hint->0.len() as int) =~= c.hint->0);
    }
    if c.severity is Critical {
        assert(n.subrange(0, 7) =~= red);
        if c.hint is Some {
            assert(n.subrange(7, 7 + c.hint->0.len() as int) =~= c.hint->0);
        }
    }
    if c.hint is Some {
        reveal_strlit(" ");
        reveal_strlit("(");
        reveal_strlit(")");
        assert(note_of(c, false) =~= seq![' ', '('] + c.hint->0 + seq![')']);
    }
}

/// The line of a check has its label, a colon and its value, in this order; without
/// colour the values of all checks begin in the same column, behind the widest label.
pub proof fn law_line_has_label_and_value(c: CheckView, width: nat)
    ensures
        text::occurs_at(check_line_of(c, width, false), c.label.push(':'), 2),
        ({
            let used = text::byte_len(c.label);
            let gap = if used < width {
                width - used
            } else {
                0
            };
            text::occurs_at(check_line_of(c, width, false), c.value, 2 + c.label.len() + 1 + gap + 1)
        }),
{
    reveal_strlit("  ");
    reveal_strlit(":");
    reveal_strlit(" ");
    let line = check_line_of(c, width, false);
    let l = c.label.push(':');
    let used = text::byte_len(c.label);
    let gap = if used < width {
        width - used
    } else {
        0
    };
    let at = 2 + c.label.len() + 1 + gap + 1;
    assert(line.subrange(2, 2 + l.len() as int) =~= l);
    assert(line.subrange(at, at + c.value.len()) =~= c.value);
}

/// The width is that of the widest label: none is wider, and one is as wide.
pub proof fn law_width_is_the_widest(checks: Seq<CheckView>)
    ensures
        forall|i: int| 0 <= i < checks.len() ==> text::byte_len((#[trigger] checks[i]).label) <= label_width_of(checks),
        checks.len() > 0 ==> exists|i: int|
            0 <= i < checks.len() && text::byte_len((#[trigger] checks[i]).label) == label_width_of(checks),
    decreases checks.len(),
{
    if checks.len() > 0 {
        let dl = checks.drop_last();
        law_width_is_the_widest(dl);
        assert(forall|i: int| 0 <= i < dl.len() ==> #[trigger] dl[i] == checks[i]);
        assert(checks[checks.len() - 1] == checks.last());
        assert forall|i: int| 0 <= i < checks.len() implies text::byte_len((#[trigger] checks[i]).label)
            <= label_width_of(checks) by {
            if i < dl.len() {
                assert(dl[i] == checks[i]);
            }
        }
        if text::byte_len(checks.last().label) <= label_width_of(dl) && dl.len() > 0 {
            let i = choose|i: int|
                0 <= i < dl.len() && text::byte_len((#[trigger] dl[i]).label) == label_width_of(dl);
            assert(checks[i] == dl[i]);
        }
    }
}

/// Only what is wrong is recommended on: a warning or something critical that has a
/// hint adds its row, and nothing else does.
pub proof fn law_only_what_is_wrong_is_recommended(checks: Seq<CheckView>, c: CheckView)
    ensures
        (c.severity is Warn || c.severity is Critical) && c.hint is Some ==> hint_rows(checks.push(c))
            == hint_rows(checks) + hint_row(c.hint->0) && text::occurs_at(hint_row(c.hint->0), c.hint->0, 5),
        !(c.severity is Warn || c.severity is Critical) || c.hint is None ==> hint_rows(checks.push(c))
            == hint_rows(checks),
        hint_rows(Seq::empty()).len() == 0,
{
    assert(checks.push(c).drop_last() =~= checks);
    if c.hint is Some {
        reveal_strlit("│");
        reveal_strlit("  - ");
        let h = c.hint->0;
        assert(hint_row(h).subrange(5, 5 + h.len() as int) =~= h);
    }
}

} // verus!
