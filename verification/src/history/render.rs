//! Writing the rows of the history.

use vstd::prelude::*;
use vstd::utf8::*;
use crate::decimal;
use crate::decimal::{push_i64, push_u64};
use crate::history::args::{Filters, FiltersView, Format, FormatView};
use crate::json;
use crate::json::json_escape_into;
use crate::text;
use crate::text::{chars_of, first_line, joined, pad_left, str_eq, string_of_range, strip_prefix_str};

verus! {

/// One command of the log.
#[derive(Debug, Clone, PartialEq, Eq)]
pub struct Row {
    pub id: String,
    pub session_id: String,
    pub hostname: String,
    pub cwd: String,
    pub cmd: String,
    pub started_at: i64,
    pub finished_at: Option<i64>,
    pub duration_ms: Option<i64>,
    pub exit_status: Option<i64>,
}

pub struct RowView {
    pub id: Seq<char>,
    pub session_id: Seq<char>,
    pub hostname: Seq<char>,
    pub cwd: Seq<char>,
    pub cmd: Seq<char>,
    pub started_at: i64,
    pub finished_at: Option<i64>,
    pub duration_ms: Option<i64>,
    pub exit_status: Option<i64>,
}

impl View for Row {
    type V = RowView;

    open spec fn view(&self) -> RowView {
        RowView {
            id: self.id@,
            session_id: self.session_id@,
            hostname: self.hostname@,
            cwd: self.cwd@,
            cmd: self.cmd@,
            started_at: self.started_at,
            finished_at: self.finished_at,
            duration_ms: self.duration_ms,
            exit_status: self.exit_status,
        }
    }
}

// ── Spans of time ───────────────────────────────────────────────────────────

/// How long ago something was, in the largest unit that it fills.
pub open spec fn ago_of(ago_ms: int) -> Seq<char> {
    let ms = if ago_ms < 0 {
        0
    } else {
        ago_ms
    };
    if ms < 60_000 {
        decimal::dec_int(ms / 1_000) + "s ago"@
    } else if ms < 3_600_000 {
        decimal::dec_int(ms / 60_000) + "m ago"@
    } else if ms < 86_400_000 {
        decimal::dec_int(ms / 3_600_000) + "h ago"@
    } else if ms < 2_592_000_000 {
        decimal::dec_int(ms / 86_400_000) + "d ago"@
    } else if ms < 31_536_000_000 {
        decimal::dec_int(ms / 604_800_000) + "w ago"@
    } else {
        decimal::dec_int(ms / 31_536_000_000) + "y ago"@
    }
}

/// `n` and a suffix.
fn counted(n: i64, suffix: &str) -> (r: String)
    ensures
        r@ == decimal::dec_int(n as int) + suffix@,
{
    let mut out: String = crate::decimal::dec_i64(n);
    out.push_str(suffix);
    out
}

/// How long ago something was.
pub fn relative_time(ago_ms: i64) -> (r: String)
    ensures
        r@ == ago_of(ago_ms as int),
{
    let ms: i64 = if ago_ms < 0 {
        0
    } else {
        ago_ms
    };
    if ms < 60_000 {
        counted(ms / 1_000, "s ago")
    } else if ms < 3_600_000 {
        counted(ms / 60_000, "m ago")
    } else if ms < 86_400_000 {
        counted(ms / 3_600_000, "h ago")
    } else if ms < 2_592_000_000 {
        counted(ms / 86_400_000, "d ago")
    } else if ms < 31_536_000_000 {
        counted(ms / 604_800_000, "w ago")
    } else {
        counted(ms / 31_536_000_000, "y ago")
    }
}

/// Division that cuts off towards zero.
pub open spec fn cut_div(a: int, b: int) -> int {
    if a >= 0 {
        a / b
    } else {
        -((-a) / b)
    }
}

/// What [`cut_div`] leaves over, with the sign of `a`.
pub open spec fn cut_rem(a: int, b: int) -> int {
    if a >= 0 {
        a % b
    } else {
        -((-a) % b)
    }
}

/// A duration: minutes and seconds from a minute on, else seconds and tenths.
pub open spec fn duration_of(ms: int) -> Seq<char> {
    if ms >= 60_000 {
        decimal::dec_int(ms / 60_000) + "m "@ + decimal::dec_int((ms % 60_000) / 1_000) + "s"@
    } else {
        decimal::dec_int(cut_div(ms, 1_000)) + "."@ + decimal::dec_int(cut_div(cut_rem(ms, 1_000), 100)) + "s"@
    }
}

/// `a / b` and what is left over, both cut off towards zero.
fn cut_div_rem(a: i64, b: i64) -> (r: (i64, i64))
    requires
        b > 1,
    ensures
        r.0 == cut_div(a as int, b as int),
        r.1 == cut_rem(a as int, b as int),
{
    if a >= 0 {
        (a / b, a % b)
    } else if a == i64::MIN {
        let m: u64 = 9223372036854775808;
        let q: u64 = m / (b as u64);
        let k: u64 = m % (b as u64);
        proof {
            assert(m / (b as u64) <= m / 2) by (nonlinear_arith)
                requires
                    b > 1,
                    m == 9223372036854775808u64,
            ;
        }
        (-(q as i64), -(k as i64))
    } else {
        let m: i64 = -a;
        (-(m / b), -(m % b))
    }
}

/// A duration in words.
pub fn format_duration(ms: i64) -> (r: String)
    ensures
        r@ == duration_of(ms as int),
{
    if ms >= 60_000 {
        let mut out: String = counted(ms / 60_000, "m ");
        push_i64(&mut out, (ms % 60_000) / 1_000);
        out.push_str("s");
        out
    } else {
        let (secs, left) = cut_div_rem(ms, 1_000);
        let (tenths, _) = cut_div_rem(left, 100);
        let mut out: String = counted(secs, ".");
        push_i64(&mut out, tenths);
        out.push_str("s");
        out
    }
}

// ── Paths ───────────────────────────────────────────────────────────────────

/// `path` with a leading `home` written as `~`, where it ends at a boundary.
pub open spec fn home_collapsed(path: Seq<char>, home: Option<Seq<char>>) -> Seq<char> {
    match home {
        Some(h) => match text::strip_prefix_of(path, h) {
            Some(rest) => if h.len() > 0 && rest.len() == 0 {
                "~"@
            } else if h.len() > 0 && rest[0] == '/' {
                "~"@ + rest
            } else {
                path
            },
            None => path,
        },
        None => path,
    }
}

/// `path` with the home directory written as `~`.
pub fn collapse_home(path: &str, home: Option<&str>) -> (r: String)
    ensures
        r@ == home_collapsed(path@, text::opt_str_view(home)),
{
    match home {
        Some(h) => {
            if h.is_empty() {
                return path.to_owned();
            }
            match strip_prefix_str(path, h) {
                Some(rest) => {
                    let v: Vec<char> = chars_of(rest.as_str());
                    if v.len() == 0 {
                        "~".to_owned()
                    } else if v[0] == '/' {
                        joined("~", rest.as_str())
                    } else {
                        path.to_owned()
                    }
                },
                None => path.to_owned(),
            }
        },
        None => path.to_owned(),
    }
}

// ── Human-readable rows ─────────────────────────────────────────────────────

/// What a row says of the outcome: nothing while it runs, the duration of a
/// success of a second or more, the exit status of a failure.
pub open spec fn outcome_of(row: RowView) -> Seq<char> {
    match row.exit_status {
        None => Seq::empty(),
        Some(n) => if n == 0 {
            match row.duration_ms {
                Some(ms) => if ms >= 1000 {
                    "  ("@ + duration_of(ms as int) + ")"@
                } else {
                    Seq::empty()
                },
                None => Seq::empty(),
            }
        } else {
            "  ✗ exit "@ + decimal::dec_int(n as int)
        },
    }
}

/// The same in colour: failures in red, durations dimmed.
pub open spec fn outcome_coloured(row: RowView) -> Seq<char> {
    if row.exit_status is Some && row.exit_status != Some(0i64) {
        "  "@ + "\x1b[31m"@ + "✗ exit "@ + decimal::dec_int(row.exit_status->0 as int) + "\x1b[0m"@
    } else if outcome_of(row).len() > 0 {
        "\x1b[2m"@ + outcome_of(row) + "\x1b[0m"@
    } else {
        Seq::empty()
    }
}

/// A row for a reader: when, where, what, and how it went.
pub open spec fn human_of(
    row: RowView,
    color: bool,
    now_ms: int,
    home: Option<Seq<char>>,
) -> Seq<char> {
    let when = text::pad_left_of(ago_of(now_ms - row.started_at), 9, ' ');
    let place = home_collapsed(row.cwd, home);
    let cmd = text::first_line_of(row.cmd);
    if color {
        "\x1b[2m"@ + when + "\x1b[0m"@ + "  "@ + "\x1b[36m"@ + place + "\x1b[0m"@ + "  "@ + cmd
            + outcome_coloured(row)
    } else {
        when + "  "@ + place + "  "@ + cmd + outcome_of(row)
    }
}

fn outcome(row: &Row) -> (r: String)
    ensures
        r@ == outcome_of(row@),
{
    match row.exit_status {
        None => String::new(),
        Some(n) => if n == 0 {
            match row.duration_ms {
                Some(ms) => if ms >= 1000 {
                    let mut out: String = joined("  (", format_duration(ms).as_str());
                    out.push_str(")");
                    out
                } else {
                    String::new()
                },
                None => String::new(),
            }
        } else {
            let mut out: String = "  ✗ exit ".to_owned();
            push_i64(&mut out, n);
            out
        },
    }
}

fn outcome_in_colour(row: &Row) -> (r: String)
    ensures
        r@ == outcome_coloured(row@),
{
    let plain: String = outcome(row);
    match row.exit_status {
        Some(n) => {
            if n != 0 {
                let mut out: String = joined("  ", "\x1b[31m");
                out.push_str("✗ exit ");
                push_i64(&mut out, n);
                out.push_str("\x1b[0m");
                return out;
            }
        },
        None => {},
    }
    if plain.as_str().is_empty() {
        String::new()
    } else {
        let mut out: String = joined("\x1b[2m", plain.as_str());
        out.push_str("\x1b[0m");
        out
    }
}

/// A row for a reader.
pub fn format_human(row: &Row, color: bool, now_ms: i64, home: Option<&str>) -> (r: String)
    requires
        i64::MIN <= now_ms - row.started_at <= i64::MAX,
    ensures
        r@ == human_of(row@, color, now_ms as int, text::opt_str_view(home)),
{
    let when: String = pad_left(relative_time(now_ms - row.started_at).as_str(), 9, ' ');
    let place: String = collapse_home(row.cwd.as_str(), home);
    let cmd: String = first_line(row.cmd.as_str());
    if color {
        let mut out: String = joined("\x1b[2m", when.as_str());
        out.push_str("\x1b[0m");
        out.push_str("  ");
        out.push_str("\x1b[36m");
        out.push_str(place.as_str());
        out.push_str("\x1b[0m");
        out.push_str("  ");
        out.push_str(cmd.as_str());
        out.push_str(outcome_in_colour(row).as_str());
        out
    } else {
        let mut out: String = when;
        out.push_str("  ");
        out.push_str(place.as_str());
        out.push_str("  ");
        out.push_str(cmd.as_str());
        out.push_str(outcome(row).as_str());
        out
    }
}

/// The first line of the command.
pub fn format_cmds(row: &Row) -> (r: String)
    ensures
        r@ == text::first_line_of(row@.cmd),
{
    first_line(row.cmd.as_str())
}

// ── JSON ────────────────────────────────────────────────────────────────────

/// `"key":"value"`.
pub open spec fn json_str_member(key: Seq<char>, value: Seq<char>) -> Seq<char> {
    seq!['"'] + key + "\":\""@ + json::json_escaped(true, value) + seq!['"']
}

/// `"key":value`.
pub open spec fn json_num_member(key: Seq<char>, value: Option<i64>) -> Seq<char> {
    "\""@ + key + "\":"@ + match value {
        Some(n) => decimal::dec_int(n as int),
        None => "null"@,
    }
}

/// A row as a JSON object.
pub open spec fn json_of(row: RowView) -> Seq<char> {
    "{"@ + json_str_member("id"@, row.id) + ","@ + json_str_member("session_id"@, row.session_id)
        + ","@ + json_str_member("hostname"@, row.hostname) + ","@ + json_str_member(
        "cwd"@,
        row.cwd,
    ) + ","@ + json_str_member("cmd"@, row.cmd) + ","@ + json_num_member(
        "started_at"@,
        Some(row.started_at),
    ) + ","@ + json_num_member("finished_at"@, row.finished_at) + ","@ + json_num_member(
        "duration_ms"@,
        row.duration_ms,
    ) + ","@ + json_num_member("exit_status"@, row.exit_status) + "}"@
}

pub fn push_json_str(out: &mut String, key: &str, value: &str)
    ensures
        final(out)@ == old(out)@ + json_str_member(key@, value@),
{
    out.push('"');
    out.push_str(key);
    out.push_str("\":\"");
    json_escape_into(out, true, value);
    out.push('"');
    proof {
        assert(out@ =~= old(out)@ + json_str_member(key@, value@));
    }
}

pub fn push_json_num(out: &mut String, key: &str, value: i64)
    ensures
        final(out)@ == old(out)@ + json_num_member(key@, Some(value)),
{
    push_json_opt_num(out, key, Some(value));
}

pub fn push_json_opt_num(out: &mut String, key: &str, value: Option<i64>)
    ensures
        final(out)@ == old(out)@ + json_num_member(key@, value),
{
    out.push_str("\"");
    out.push_str(key);
    out.push_str("\":");
    match value {
        Some(n) => {
            push_i64(out, n);
        },
        None => {
            out.push_str("null");
        },
    }
    proof {
        assert(out@ =~= old(out)@ + json_num_member(key@, value));
    }
}

/// A row as a JSON object.
pub fn format_json(row: &Row) -> (r: String)
    ensures
        r@ == json_of(row@),
{
    let mut out: String = "{".to_owned();
    push_json_str(&mut out, "id", row.id.as_str());
    out.push_str(",");
    push_json_str(&mut out, "session_id", row.session_id.as_str());
    out.push_str(",");
    push_json_str(&mut out, "hostname", row.hostname.as_str());
    out.push_str(",");
    push_json_str(&mut out, "cwd", row.cwd.as_str());
    out.push_str(",");
    push_json_str(&mut out, "cmd", row.cmd.as_str());
    out.push_str(",");
    push_json_num(&mut out, "started_at", row.started_at);
    out.push_str(",");
    push_json_opt_num(&mut out, "finished_at", row.finished_at);
    out.push_str(",");
    push_json_opt_num(&mut out, "duration_ms", row.duration_ms);
    out.push_str(",");
    push_json_opt_num(&mut out, "exit_status", row.exit_status);
    out.push_str("}");
    out
}

// ── Templates ───────────────────────────────────────────────────────────────

/// A number that may be missing.
pub open spec fn number_or_null(n: Option<i64>) -> Seq<char> {
    match n {
        Some(n) => decimal::dec_int(n as int),
        None => "null"@,
    }
}

/// What the placeholder `{key}` stands for: a field of the row, the row's
/// index, or itself where the key is unknown.
pub open spec fn field_of(row: RowView, idx: nat, key: Seq<char>) -> Seq<char> {
    if key == "id"@ {
        row.id
    } else if key == "session"@ {
        row.session_id
    } else if key == "host"@ {
        row.hostname
    } else if key == "cwd"@ {
        row.cwd
    } else if key == "cmd"@ {
        row.cmd
    } else if key == "started_at"@ {
        decimal::dec_int(row.started_at as int)
    } else if key == "finished_at"@ {
        number_or_null(row.finished_at)
    } else if key == "duration"@ {
        number_or_null(row.duration_ms)
    } else if key == "exit"@ {
        number_or_null(row.exit_status)
    } else if key == "n"@ {
        decimal::dec_digits(idx)
    } else {
        seq!['{'] + key + seq!['}']
    }
}

/// A row written by a template: each placeholder gives way to what it stands for, and
/// every other character stands for itself. So does a brace that is never closed.
pub open spec fn template_of(row: RowView, idx: nat, t: Seq<char>) -> Seq<char>
    decreases t.len(),
{
    if t.len() == 0 {
        Seq::empty()
    } else if t[0] == '{' && text::find_char(t, '}') < t.len() {
        let end = text::find_char(t, '}') as int;
        field_of(row, idx, t.subrange(1, end)) + template_of(row, idx, t.skip(end + 1))
    } else {
        seq![t[0]] + template_of(row, idx, t.skip(1))
    }
}

fn push_opt(out: &mut String, n: Option<i64>)
    ensures
        final(out)@ == old(out)@ + number_or_null(n),
{
    match n {
        Some(n) => {
            push_i64(out, n);
        },
        None => {
            out.push_str("null");
        },
    }
}

/// Appends what the placeholder `{key}` stands for.
pub fn substitute_field(out: &mut String, row: &Row, idx: usize, key: &str)
    ensures
        final(out)@ == old(out)@ + field_of(row@, idx as nat, key@),
{
    if str_eq(key, "id") {
        out.push_str(row.id.as_str());
    } else if str_eq(key, "session") {
        out.push_str(row.session_id.as_str());
    } else if str_eq(key, "host") {
        out.push_str(row.hostname.as_str());
    } else if str_eq(key, "cwd") {
        out.push_str(row.cwd.as_str());
    } else if str_eq(key, "cmd") {
        out.push_str(row.cmd.as_str());
    } else if str_eq(key, "started_at") {
        push_i64(out, row.started_at);
    } else if str_eq(key, "finished_at") {
        push_opt(out, row.finished_at);
    } else if str_eq(key, "duration") {
        push_opt(out, row.duration_ms);
    } else if str_eq(key, "exit") {
        push_opt(out, row.exit_status);
    } else if str_eq(key, "n") {
        push_u64(out, idx as u64);
    } else {
        out.push('{');
        out.push_str(key);
        out.push('}');
        proof {
            assert(out@ =~= old(out)@ + (seq!['{'] + key@ + seq!['}']));
        }
    }
}

/// A row written by a template.
pub fn format_template(row: &Row, idx: usize, tmpl: &str) -> (r: String)
    ensures
        r@ == template_of(row@, idx as nat, tmpl@),
{
    let v: Vec<char> = chars_of(tmpl);
    let mut out: String = String::new();
    let mut i: usize = 0;
    proof {
        assert(v@.skip(0) =~= v@);
        assert(out@ + template_of(row@, idx as nat, v@.skip(0)) =~= template_of(
            row@,
            idx as nat,
            v@,
        ));
    }
    while i < v.len()
        invariant
            v@ == tmpl@,
            i <= v@.len(),
            out@ + template_of(row@, idx as nat, v@.skip(i as int)) == template_of(
                row@,
                idx as nat,
                v@,
            ),
        decreases v@.len() - i,
    {
        let ghost rest = v@.skip(i as int);
        let ghost before = out@;
        proof {
            assert(rest[0] == v@[i as int]);
            text::lemma_find_char(rest, '}');
        }
        let mut end: usize = i;
        if v[i] == '{' {
            while end < v.len() && v[end] != '}'
                invariant
                    i <= end <= v@.len(),
                    rest == v@.skip(i as int),
                    end - i <= text::find_char(rest, '}') <= rest.len(),
                    text::find_char(rest, '}') < rest.len() ==> rest[text::find_char(rest, '}') as int] == '}',
                    forall|k: int| 0 <= k < text::find_char(rest, '}') ==> rest[k] != '}',
                decreases v@.len() - end,
            {
                proof {
                    assert(rest[end - i] == v@[end as int]);
                }
                end += 1;
            }
            proof {
                if end < v@.len() {
                    assert(rest[end - i] == v@[end as int]);
                }
                assert(end - i == text::find_char(rest, '}'));
            }
            if end < v.len() {
                let key: String = string_of_range(&v, i + 1, end);
                proof {
                    assert(rest.subrange(1, end - i) =~= v@.subrange(i + 1, end as int));
                    assert(rest.skip(end - i + 1) =~= v@.skip(end + 1));
                }
                substitute_field(&mut out, row, idx, key.as_str());
                proof {
                    let f = field_of(row@, idx as nat, key@);
                    let t = template_of(row@, idx as nat, v@.skip(end + 1));
                    assert(before + f + t =~= before + (f + t));
                }
                i = end + 1;
                continue;
            }
        }
        out.push(v[i]);
        proof {
            assert(rest.skip(1) =~= v@.skip(i as int + 1));
            let t = template_of(row@, idx as nat, v@.skip(i as int + 1));
            assert(out@ + t =~= before + (seq![rest[0]] + t));
        }
        i += 1;
    }
    proof {
        assert(v@.skip(i as int).len() == 0);
        assert(out@ + template_of(row@, idx as nat, v@.skip(i as int)) =~= out@);
    }
    out
}

// ── All rows ────────────────────────────────────────────────────────────────

/// One row under a format.
pub open spec fn row_of(
    row: RowView,
    idx: nat,
    fmt: FormatView,
    color: bool,
    now_ms: int,
    home: Option<Seq<char>>,
) -> Seq<char> {
    match fmt {
        FormatView::Human => human_of(row, color, now_ms, home),
        FormatView::Json => json_of(row),
        FormatView::Cmds => text::first_line_of(row.cmd),
        FormatView::Ids => row.id,
        FormatView::Template(t) => template_of(row, idx, t),
    }
}

/// One row under a format.
pub fn format_row(
    row: &Row,
    idx: usize,
    fmt: &Format,
    color: bool,
    now_ms: i64,
    home: Option<&str>,
) -> (r: String)
    requires
        fmt is Human ==> i64::MIN <= now_ms - row.started_at <= i64::MAX,
    ensures
        r@ == row_of(row@, idx as nat, fmt@, color, now_ms as int, text::opt_str_view(home)),
{
    match fmt {
        Format::Human => format_human(row, color, now_ms, home),
        Format::Json => format_json(row),
        Format::Cmds => format_cmds(row),
        Format::Ids => row.id.clone(),
        Format::Template(t) => format_template(row, idx, t.as_str()),
    }
}

/// Whether the rows, which a query gives newest first, are shown oldest first:
/// for a reader they are, so that the newest stands at the bottom; for a
/// program they are not; `--reverse` flips either.
pub open spec fn oldest_first(f: FiltersView) -> bool {
    (f.format is Human) != f.reverse
}

/// The position, among `n` rows, of the row that is shown at position `k`.
pub open spec fn shown_at(f: FiltersView, n: int, k: int) -> int {
    if oldest_first(f) {
        n - 1 - k
    } else {
        k
    }
}

/// The lines for the rows of a query, in the order in which they are shown.
pub fn render_rows(
    rows: &Vec<Row>,
    f: &Filters,
    color: bool,
    now_ms: i64,
    home: Option<&str>,
) -> (r: Vec<String>)
    requires
        f.format is Human ==> forall|i: int|
            0 <= i < rows@.len() ==> i64::MIN <= now_ms - (#[trigger] rows@[i]).started_at
                <= i64::MAX,
    ensures
        r@.len() == rows@.len(),
        forall|k: int|
            0 <= k < r@.len() ==> (#[trigger] r@[k])@ == row_of(
                rows@[shown_at(f@, rows@.len() as int, k)]@,
                k as nat,
                f@.format,
                color,
                now_ms as int,
                text::opt_str_view(home),
            ),
{
    let human: bool = match &f.format {
        Format::Human => true,
        _ => false,
    };
    let flip: bool = human != f.reverse;
    let mut out: Vec<String> = Vec::new();
    let n: usize = rows.len();
    let mut k: usize = 0;
    while k < n
        invariant
            n == rows@.len(),
            k <= n,
            flip == oldest_first(f@),
            out@.len() == k,
            f.format is Human ==> forall|i: int|
                0 <= i < rows@.len() ==> i64::MIN <= now_ms - (#[trigger] rows@[i]).started_at
                    <= i64::MAX,
            forall|j: int|
                0 <= j < k ==> (#[trigger] out@[j])@ == row_of(
                    rows@[shown_at(f@, rows@.len() as int, j)]@,
                    j as nat,
                    f@.format,
                    color,
                    now_ms as int,
                    text::opt_str_view(home),
                ),
        decreases n - k,
    {
        let i: usize = if flip {
            n - 1 - k
        } else {
            k
        };
        let line: String = format_row(&rows[i], k, &f.format, color, now_ms, home);
        out.push(line);
        k += 1;
    }
    out
}

// ── One line ────────────────────────────────────────────────────────────────

/// No control character.
pub open spec fn is_printable(s: Seq<char>) -> bool {
    forall|i: int| 0 <= i < s.len() ==> ' ' <= #[trigger] s[i]
}

proof fn lemma_printable_add(a: Seq<char>, b: Seq<char>)
    requires
        is_printable(a),
        is_printable(b),
    ensures
        is_printable(a + b),
{
    assert forall|i: int| 0 <= i < (a + b).len() implies ' ' <= #[trigger] (a + b)[i] by {
        if i < a.len() {
            assert((a + b)[i] == a[i]);
        } else {
            assert((a + b)[i] == b[i - a.len()]);
        }
    }
}

proof fn lemma_number_printable(n: int)
    ensures
        is_printable(decimal::dec_int(n)),
{
    let d = decimal::dec_digits(if n < 0 {
        (-n) as nat
    } else {
        n as nat
    });
    decimal::lemma_dec_digits(if n < 0 {
        (-n) as nat
    } else {
        n as nat
    });
    assert forall|i: int| 0 <= i < d.len() implies ' ' <= #[trigger] d[i] by {
        assert(decimal::is_digit(d[i]));
    }
    if n < 0 {
        lemma_printable_add(seq!['-'], d);
    }
}

proof fn lemma_str_member_printable(key: Seq<char>, value: Seq<char>)
    requires
        is_printable(key),
    ensures
        is_printable(json_str_member(key, value)),
{
    reveal_strlit("\":\"");
    json::law_json_escaped_has_no_control(true, value);
    lemma_printable_add(seq!['"'], key);
    lemma_printable_add(seq!['"'] + key, "\":\""@);
    lemma_printable_add(seq!['"'] + key + "\":\""@, json::json_escaped(true, value));
    lemma_printable_add(seq!['"'] + key + "\":\""@ + json::json_escaped(true, value), seq!['"']);
}

proof fn lemma_num_member_printable(key: Seq<char>, value: Option<i64>)
    requires
        is_printable(key),
    ensures
        is_printable(json_num_member(key, value)),
{
    reveal_strlit("\"");
    reveal_strlit("\":");
    reveal_strlit("null");
    if let Some(n) = value {
        lemma_number_printable(n as int);
    }
    lemma_printable_add("\""@, key);
    lemma_printable_add("\""@ + key, "\":"@);
    lemma_printable_add("\""@ + key + "\":"@, number_or_null(value));
}

/// A row as JSON is one line without control characters, whatever its fields
/// hold.
pub proof fn law_json_row_is_one_line(row: RowView)
    ensures
        is_printable(json_of(row)),
{
    reveal_strlit("{");
    reveal_strlit(",");
    reveal_strlit("}");
    reveal_strlit("id");
    lemma_str_member_printable("id"@, row.id);
    reveal_strlit("session_id");
    lemma_str_member_printable("session_id"@, row.session_id);
    reveal_strlit("hostname");
    lemma_str_member_printable("hostname"@, row.hostname);
    reveal_strlit("cwd");
    lemma_str_member_printable("cwd"@, row.cwd);
    reveal_strlit("cmd");
    lemma_str_member_printable("cmd"@, row.cmd);
    reveal_strlit("started_at");
    lemma_num_member_printable("started_at"@, Some(row.started_at));
    reveal_strlit("finished_at");
    lemma_num_member_printable("finished_at"@, row.finished_at);
    reveal_strlit("duration_ms");
    lemma_num_member_printable("duration_ms"@, row.duration_ms);
    reveal_strlit("exit_status");
    lemma_num_member_printable("exit_status"@, row.exit_status);
    let mut s = "{"@;
    lemma_printable_add(s, json_str_member("id"@, row.id));
    s = s + json_str_member("id"@, row.id);
    lemma_printable_add(s, ","@);
    s = s + ","@;
    lemma_printable_add(s, json_str_member("session_id"@, row.session_id));
    s = s + json_str_member("session_id"@, row.session_id);
    lemma_printable_add(s, ","@);
    s = s + ","@;
    lemma_printable_add(s, json_str_member("hostname"@, row.hostname));
    s = s + json_str_member("hostname"@, row.hostname);
    lemma_printable_add(s, ","@);
    s = s + ","@;
    lemma_printable_add(s, json_str_member("cwd"@, row.cwd));
    s = s + json_str_member("cwd"@, row.cwd);
    lemma_printable_add(s, ","@);
    s = s + ","@;
    lemma_printable_add(s, json_str_member("cmd"@, row.cmd));
    s = s + json_str_member("cmd"@, row.cmd);
    lemma_printable_add(s, ","@);
    s = s + ","@;
    lemma_printable_add(s, json_num_member("started_at"@, Some(row.started_at)));
    s = s + json_num_member("started_at"@, Some(row.started_at));
    lemma_printable_add(s, ","@);
    s = s + ","@;
    lemma_printable_add(s, json_num_member("finished_at"@, row.finished_at));
    s = s + json_num_member("finished_at"@, row.finished_at);
    lemma_printable_add(s, ","@);
    s = s + ","@;
    lemma_printable_add(s, json_num_member("duration_ms"@, row.duration_ms));
    s = s + json_num_member("duration_ms"@, row.duration_ms);
    lemma_printable_add(s, ","@);
    s = s + ","@;
    lemma_printable_add(s, json_num_member("exit_status"@, row.exit_status));
    s = s + json_num_member("exit_status"@, row.exit_status);
    lemma_printable_add(s, "}"@);
}

// ── Reading back ────────────────────────────────────────────────────────────

/// The value of the member `key` behind `lead`, which is a string, and what follows it.
#[verifier::opaque]
pub open spec fn read_str_member(s: Seq<char>, lead: Seq<char>, key: Seq<char>) -> Option<
    (Seq<char>, Seq<char>),
> {
    match text::strip_prefix_of(s, lead + seq!['"'] + key + "\":\""@) {
        Some(rest) => json::read_literal(rest),
        None => None,
    }
}

/// The length of the number that `s` starts with.
pub open spec fn number_len(s: Seq<char>) -> nat
    decreases s.len(),
{
    if s.len() > 0 && (decimal::is_digit(s[0]) || s[0] == '-') {
        1 + number_len(s.skip(1))
    } else {
        0
    }
}

/// The number that `s` starts with, none where that is `null`, and what follows it.
pub open spec fn read_number(s: Seq<char>) -> Option<(Option<i64>, Seq<char>)> {
    match text::strip_prefix_of(s, "null"@) {
        Some(rest) => Some((None, rest)),
        None => {
            let n = number_len(s) as int;
            match decimal::parse_signed_of(s.take(n), i64::MIN as int, i64::MAX as int) {
                Some(v) => Some((Some(v as i64), s.skip(n))),
                None => None,
            }
        },
    }
}

/// The value of the member `key` behind `lead`, which is a number or `null`, and what
/// follows it.
#[verifier::opaque]
pub open spec fn read_num_member(s: Seq<char>, lead: Seq<char>, key: Seq<char>) -> Option<
    (Option<i64>, Seq<char>),
> {
    match text::strip_prefix_of(s, lead + "\""@ + key + "\":"@) {
        Some(rest) => read_number(rest),
        None => None,
    }
}

/// What follows a value that was read; nothing where none was.
pub open spec fn left_by<T>(r: Option<(T, Seq<char>)>) -> Seq<char> {
    match r {
        Some((_, rest)) => rest,
        None => Seq::empty(),
    }
}

/// The row that a JSON object of its nine members tells of.
pub open spec fn read_row(s: Seq<char>) -> Option<RowView> {
    let id = read_str_member(s, "{"@, "id"@);
    let session_id = read_str_member(left_by(id), ","@, "session_id"@);
    let hostname = read_str_member(left_by(session_id), ","@, "hostname"@);
    let cwd = read_str_member(left_by(hostname), ","@, "cwd"@);
    let cmd = read_str_member(left_by(cwd), ","@, "cmd"@);
    let started_at = read_num_member(left_by(cmd), ","@, "started_at"@);
    let finished_at = read_num_member(left_by(started_at), ","@, "finished_at"@);
    let duration_ms = read_num_member(left_by(finished_at), ","@, "duration_ms"@);
    let exit_status = read_num_member(left_by(duration_ms), ","@, "exit_status"@);
    if id is Some && session_id is Some && hostname is Some && cwd is Some && cmd is Some && started_at is Some
        && (started_at->0).0 is Some && finished_at is Some && duration_ms is Some && exit_status is Some
        && left_by(exit_status) == "}"@ {
        Some(
            RowView {
                id: (id->0).0,
                session_id: (session_id->0).0,
                hostname: (hostname->0).0,
                cwd: (cwd->0).0,
                cmd: (cmd->0).0,
                started_at: (started_at->0).0->0,
                finished_at: (finished_at->0).0,
                duration_ms: (duration_ms->0).0,
                exit_status: (exit_status->0).0,
            },
        )
    } else {
        None
    }
}

proof fn lemma_str_member_reads(lead: Seq<char>, key: Seq<char>, value: Seq<char>, rest: Seq<char>)
    ensures
        read_str_member(lead + json_str_member(key, value) + rest, lead, key) == Some((value, rest)),
{
    reveal(read_str_member);
    let s = lead + json_str_member(key, value) + rest;
    let head = lead + seq!['"'] + key + "\":\""@;
    let tail = json::json_escaped(true, value) + seq!['"'] + rest;
    assert(s =~= head + tail);
    assert(s.subrange(0, head.len() as int) =~= head);
    assert(s.skip(head.len() as int) =~= tail);
    json::law_literal_reads_back(true, value, rest);
}

proof fn lemma_number_len(n: Seq<char>, rest: Seq<char>)
    requires
        forall|i: int| 0 <= i < n.len() ==> decimal::is_digit(#[trigger] n[i]) || n[i] == '-',
        rest.len() > 0,
        !decimal::is_digit(rest[0]),
        rest[0] != '-',
    ensures
        number_len(n + rest) == n.len(),
    decreases n.len(),
{
    let s = n + rest;
    if n.len() == 0 {
        assert(s =~= rest);
    } else {
        assert(s[0] == n[0]);
        assert(s.skip(1) =~= n.skip(1) + rest);
        assert forall|i: int| 0 <= i < n.skip(1).len() implies decimal::is_digit(#[trigger] n.skip(1)[i])
            || n.skip(1)[i] == '-' by {
            assert(n.skip(1)[i] == n[i + 1]);
        }
        lemma_number_len(n.skip(1), rest);
    }
}

proof fn lemma_number_reads(value: Option<i64>, rest: Seq<char>)
    requires
        rest.len() > 0,
        !decimal::is_digit(rest[0]),
        rest[0] != '-',
    ensures
        read_number(number_or_null(value) + rest) == Some((value, rest)),
{
    reveal_strlit("null");
    let s = number_or_null(value) + rest;
    match value {
        None => {
            assert(s.subrange(0, 4) =~= "null"@);
            assert(s.skip(4) =~= rest);
        },
        Some(v) => {
            let d = decimal::dec_int(v as int);
            let m = if v < 0 {
                (-v) as nat
            } else {
                v as nat
            };
            decimal::lemma_dec_digits(m);
            decimal::law_parse_signed_reads_back(v as int, i64::MIN as int, i64::MAX as int);
            let digits = decimal::dec_digits(m);
            assert forall|i: int| 0 <= i < d.len() implies decimal::is_digit(#[trigger] d[i]) || d[i] == '-' by {
                if v < 0 && i > 0 {
                    assert(d[i] == digits[i - 1]);
                    assert(decimal::is_digit(digits[i - 1]));
                } else if v >= 0 {
                    assert(decimal::is_digit(digits[i]));
                }
            }
            lemma_number_len(d, rest);
            assert(s[0] == d[0]);
            if text::starts_with_of(s, "null"@) {
                assert(s.subrange(0, 4)[0] == s[0]);
            }
            assert(s.take(d.len() as int) =~= d);
            assert(s.skip(d.len() as int) =~= rest);
        },
    }
}

proof fn lemma_num_member_reads(lead: Seq<char>, key: Seq<char>, value: Option<i64>, rest: Seq<char>)
    requires
        rest.len() > 0,
        !decimal::is_digit(rest[0]),
        rest[0] != '-',
    ensures
        read_num_member(lead + json_num_member(key, value) + rest, lead, key) == Some((value, rest)),
{
    reveal(read_num_member);
    let s = lead + json_num_member(key, value) + rest;
    let head = lead + "\""@ + key + "\":"@;
    let tail = number_or_null(value) + rest;
    assert(s =~= head + tail);
    assert(s.subrange(0, head.len() as int) =~= head);
    assert(s.skip(head.len() as int) =~= tail);
    lemma_number_reads(value, rest);
}

proof fn lemma_regroup(before: Seq<char>, lead: Seq<char>, member: Seq<char>, after: Seq<char>)
    ensures
        before + lead + member + after == before + (lead + member + after),
{
    assert(before + lead + member + after =~= before + (lead + member + after));
}

/// A row that was written as a JSON object is read back, whatever its fields hold.
pub proof fn law_json_row_reads_back(row: RowView)
    ensures
        read_row(json_of(row)) == Some(row),
{
    reveal_strlit(",");
    reveal_strlit("}");
    let m0 = json_str_member("id"@, row.id);
    let m1 = json_str_member("session_id"@, row.session_id);
    let m2 = json_str_member("hostname"@, row.hostname);
    let m3 = json_str_member("cwd"@, row.cwd);
    let m4 = json_str_member("cmd"@, row.cmd);
    let m5 = json_num_member("started_at"@, Some(row.started_at));
    let m6 = json_num_member("finished_at"@, row.finished_at);
    let m7 = json_num_member("duration_ms"@, row.duration_ms);
    let m8 = json_num_member("exit_status"@, row.exit_status);
    // What follows each member.
    let t8 = "}"@;
    let t7 = ","@ + m8 + t8;
    let t6 = ","@ + m7 + t7;
    let t5 = ","@ + m6 + t6;
    let t4 = ","@ + m5 + t5;
    let t3 = ","@ + m4 + t4;
    let t2 = ","@ + m3 + t3;
    let t1 = ","@ + m2 + t2;
    let t0 = ","@ + m1 + t1;
    // What stands up to the end of each member.
    let p0 = "{"@ + m0;
    let p1 = p0 + ","@ + m1;
    let p2 = p1 + ","@ + m2;
    let p3 = p2 + ","@ + m3;
    let p4 = p3 + ","@ + m4;
    let p5 = p4 + ","@ + m5;
    let p6 = p5 + ","@ + m6;
    let p7 = p6 + ","@ + m7;
    lemma_regroup(p0, ","@, m1, t1);
    lemma_regroup(p1, ","@, m2, t2);
    lemma_regroup(p2, ","@, m3, t3);
    lemma_regroup(p3, ","@, m4, t4);
    lemma_regroup(p4, ","@, m5, t5);
    lemma_regroup(p5, ","@, m6, t6);
    lemma_regroup(p6, ","@, m7, t7);
    lemma_regroup(p7, ","@, m8, t8);
    assert(json_of(row) == p0 + t0);
    lemma_str_member_reads("{"@, "id"@, row.id, t0);
    lemma_str_member_reads(","@, "session_id"@, row.session_id, t1);
    lemma_str_member_reads(","@, "hostname"@, row.hostname, t2);
    lemma_str_member_reads(","@, "cwd"@, row.cwd, t3);
    lemma_str_member_reads(","@, "cmd"@, row.cmd, t4);
    lemma_num_member_reads(","@, "started_at"@, Some(row.started_at), t5);
    lemma_num_member_reads(","@, "finished_at"@, row.finished_at, t6);
    lemma_num_member_reads(","@, "duration_ms"@, row.duration_ms, t7);
    lemma_num_member_reads(","@, "exit_status"@, row.exit_status, t8);
}

/// How long ago a row is, is told in the largest unit that is full: seconds, minutes,
/// hours, days up to a month of thirty, weeks up to a year of 365 days, and years. What
/// is still to come was no time ago.
pub proof fn law_ago_in_the_largest_unit(n: nat, rest: nat)
    ensures
        n < 60 && rest < 1_000 ==> ago_of((n * 1_000 + rest) as int) == decimal::dec_int(n as int) + "s ago"@,
        1 <= n < 60 && rest < 60_000 ==> ago_of((n * 60_000 + rest) as int) == decimal::dec_int(n as int)
            + "m ago"@,
        1 <= n < 24 && rest < 3_600_000 ==> ago_of((n * 3_600_000 + rest) as int) == decimal::dec_int(
            n as int,
        ) + "h ago"@,
        1 <= n < 30 && rest < 86_400_000 ==> ago_of((n * 86_400_000 + rest) as int) == decimal::dec_int(
            n as int,
        ) + "d ago"@,
        rest < 604_800_000 && 30 * 86_400_000 <= n * 604_800_000 + rest < 365 * 86_400_000 ==> ago_of(
            (n * 604_800_000 + rest) as int,
        ) == decimal::dec_int(n as int) + "w ago"@,
        1 <= n && rest < 365 * 86_400_000 ==> ago_of((n * (365 * 86_400_000) + rest) as int)
            == decimal::dec_int(n as int) + "y ago"@,
        forall|ms: int| ms <= 0 ==> #[trigger] ago_of(ms) == decimal::dec_int(0) + "s ago"@,
{
    assert(rest < 1_000 ==> (n * 1_000 + rest) / 1_000 == n) by (nonlinear_arith);
    assert(rest < 60_000 ==> (n * 60_000 + rest) / 60_000 == n) by (nonlinear_arith);
    assert(rest < 3_600_000 ==> (n * 3_600_000 + rest) / 3_600_000 == n) by (nonlinear_arith);
    assert(rest < 86_400_000 ==> (n * 86_400_000 + rest) / 86_400_000 == n) by (nonlinear_arith);
    assert(rest < 604_800_000 ==> (n * 604_800_000 + rest) / 604_800_000 == n) by (nonlinear_arith);
    assert(rest < 31_536_000_000 ==> (n * 31_536_000_000 + rest) / 31_536_000_000 == n) by (nonlinear_arith);
}

/// A length of time is minutes and seconds from a minute on, and below that seconds and
/// tenths; what is left of the last of them is dropped.
pub proof fn law_duration_adds_up(m: nat, s: nat, tenths: nat, rest: nat)
    ensures
        m >= 1 && s < 60 && rest < 1_000 ==> duration_of((m * 60_000 + s * 1_000 + rest) as int)
            == decimal::dec_int(m as int) + "m "@ + decimal::dec_int(s as int) + "s"@,
        s < 60 && tenths < 10 && rest < 100 ==> duration_of((s * 1_000 + tenths * 100 + rest) as int)
            == decimal::dec_int(s as int) + "."@ + decimal::dec_int(tenths as int) + "s"@,
{
    if m >= 1 && s < 60 && rest < 1_000 {
        let low = s * 1_000 + rest;
        assert((m * 60_000 + low) / 60_000 == m && (m * 60_000 + low) % 60_000 == low) by (nonlinear_arith)
            requires
                low < 60_000,
        ;
        assert(low / 1_000 == s);
    }
}

/// A path at or below the home directory is shown with a tilde in its place, and every
/// other path as it is; without a home, every path is.
pub proof fn law_home_is_a_tilde(home: Seq<char>, below: Seq<char>, path: Seq<char>)
    requires
        home.len() > 0,
    ensures
        home_collapsed(home, Some(home)) == seq!['~'],
        below.len() > 0 && below[0] == '/' ==> home_collapsed(home + below, Some(home)) == seq!['~'] + below,
        path != home && !text::starts_with_of(path, home.push('/')) ==> home_collapsed(path, Some(home))
            == path,
        home_collapsed(path, None) == path,
{
    reveal_strlit("~");
    assert("~"@ =~= seq!['~']);
    assert(home.subrange(0, home.len() as int) =~= home);
    if below.len() > 0 && below[0] == '/' {
        let p = home + below;
        assert(p.subrange(0, home.len() as int) =~= home);
        assert(p.skip(home.len() as int) =~= below);
    }
    if path != home && home_collapsed(path, Some(home)) != path {
        let rest = path.skip(home.len() as int);
        assert(path.subrange(0, home.len() as int) == home);
        if rest.len() == 0 {
            assert(path =~= home);
        }
        assert(rest[0] == '/');
        assert(path[home.len() as int] == '/');
        assert(path.subrange(0, home.len() as int + 1) =~= home.push('/'));
    }
}

/// A row shows a cross and its code just where the command is known to have failed, its
/// length of time just where it succeeded and took a second or more, and else nothing.
/// In colour the cross is red.
pub proof fn law_outcome_tells_the_end(row: RowView)
    ensures
        ({
            let said = outcome_of(row);
            let bad = row.exit_status is Some && row.exit_status != Some(0i64);
            let slow = row.exit_status == Some(0i64) && row.duration_ms is Some && row.duration_ms->0 >= 1_000;
            &&& said.contains('✗') <==> bad
            &&& bad ==> said.subrange(9, said.len() as int) == decimal::dec_int(row.exit_status->0 as int)
            &&& slow ==> said == seq![' ', ' ', '('] + duration_of(row.duration_ms->0 as int) + seq![')']
            &&& said.len() == 0 <==> !bad && !slow
            &&& text::starts_with_of(outcome_coloured(row), "  \x1b[31m✗"@) <==> bad
        }),
{
    reveal_strlit("  (");
    reveal_strlit(")");
    reveal_strlit("  ✗ exit ");
    reveal_strlit("✗ exit ");
    reveal_strlit("  ");
    reveal_strlit("\x1b[31m");
    reveal_strlit("\x1b[2m");
    reveal_strlit("\x1b[0m");
    reveal_strlit("  \x1b[31m✗");
    let said = outcome_of(row);
    let bad = row.exit_status is Some && row.exit_status != Some(0i64);
    let col = outcome_coloured(row);
    let want = "  \x1b[31m✗"@;
    if bad {
        assert(said[2] == '✗');
        assert(said.subrange(9, said.len() as int) =~= decimal::dec_int(row.exit_status->0 as int));
        assert(col.subrange(0, 8) =~= want);
    } else {
        if row.exit_status is Some && row.duration_ms is Some && row.duration_ms->0 >= 1_000 {
            let ms = row.duration_ms->0 as int;
            assert(said =~= seq![' ', ' ', '('] + duration_of(ms) + seq![')']);
            assert(!said.contains('✗')) by {
                lemma_duration_plain(ms);
            }
            assert(col[0] == '\x1b');
        }
        if text::starts_with_of(col, want) {
            assert(col.subrange(0, 8)[0] == col[0]);
        }
    }
}

proof fn lemma_number_plain(n: int)
    ensures
        !decimal::dec_int(n).contains('✗'),
{
    let d = decimal::dec_int(n);
    let m = if n < 0 {
        (-n) as nat
    } else {
        n as nat
    };
    decimal::lemma_dec_digits(m);
    assert forall|i: int| 0 <= i < d.len() implies d[i] != '✗' by {
        if n < 0 {
            if i > 0 {
                assert(decimal::is_digit(decimal::dec_digits(m)[i - 1]));
            }
        } else {
            assert(decimal::is_digit(decimal::dec_digits(m)[i]));
        }
    }
}

proof fn lemma_duration_plain(ms: int)
    ensures
        !duration_of(ms).contains('✗'),
{
    reveal_strlit("m ");
    reveal_strlit("s");
    reveal_strlit(".");
    let a = if ms >= 60_000 {
        ms / 60_000
    } else {
        cut_div(ms, 1_000)
    };
    let b = if ms >= 60_000 {
        (ms % 60_000) / 1_000
    } else {
        cut_div(cut_rem(ms, 1_000), 100)
    };
    lemma_number_plain(a);
    lemma_number_plain(b);
    let x = decimal::dec_int(a);
    let y = decimal::dec_int(b);
    let d = duration_of(ms);
    let sep = if ms >= 60_000 {
        "m "@
    } else {
        "."@
    };
    assert(d =~= x + sep + y + "s"@);
    assert forall|i: int| 0 <= i < d.len() implies d[i] != '✗' by {
        if i < x.len() {
            assert(x.contains(x[i]));
        } else if x.len() + sep.len() <= i < x.len() + sep.len() + y.len() {
            assert(y.contains(y[i - x.len() - sep.len()]));
        }
    }
}

/// A row for a reader is, in this order, how long ago it was, in nine columns, where it
/// ran, and the first line of the command; then how it ended.
pub proof fn law_human_row_order(row: RowView, now_ms: int, home: Option<Seq<char>>)
    ensures
        ({
            let line = human_of(row, false, now_ms, home);
            let when = ago_of(now_ms - row.started_at);
            let w = if when.len() < 9 {
                9
            } else {
                when.len() as int
            };
            let place = home_collapsed(row.cwd, home);
            let cmd = text::first_line_of(row.cmd);
            let p = w + 2 + place.len() as int + 2;
            &&& text::occurs_at(line, when, w - when.len())
            &&& forall|i: int| 0 <= i < w - when.len() ==> #[trigger] line[i] == ' '
            &&& text::occurs_at(line, place, w + 2)
            &&& text::occurs_at(line, cmd, p)
            &&& line.skip(p + cmd.len()) == outcome_of(row)
        }),
{
    reveal_strlit("  ");
    let line = human_of(row, false, now_ms, home);
    let when = ago_of(now_ms - row.started_at);
    let w = if when.len() < 9 {
        9
    } else {
        when.len() as int
    };
    let place = home_collapsed(row.cwd, home);
    let cmd = text::first_line_of(row.cmd);
    let p = w + 2 + place.len() as int + 2;
    assert(line.subrange(w - when.len(), w) =~= when);
    assert(line.subrange(w + 2, w + 2 + place.len()) =~= place);
    assert(line.subrange(p, p + cmd.len()) =~= cmd);
    assert(line.skip(p + cmd.len()) =~= outcome_of(row));
}

/// A key in braces is replaced by what the row has of it, and what follows is a
/// template again.
pub proof fn law_template_keys(row: RowView, idx: nat, rest: Seq<char>)
    ensures
        template_of(row, idx, "{id}"@ + rest) == row.id + template_of(row, idx, rest),
        template_of(row, idx, "{session}"@ + rest) == row.session_id + template_of(row, idx, rest),
        template_of(row, idx, "{host}"@ + rest) == row.hostname + template_of(row, idx, rest),
        template_of(row, idx, "{cwd}"@ + rest) == row.cwd + template_of(row, idx, rest),
        template_of(row, idx, "{cmd}"@ + rest) == row.cmd + template_of(row, idx, rest),
        template_of(row, idx, "{started_at}"@ + rest) == decimal::dec_int(row.started_at as int) + template_of(row, idx, rest),
        template_of(row, idx, "{n}"@ + rest) == decimal::dec_digits(idx) + template_of(row, idx, rest),
        template_of(row, idx, "{exit}"@ + rest) == (match row.exit_status {
            Some(n) => decimal::dec_int(n as int),
            None => "null"@,
        }) + template_of(row, idx, rest),
        template_of(row, idx, "{duration}"@ + rest) == (match row.duration_ms {
            Some(n) => decimal::dec_int(n as int),
            None => "null"@,
        }) + template_of(row, idx, rest),
        template_of(row, idx, "{finished_at}"@ + rest) == (match row.finished_at {
            Some(n) => decimal::dec_int(n as int),
            None => "null"@,
        }) + template_of(row, idx, rest),
{
    reveal_strlit("id");
    reveal_strlit("{id}");
    reveal_strlit("session");
    reveal_strlit("{session}");
    reveal_strlit("host");
    reveal_strlit("{host}");
    reveal_strlit("cwd");
    reveal_strlit("{cwd}");
    reveal_strlit("cmd");
    reveal_strlit("{cmd}");
    reveal_strlit("started_at");
    reveal_strlit("{started_at}");
    reveal_strlit("finished_at");
    reveal_strlit("{finished_at}");
    reveal_strlit("duration");
    reveal_strlit("{duration}");
    reveal_strlit("exit");
    reveal_strlit("{exit}");
    reveal_strlit("n");
    reveal_strlit("{n}");
    assert("id"@.len() == 2);
    assert("session"@.len() == 7);
    assert("host"@.len() == 4);
    assert("cwd"@.len() == 3);
    assert("cmd"@.len() == 3);
    assert("started_at"@.len() == 10);
    assert("finished_at"@.len() == 11);
    assert("duration"@.len() == 8);
    assert("exit"@.len() == 4);
    assert("n"@.len() == 1);
    assert("host"@[0] != "exit"@[0]);
    assert("cwd"@[1] != "cmd"@[1]);
    assert("{id}"@ =~= seq!['{'] + "id"@ + seq!['}']);
    lemma_key(row, idx, "id"@, rest);
    assert("{session}"@ =~= seq!['{'] + "session"@ + seq!['}']);
    lemma_key(row, idx, "session"@, rest);
    assert("{host}"@ =~= seq!['{'] + "host"@ + seq!['}']);
    lemma_key(row, idx, "host"@, rest);
    assert("{cwd}"@ =~= seq!['{'] + "cwd"@ + seq!['}']);
    lemma_key(row, idx, "cwd"@, rest);
    assert("{cmd}"@ =~= seq!['{'] + "cmd"@ + seq!['}']);
    lemma_key(row, idx, "cmd"@, rest);
    assert("{started_at}"@ =~= seq!['{'] + "started_at"@ + seq!['}']);
    lemma_key(row, idx, "started_at"@, rest);
    assert("{finished_at}"@ =~= seq!['{'] + "finished_at"@ + seq!['}']);
    lemma_key(row, idx, "finished_at"@, rest);
    assert("{duration}"@ =~= seq!['{'] + "duration"@ + seq!['}']);
    lemma_key(row, idx, "duration"@, rest);
    assert("{exit}"@ =~= seq!['{'] + "exit"@ + seq!['}']);
    lemma_key(row, idx, "exit"@, rest);
    assert("{n}"@ =~= seq!['{'] + "n"@ + seq!['}']);
    lemma_key(row, idx, "n"@, rest);
}

proof fn lemma_key(row: RowView, idx: nat, key: Seq<char>, rest: Seq<char>)
    requires
        forall|i: int| 0 <= i < key.len() ==> #[trigger] key[i] != '}',
    ensures
        template_of(row, idx, seq!['{'] + key + seq!['}'] + rest) == field_of(row, idx, key) + template_of(
            row,
            idx,
            rest,
        ),
{
    let t = seq!['{'] + key + seq!['}'] + rest;
    let head = seq!['{'] + key;
    assert forall|i: int| 0 <= i < head.len() implies #[trigger] head[i] != '}' by {
        if i > 0 {
            assert(head[i] == key[i - 1]);
        }
    }
    text::lemma_find_char_at(head, '}', rest);
    assert(t[0] == '{');
    assert(t.subrange(1, head.len() as int) =~= key);
    assert(t.skip(head.len() as int + 1) =~= rest);
}

/// Text without braces stands for itself, whatever follows it.
pub proof fn law_template_text(row: RowView, idx: nat, plain: Seq<char>, rest: Seq<char>)
    requires
        forall|i: int| 0 <= i < plain.len() ==> #[trigger] plain[i] != '{',
    ensures
        template_of(row, idx, plain + rest) == plain + template_of(row, idx, rest),
    decreases plain.len(),
{
    let t = plain + rest;
    if plain.len() == 0 {
        assert(t =~= rest);
        assert(plain + template_of(row, idx, rest) =~= template_of(row, idx, rest));
    } else {
        let more = plain.skip(1);
        assert(t[0] == plain[0]);
        assert(t.skip(1) =~= more + rest);
        assert forall|i: int| 0 <= i < more.len() implies #[trigger] more[i] != '{' by {
            assert(more[i] == plain[i + 1]);
        }
        law_template_text(row, idx, more, rest);
        assert(template_of(row, idx, t) =~= plain + template_of(row, idx, rest));
    }
}

/// A query gives the newest row first. For a reader it comes last, nearest to the
/// prompt, and in every other form first; reversed, it is the other way round. Every row
/// is shown once.
pub proof fn law_order_of_the_rows(f: FiltersView, n: int, k: int, j: int)
    requires
        0 <= k < n,
        0 <= j < n,
    ensures
        0 <= shown_at(f, n, k) < n,
        shown_at(f, n, k) == shown_at(f, n, j) ==> k == j,
        k < j ==> (shown_at(f, n, k) > shown_at(f, n, j) <==> (f.format is Human && !f.reverse) || (
        !(f.format is Human) && f.reverse)),
{
}

} // verus!
