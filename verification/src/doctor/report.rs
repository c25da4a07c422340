//! The layout of the doctor's report.

use vstd::prelude::*;
use crate::decimal;
use crate::decimal::push_u64;
use crate::health::check;
use crate::health::check::{severity_to_exit, Check, CheckView, Severity};
use crate::health::render;
use crate::health::render::{escape, fill, label_width};
use crate::health::report;
use crate::health::report::{parse_flags, Opts};
use crate::json;
use crate::json::json_escape_into;
use crate::text;
use crate::text::{byte_len_of, joined, owned, repeat_char, str_eq};

verus! {

// ── The command line ────────────────────────────────────────────────────────

/// What the arguments ask for. `color` tells whether the terminal shows colours.
pub fn parse_args(args: &Vec<String>, color: bool) -> (r: Result<Opts, String>)
    ensures
        report::parsed(r, report::read_flags(report::no_args(color), text::views(args@), false)),
{
    parse_flags(args, color, false)
}

// ── Sections ────────────────────────────────────────────────────────────────

/// A title and what was found under it.
pub type Section = (&'static str, Vec<Check>);

/// The value of a section.
pub open spec fn section_view(s: Section) -> (Seq<char>, Seq<CheckView>) {
    (s.0@, check::check_views(s.1@))
}

/// The values of some sections.
pub open spec fn section_views(v: Seq<Section>) -> Seq<(Seq<char>, Seq<CheckView>)> {
    Seq::new(v.len(), |i: int| section_view(v[i]))
}

/// All that was found, section by section.
pub open spec fn flat(v: Seq<(Seq<char>, Seq<CheckView>)>) -> Seq<CheckView>
    decreases v.len(),
{
    if v.len() == 0 {
        Seq::empty()
    } else {
        flat(v.drop_last()) + v.last().1
    }
}

proof fn lemma_section_step(v: Seq<Section>, i: int)
    requires
        0 <= i < v.len(),
    ensures
        section_views(v).take(i + 1).drop_last() == section_views(v).take(i),
        section_views(v).take(i + 1).last() == section_view(v[i]),
{
    assert(section_views(v).take(i + 1).drop_last() =~= section_views(v).take(i));
}

/// The names of some findings.
pub open spec fn names_of(checks: Seq<CheckView>) -> Seq<Seq<char>> {
    Seq::new(checks.len(), |i: int| checks[i].name)
}

/// The names of all that can be looked at.
pub fn available_names(sections: &Vec<Section>) -> (r: Vec<&'static str>)
    ensures
        text::str_views(r@) == names_of(flat(section_views(sections@))),
{
    let mut out: Vec<&'static str> = Vec::new();
    let mut i: usize = 0;
    let ghost all = section_views(sections@);
    proof {
        assert(text::str_views(out@) =~= names_of(flat(all.take(0))));
    }
    while i < sections.len()
        invariant
            all == section_views(sections@),
            i <= sections@.len(),
            text::str_views(out@) == names_of(flat(all.take(i as int))),
        decreases sections@.len() - i,
    {
        let checks: &Vec<Check> = &sections[i].1;
        let ghost done = flat(all.take(i as int));
        let ghost cv = check::check_views(checks@);
        let mut j: usize = 0;
        proof {
            assert(done + cv.take(0) =~= done);
        }
        while j < checks.len()
            invariant
                j <= checks@.len(),
                cv == check::check_views(checks@),
                text::str_views(out@) == names_of(done + cv.take(j as int)),
            decreases checks@.len() - j,
        {
            let ghost prior = out@;
            out.push(checks[j].name);
            proof {
                assert(text::str_views(out@) =~= text::str_views(prior).push(cv[j as int].name));
                assert(names_of(done + cv.take(j as int + 1)) =~= names_of(
                    done + cv.take(j as int),
                ).push(cv[j as int].name));
            }
            j += 1;
        }
        proof {
            lemma_section_step(sections@, i as int);
            assert(cv.take(j as int) =~= cv);
        }
        i += 1;
    }
    proof {
        assert(all.take(i as int) =~= all);
    }
    out
}

/// Those of some findings that have a name.
pub open spec fn named(checks: Seq<CheckView>, name: Seq<char>) -> Seq<CheckView>
    decreases checks.len(),
{
    if checks.len() == 0 {
        Seq::empty()
    } else if checks.last().name == name {
        named(checks.drop_last(), name).push(checks.last())
    } else {
        named(checks.drop_last(), name)
    }
}

/// What was found under a name, in order; nothing where the name is unknown.
pub fn select(sections: &Vec<Section>, name: &str) -> (r: Vec<Check>)
    ensures
        check::check_views(r@) == named(flat(section_views(sections@)), name@),
{
    let mut out: Vec<Check> = Vec::new();
    let mut i: usize = 0;
    let ghost all = section_views(sections@);
    proof {
        assert(check::check_views(out@) =~= named(flat(all.take(0)), name@));
    }
    while i < sections.len()
        invariant
            all == section_views(sections@),
            i <= sections@.len(),
            check::check_views(out@) == named(flat(all.take(i as int)), name@),
        decreases sections@.len() - i,
    {
        let checks: &Vec<Check> = &sections[i].1;
        let ghost done = flat(all.take(i as int));
        let ghost cv = check::check_views(checks@);
        let mut j: usize = 0;
        proof {
            assert(done + cv.take(0) =~= done);
        }
        while j < checks.len()
            invariant
                j <= checks@.len(),
                cv == check::check_views(checks@),
                check::check_views(out@) == named(done + cv.take(j as int), name@),
            decreases checks@.len() - j,
        {
            proof {
                let t = done + cv.take(j as int + 1);
                assert(t.drop_last() =~= done + cv.take(j as int));
                assert(t.last() == checks@[j as int]@);
            }
            if str_eq(checks[j].name, name) {
                let ghost prior = out@;
                out.push(checks[j].copied());
                proof {
                    assert(check::check_views(out@) =~= check::check_views(prior).push(
                        cv[j as int],
                    ));
                }
            }
            j += 1;
        }
        proof {
            lemma_section_step(sections@, i as int);
            assert(cv.take(j as int) =~= cv);
        }
        i += 1;
    }
    proof {
        assert(all.take(i as int) =~= all);
    }
    out
}

// ── Text ────────────────────────────────────────────────────────────────────

/// The tag of a severity: six columns wide, and in colour where colours are
/// shown.
pub open spec fn severity_tag_of(severity: Severity, color: bool) -> Seq<char> {
    let (visible, shade) = match severity {
        Severity::Okay => ("[ok]  "@, "\x1b[32m"@),
        Severity::Warn => ("[warn]"@, "\x1b[33m"@),
        Severity::Critical => ("[fail]"@, "\x1b[31m"@),
        Severity::Info => ("[info]"@, "\x1b[36m"@),
        Severity::Unknown => ("[?]   "@, "\x1b[2m"@),
    };
    if color {
        shade + visible + "\x1b[0m"@
    } else {
        visible
    }
}

/// The tag of a severity.
pub fn severity_tag(severity: Severity, color: bool) -> (r: String)
    ensures
        r@ == severity_tag_of(severity, color),
{
    let (visible, shade): (&'static str, &'static str) = match severity {
        Severity::Okay => ("[ok]  ", "\x1b[32m"),
        Severity::Warn => ("[warn]", "\x1b[33m"),
        Severity::Critical => ("[fail]", "\x1b[31m"),
        Severity::Info => ("[info]", "\x1b[36m"),
        Severity::Unknown => ("[?]   ", "\x1b[2m"),
    };
    if color {
        let mut s: String = joined(shade, visible);
        s.push_str("\x1b[0m");
        s
    } else {
        owned(visible)
    }
}

/// Without colours every tag is six characters wide, so that the labels line up.
pub proof fn law_tags_are_six_wide(severity: Severity)
    ensures
        severity_tag_of(severity, false).len() == 6,
{
    reveal_strlit("[ok]  ");
    reveal_strlit("[warn]");
    reveal_strlit("[fail]");
    reveal_strlit("[info]");
    reveal_strlit("[?]   ");
}

/// The line of a hint, under the column of the values.
pub open spec fn hint_line_of(hint: Option<Seq<char>>, width: nat, color: bool) -> Seq<char> {
    match hint {
        Some(h) => text::repeated(' ', 12 + width) + render::escape_of(color, "\x1b[2m"@) + "hint: "@ + h
            + render::escape_of(color, "\x1b[0m"@) + "\n"@,
        None => Seq::empty(),
    }
}

/// One finding, its label in a column of the given width.
pub open spec fn check_line_of(c: CheckView, width: nat, color: bool) -> Seq<char> {
    "  "@ + severity_tag_of(c.severity, color) + "  "@ + c.label + render::filling(
        width,
        text::byte_len(c.label),
    ) + "  "@ + c.value + "\n"@ + hint_line_of(c.hint, width, color)
}

/// One finding, its label in a column of the given width.
pub fn render_check_line(c: &Check, width: usize, color: bool) -> (r: String)
    requires
        width + 12 <= usize::MAX,
    ensures
        r@ == check_line_of(c@, width as nat, color),
{
    let mut s: String = joined("  ", severity_tag(c.severity, color).as_str());
    s.push_str("  ");
    s.push_str(c.label);
    s.push_str(fill(width, byte_len_of(c.label)).as_str());
    s.push_str("  ");
    s.push_str(c.value.as_str());
    s.push_str("\n");
    let hint: String = match &c.hint {
        Some(h) => {
            let mut t: String = repeat_char(' ', 12 + width);
            t.push_str(escape(color, "\x1b[2m"));
            t.push_str("hint: ");
            t.push_str(h.as_str());
            t.push_str(escape(color, "\x1b[0m"));
            t.push_str("\n");
            t
        },
        None => String::new(),
    };
    s.push_str(hint.as_str());
    s
}

/// Some findings, one after another.
pub open spec fn lines_of(checks: Seq<CheckView>, width: nat, color: bool) -> Seq<char>
    decreases checks.len(),
{
    if checks.len() == 0 {
        Seq::empty()
    } else {
        lines_of(checks.drop_last(), width, color) + check_line_of(checks.last(), width, color)
    }
}

/// Some findings, their labels in one column.
pub open spec fn text_flat_of(checks: Seq<CheckView>, color: bool) -> Seq<char> {
    lines_of(checks, render::label_width_of(checks), color)
}

/// Whether the labels leave room for the indent of a hint. A label of nearly as
/// many bytes as there are addresses would not.
pub open spec fn labels_fit(checks: Seq<CheckView>) -> bool {
    render::label_width_of(checks) + 12 <= usize::MAX
}

/// Some findings, their labels in one column.
pub fn render_text_flat(checks: &Vec<Check>, color: bool) -> (r: String)
    requires
        labels_fit(check::check_views(checks@)),
    ensures
        r@ == text_flat_of(check::check_views(checks@), color),
{
    let width: usize = label_width(checks);
    let mut out: String = String::new();
    let mut i: usize = 0;
    let ghost all = check::check_views(checks@);
    while i < checks.len()
        invariant
            width + 12 <= usize::MAX,
            all == check::check_views(checks@),
            i <= checks@.len(),
            out@ == lines_of(all.take(i as int), width as nat, color),
        decreases checks@.len() - i,
    {
        proof {
            let t = all.take(i as int + 1);
            assert(t.drop_last() =~= all.take(i as int));
            assert(t.last() == checks@[i as int]@);
        }
        out.push_str(render_check_line(&checks[i], width, color).as_str());
        i += 1;
    }
    proof {
        assert(all.take(i as int) =~= all);
    }
    out
}

/// One section: an empty line, its title, its findings.
pub open spec fn section_text(s: (Seq<char>, Seq<CheckView>), color: bool) -> Seq<char> {
    "\n"@ + render::escape_of(color, "\x1b[1m"@) + s.0 + render::escape_of(color, "\x1b[0m"@) + "\n"@
        + text_flat_of(s.1, color)
}

/// All sections, one after another.
pub open spec fn sections_text(v: Seq<(Seq<char>, Seq<CheckView>)>, color: bool) -> Seq<char>
    decreases v.len(),
{
    if v.len() == 0 {
        Seq::empty()
    } else {
        sections_text(v.drop_last(), color) + section_text(v.last(), color)
    }
}

/// How many findings there are of each kind.
pub struct Counts {
    pub critical: nat,
    pub warn: nat,
    pub ok: nat,
    pub info: nat,
}

/// How many findings there are of each kind; what is unknown counts as told.
pub open spec fn counts_of(checks: Seq<CheckView>) -> Counts
    decreases checks.len(),
{
    if checks.len() == 0 {
        Counts { critical: 0, warn: 0, ok: 0, info: 0 }
    } else {
        let c = counts_of(checks.drop_last());
        match checks.last().severity {
            Severity::Critical => Counts { critical: c.critical + 1, ..c },
            Severity::Warn => Counts { warn: c.warn + 1, ..c },
            Severity::Okay => Counts { ok: c.ok + 1, ..c },
            Severity::Info | Severity::Unknown => Counts { info: c.info + 1, ..c },
        }
    }
}

/// Every finding is counted once.
pub proof fn law_counts_add_up(checks: Seq<CheckView>)
    ensures
        ({
            let c = counts_of(checks);
            c.critical + c.warn + c.ok + c.info == checks.len()
        }),
    decreases checks.len(),
{
    if checks.len() > 0 {
        law_counts_add_up(checks.drop_last());
    }
}

/// How many findings there are of each kind: critical, warning, fine, told.
pub fn counts(sections: &Vec<Section>) -> (r: (u32, u32, u32, u32))
    requires
        flat(section_views(sections@)).len() <= u32::MAX,
    ensures
        ({
            let c = counts_of(flat(section_views(sections@)));
            r.0 == c.critical && r.1 == c.warn && r.2 == c.ok && r.3 == c.info
        }),
{
    let mut critical: u32 = 0;
    let mut warn: u32 = 0;
    let mut ok: u32 = 0;
    let mut info: u32 = 0;
    let mut i: usize = 0;
    let ghost all = section_views(sections@);
    let ghost every = flat(all);
    while i < sections.len()
        invariant
            all == section_views(sections@),
            every == flat(all),
            every.len() <= u32::MAX,
            i <= sections@.len(),
            counts_of(flat(all.take(i as int))) == (Counts {
                critical: critical as nat,
                warn: warn as nat,
                ok: ok as nat,
                info: info as nat,
            }),
        decreases sections@.len() - i,
    {
        let checks: &Vec<Check> = &sections[i].1;
        let ghost done = flat(all.take(i as int));
        let ghost cv = check::check_views(checks@);
        let mut j: usize = 0;
        proof {
            assert(done + cv.take(0) =~= done);
            lemma_section_step(sections@, i as int);
            lemma_flat_grows(all, i as int + 1);
        }
        while j < checks.len()
            invariant
                j <= checks@.len(),
                cv == check::check_views(checks@),
                done.len() + cv.len() <= u32::MAX,
                counts_of(done + cv.take(j as int)) == (Counts {
                    critical: critical as nat,
                    warn: warn as nat,
                    ok: ok as nat,
                    info: info as nat,
                }),
            decreases checks@.len() - j,
        {
            proof {
                let t = done + cv.take(j as int + 1);
                assert(t.drop_last() =~= done + cv.take(j as int));
                assert(t.last() == checks@[j as int]@);
                law_counts_add_up(done + cv.take(j as int));
            }
            match checks[j].severity {
                Severity::Critical => critical += 1,
                Severity::Warn => warn += 1,
                Severity::Okay => ok += 1,
                Severity::Info | Severity::Unknown => info += 1,
            }
            j += 1;
        }
        proof {
            assert(cv.take(j as int) =~= cv);
        }
        i += 1;
    }
    proof {
        assert(all.take(i as int) =~= all);
    }
    (critical, warn, ok, info)
}

/// The first sections hold no more than all of them.
proof fn lemma_flat_grows(v: Seq<(Seq<char>, Seq<CheckView>)>, n: int)
    requires
        0 <= n <= v.len(),
    ensures
        flat(v.take(n)).len() <= flat(v).len(),
    decreases v.len() - n,
{
    if n == v.len() {
        assert(v.take(n) =~= v);
    } else {
        lemma_flat_grows(v, n + 1);
        assert(v.take(n + 1).drop_last() =~= v.take(n));
    }
}

/// The last line of the report.
pub open spec fn summary_of(c: Counts, color: bool) -> Seq<char> {
    "\n"@ + render::escape_of(color, "\x1b[1m"@) + "Summary"@ + render::escape_of(color, "\x1b[0m"@) + ": "@
        + decimal::dec_digits(c.critical) + " critical, "@ + decimal::dec_digits(c.warn) + " warning(s), "@
        + decimal::dec_digits(c.ok) + " ok, "@ + decimal::dec_digits(c.info) + " info\n"@
}

/// The last line of the report.
fn render_summary(sections: &Vec<Section>, color: bool) -> (r: String)
    requires
        flat(section_views(sections@)).len() <= u32::MAX,
    ensures
        r@ == summary_of(counts_of(flat(section_views(sections@))), color),
{
    let (critical, warn, ok, info): (u32, u32, u32, u32) = counts(sections);
    let mut out: String = joined("\n", escape(color, "\x1b[1m"));
    out.push_str("Summary");
    out.push_str(escape(color, "\x1b[0m"));
    out.push_str(": ");
    push_u64(&mut out, critical as u64);
    out.push_str(" critical, ");
    push_u64(&mut out, warn as u64);
    out.push_str(" warning(s), ");
    push_u64(&mut out, ok as u64);
    out.push_str(" ok, ");
    push_u64(&mut out, info as u64);
    out.push_str(" info\n");
    out
}

/// The report for a reader.
pub open spec fn text_of(
    v: Seq<(Seq<char>, Seq<CheckView>)>,
    color: bool,
    version: Seq<char>,
) -> Seq<char> {
    "chevron doctor "@ + version + "\n"@ + sections_text(v, color) + summary_of(counts_of(flat(v)), color)
}

/// Whether the labels of all sections leave room for the indent of a hint.
pub open spec fn sections_fit(v: Seq<(Seq<char>, Seq<CheckView>)>) -> bool {
    forall|i: int| 0 <= i < v.len() ==> labels_fit((#[trigger] v[i]).1)
}

/// The report for a reader.
pub fn render_text(sections: &Vec<Section>, color: bool, version: &str) -> (r: String)
    requires
        flat(section_views(sections@)).len() <= u32::MAX,
        sections_fit(section_views(sections@)),
    ensures
        r@ == text_of(section_views(sections@), color, version@),
{
    let mut out: String = joined("chevron doctor ", version);
    out.push_str("\n");
    let mut body: String = String::new();
    let mut i: usize = 0;
    let ghost all = section_views(sections@);
    while i < sections.len()
        invariant
            all == section_views(sections@),
            sections_fit(all),
            i <= sections@.len(),
            body@ == sections_text(all.take(i as int), color),
        decreases sections@.len() - i,
    {
        proof {
            lemma_section_step(sections@, i as int);
            assert(labels_fit(all[i as int].1));
        }
        let mut s: String = joined("\n", escape(color, "\x1b[1m"));
        s.push_str(sections[i].0);
        s.push_str(escape(color, "\x1b[0m"));
        s.push_str("\n");
        s.push_str(render_text_flat(&sections[i].1, color).as_str());
        body.push_str(s.as_str());
        i += 1;
    }
    proof {
        assert(all.take(i as int) =~= all);
    }
    out.push_str(body.as_str());
    out.push_str(render_summary(sections, color).as_str());
    out
}

// ── JSON ────────────────────────────────────────────────────────────────────

/// A text with the escapes of JSON; control characters without a letter of
/// their own are numbered.
pub fn json_escape(s: &str) -> (r: String)
    ensures
        r@ == json::json_escaped(false, s@),
{
    let mut out: String = String::new();
    json_escape_into(&mut out, false, s);
    proof {
        assert(out@ =~= json::json_escaped(false, s@));
    }
    out
}

/// The word for a severity.
pub open spec fn severity_word(severity: Severity) -> Seq<char> {
    match severity {
        Severity::Okay => "ok"@,
        Severity::Warn => "warn"@,
        Severity::Critical => "critical"@,
        Severity::Info => "info"@,
        Severity::Unknown => "unknown"@,
    }
}

/// A quoted text, or `null`.
pub open spec fn json_or_null(s: Option<Seq<char>>) -> Seq<char> {
    match s {
        Some(h) => "\""@ + json::json_escaped(false, h) + "\""@,
        None => "null"@,
    }
}

/// One finding as a JSON object.
pub open spec fn check_json(c: CheckView) -> Seq<char> {
    "{\"name\":\""@ + json::json_escaped(false, c.name) + "\",\"label\":\""@ + json::json_escaped(false, c.label)
        + "\",\"value\":\""@ + json::json_escaped(false, c.value) + "\",\"severity\":\""@ + severity_word(
        c.severity,
    ) + "\",\"hint\":"@ + json_or_null(c.hint) + "}"@
}

/// One finding as a JSON object.
pub fn check_to_json(c: &Check) -> (r: String)
    ensures
        r@ == check_json(c@),
{
    let severity: &'static str = match c.severity {
        Severity::Okay => "ok",
        Severity::Warn => "warn",
        Severity::Critical => "critical",
        Severity::Info => "info",
        Severity::Unknown => "unknown",
    };
    let hint: String = match &c.hint {
        Some(h) => {
            let mut t: String = joined("\"", json_escape(h.as_str()).as_str());
            t.push_str("\"");
            t
        },
        None => owned("null"),
    };
    let mut s: String = joined("{\"name\":\"", json_escape(c.name).as_str());
    s.push_str("\",\"label\":\"");
    s.push_str(json_escape(c.label).as_str());
    s.push_str("\",\"value\":\"");
    s.push_str(json_escape(c.value.as_str()).as_str());
    s.push_str("\",\"severity\":\"");
    s.push_str(severity);
    s.push_str("\",\"hint\":");
    s.push_str(hint.as_str());
    s.push_str("}");
    s
}

/// Some findings as JSON objects with commas between.
pub open spec fn checks_json(checks: Seq<CheckView>) -> Seq<char> {
    text::join_of(Seq::new(checks.len(), |i: int| check_json(checks[i])), ","@)
}

fn json_list(checks: &Vec<Check>) -> (r: String)
    ensures
        r@ == checks_json(check::check_views(checks@)),
{
    let mut out: String = String::new();
    let mut i: usize = 0;
    let ghost cv = check::check_views(checks@);
    let ghost parts = Seq::new(cv.len(), |i: int| check_json(cv[i]));
    while i < checks.len()
        invariant
            cv == check::check_views(checks@),
            parts == Seq::new(cv.len(), |i: int| check_json(cv[i])),
            i <= checks@.len(),
            out@ == text::join_of(parts.take(i as int), ","@),
        decreases checks@.len() - i,
    {
        if i > 0 {
            out.push_str(",");
        }
        out.push_str(check_to_json(&checks[i]).as_str());
        proof {
            let t = parts.take(i as int + 1);
            assert(t.drop_last() =~= parts.take(i as int));
            assert(t.last() == check_json(checks@[i as int]@));
            if i == 0 {
                assert(out@ =~= t[0]);
            }
        }
        i += 1;
    }
    proof {
        assert(parts.take(i as int) =~= parts);
    }
    out
}

/// Some findings for a program.
pub open spec fn json_flat_of(checks: Seq<CheckView>) -> Seq<char> {
    "{\"checks\":["@ + checks_json(checks) + "]}\n"@
}

/// Some findings for a program.
pub fn render_json_flat(checks: &Vec<Check>) -> (r: String)
    ensures
        r@ == json_flat_of(check::check_views(checks@)),
{
    let mut out: String = joined("{\"checks\":[", json_list(checks).as_str());
    out.push_str("]}\n");
    out
}

/// One section as a JSON object.
pub open spec fn section_json(s: (Seq<char>, Seq<CheckView>)) -> Seq<char> {
    "{\"name\":\""@ + json::json_escaped(false, s.0) + "\",\"checks\":["@ + checks_json(s.1) + "]}"@
}

/// The report for a program.
pub open spec fn json_of(v: Seq<(Seq<char>, Seq<CheckView>)>, version: Seq<char>) -> Seq<char> {
    let c = counts_of(flat(v));
    "{\"version\":\""@ + version + "\",\"sections\":["@ + text::join_of(
        Seq::new(v.len(), |i: int| section_json(v[i])),
        ","@,
    ) + "],"@ + "\"summary\":{\"critical\":"@ + decimal::dec_digits(c.critical) + ",\"warn\":"@
        + decimal::dec_digits(c.warn) + ",\"ok\":"@ + decimal::dec_digits(c.ok) + ",\"info\":"@
        + decimal::dec_digits(c.info) + "}}\n"@
}

/// The report for a program.
pub fn render_json(sections: &Vec<Section>, version: &str) -> (r: String)
    requires
        flat(section_views(sections@)).len() <= u32::MAX,
    ensures
        r@ == json_of(section_views(sections@), version@),
{
    let mut list: String = String::new();
    let mut i: usize = 0;
    let ghost all = section_views(sections@);
    let ghost parts = Seq::new(all.len(), |i: int| section_json(all[i]));
    while i < sections.len()
        invariant
            all == section_views(sections@),
            parts == Seq::new(all.len(), |i: int| section_json(all[i])),
            i <= sections@.len(),
            list@ == text::join_of(parts.take(i as int), ","@),
        decreases sections@.len() - i,
    {
        if i > 0 {
            list.push_str(",");
        }
        let mut s: String = joined("{\"name\":\"", json_escape(sections[i].0).as_str());
        s.push_str("\",\"checks\":[");
        s.push_str(json_list(&sections[i].1).as_str());
        s.push_str("]}");
        list.push_str(s.as_str());
        proof {
            let t = parts.take(i as int + 1);
            assert(t.drop_last() =~= parts.take(i as int));
            assert(all[i as int] == section_view(sections@[i as int]));
            assert(t.last() == s@);
            if i == 0 {
                assert(list@ =~= t[0]);
            }
        }
        i += 1;
    }
    proof {
        assert(parts.take(i as int) =~= parts);
    }
    let (critical, warn, ok, info): (u32, u32, u32, u32) = counts(sections);
    let mut out: String = joined("{\"version\":\"", version);
    out.push_str("\",\"sections\":[");
    out.push_str(list.as_str());
    out.push_str("],");
    out.push_str("\"summary\":{\"critical\":");
    push_u64(&mut out, critical as u64);
    out.push_str(",\"warn\":");
    push_u64(&mut out, warn as u64);
    out.push_str(",\"ok\":");
    push_u64(&mut out, ok as u64);
    out.push_str(",\"info\":");
    push_u64(&mut out, info as u64);
    out.push_str("}}\n");
    out
}

// ── Exit codes ──────────────────────────────────────────────────────────────

/// The exit code of the report: that of its worst finding.
pub fn exit_code(sections: &Vec<Section>) -> (r: i32)
    ensures
        r == check::exit_code_of(flat(section_views(sections@))),
{
    let mut acc: i32 = 0;
    let mut i: usize = 0;
    let ghost all = section_views(sections@);
    while i < sections.len()
        invariant
            all == section_views(sections@),
            i <= sections@.len(),
            acc == check::exit_code_of(flat(all.take(i as int))),
        decreases sections@.len() - i,
    {
        let checks: &Vec<Check> = &sections[i].1;
        let ghost done = flat(all.take(i as int));
        let ghost cv = check::check_views(checks@);
        let mut j: usize = 0;
        proof {
            assert(done + cv.take(0) =~= done);
        }
        while j < checks.len()
            invariant
                j <= checks@.len(),
                cv == check::check_views(checks@),
                acc == check::exit_code_of(done + cv.take(j as int)),
            decreases checks@.len() - j,
        {
            let code: i32 = severity_to_exit(checks[j].severity);
            proof {
                let t = done + cv.take(j as int + 1);
                assert(t.drop_last() =~= done + cv.take(j as int));
                assert(t.last() == checks@[j as int]@);
            }
            if code > acc {
                acc = code;
            }
            j += 1;
        }
        proof {
            lemma_section_step(sections@, i as int);
            assert(cv.take(j as int) =~= cv);
        }
        i += 1;
    }
    proof {
        assert(all.take(i as int) =~= all);
    }
    acc
}

/// The exit code of some findings: that of the worst.
pub fn exit_code_flat(checks: &Vec<Check>) -> (r: i32)
    ensures
        r == check::exit_code_of(check::check_views(checks@)),
{
    crate::health::check::exit_code(checks)
}

// ── Without colours ─────────────────────────────────────────────────────────

proof fn lemma_plain_number(n: nat)
    ensures
        render::is_plain(decimal::dec_digits(n)),
{
    decimal::lemma_dec_digits(n);
}

proof fn lemma_plain_lines(checks: Seq<CheckView>, width: nat)
    requires
        forall|i: int| 0 <= i < checks.len() ==> render::is_plain_check(#[trigger] checks[i]),
    ensures
        render::is_plain(lines_of(checks, width, false)),
    decreases checks.len(),
{
    broadcast use render::lemma_plain_sum;

    if checks.len() > 0 {
        let c = checks.last();
        assert(render::is_plain_check(checks[checks.len() - 1]));
        assert forall|i: int| 0 <= i < checks.drop_last().len() implies render::is_plain_check(
            #[trigger] checks.drop_last()[i],
        ) by {
            assert(render::is_plain_check(checks[i]));
        }
        lemma_plain_lines(checks.drop_last(), width);
        reveal_strlit("  ");
        reveal_strlit("\n");
        reveal_strlit("hint: ");
        reveal_strlit("[ok]  ");
        reveal_strlit("[warn]");
        reveal_strlit("[fail]");
        reveal_strlit("[info]");
        reveal_strlit("[?]   ");
        let used = text::byte_len(c.label);
        render::lemma_plain_run(
            ' ',
            if used < width {
                (width - used) as nat
            } else {
                0
            },
        );
        render::lemma_plain_run(' ', 12 + width);
        assert(render::is_plain(severity_tag_of(c.severity, false)));
        assert(render::is_plain(hint_line_of(c.hint, width, false)));
        assert(render::is_plain(check_line_of(c, width, false)));
    }
}

proof fn lemma_plain_sections(v: Seq<(Seq<char>, Seq<CheckView>)>)
    requires
        forall|i: int| 0 <= i < v.len() ==> is_plain_section(#[trigger] v[i]),
    ensures
        render::is_plain(sections_text(v, false)),
    decreases v.len(),
{
    broadcast use render::lemma_plain_sum;

    if v.len() > 0 {
        let s = v.last();
        assert(is_plain_section(v[v.len() - 1]));
        assert forall|i: int| 0 <= i < v.drop_last().len() implies is_plain_section(
            #[trigger] v.drop_last()[i],
        ) by {
            assert(is_plain_section(v[i]));
        }
        lemma_plain_sections(v.drop_last());
        lemma_plain_lines(s.1, render::label_width_of(s.1));
        reveal_strlit("\n");
        assert(render::is_plain(section_text(s, false)));
    }
}

/// Whether neither the name of a section nor a finding in it holds an escape
/// character.
pub open spec fn is_plain_section(s: (Seq<char>, Seq<CheckView>)) -> bool {
    render::is_plain(s.0) && forall|i: int| 0 <= i < s.1.len() ==> render::is_plain_check(#[trigger] s.1[i])
}

/// Without colours the report holds no escape character, unless a finding does.
pub proof fn law_no_colour_no_escapes(v: Seq<(Seq<char>, Seq<CheckView>)>, version: Seq<char>)
    requires
        forall|i: int| 0 <= i < v.len() ==> is_plain_section(#[trigger] v[i]),
        render::is_plain(version),
    ensures
        render::is_plain(text_of(v, false, version)),
{
    broadcast use render::lemma_plain_sum;

    let c = counts_of(flat(v));
    lemma_plain_sections(v);
    lemma_plain_number(c.critical);
    lemma_plain_number(c.warn);
    lemma_plain_number(c.ok);
    lemma_plain_number(c.info);
    reveal_strlit("chevron doctor ");
    reveal_strlit("\n");
    reveal_strlit("Summary");
    reveal_strlit(": ");
    reveal_strlit(" critical, ");
    reveal_strlit(" warning(s), ");
    reveal_strlit(" ok, ");
    reveal_strlit(" info\n");
    assert(render::is_plain(summary_of(c, false)));
}

/// Every severity has a tag and a word of its own, in colour and without.
pub proof fn law_severities_are_told_apart(a: Severity, b: Severity, color: bool)
    requires
        a != b,
    ensures
        severity_tag_of(a, color) != severity_tag_of(b, color),
        severity_word(a) != severity_word(b),
{
    reveal_strlit("[ok]  ");
    reveal_strlit("[warn]");
    reveal_strlit("[fail]");
    reveal_strlit("[info]");
    reveal_strlit("[?]   ");
    reveal_strlit("\x1b[32m");
    reveal_strlit("\x1b[33m");
    reveal_strlit("\x1b[31m");
    reveal_strlit("\x1b[36m");
    reveal_strlit("\x1b[2m");
    reveal_strlit("\x1b[0m");
    reveal_strlit("ok");
    reveal_strlit("warn");
    reveal_strlit("critical");
    reveal_strlit("info");
    reveal_strlit("unknown");
    let x = severity_tag_of(a, color);
    let y = severity_tag_of(b, color);
    assert(color ==> (a is Unknown ==> x[2] == '2') && (!(a is Unknown) ==> x[2] == '3'));
    assert(color ==> (b is Unknown ==> y[2] == '2') && (!(b is Unknown) ==> y[2] == '3'));
    assert(color && !(a is Unknown) && !(b is Unknown) ==> x[3] != y[3]);
    assert(!color ==> x[1] != y[1]);
    assert(severity_word(a)[0] != severity_word(b)[0]);
}

/// In colour what is fine is green, a warning yellow and what is critical red.
pub proof fn law_tags_have_their_colours(severity: Severity)
    ensures
        text::starts_with_of(severity_tag_of(severity, true), "\x1b[32m[ok]"@) <==> severity is Okay,
        text::starts_with_of(severity_tag_of(severity, true), "\x1b[33m[warn]"@) <==> severity is Warn,
        text::starts_with_of(severity_tag_of(severity, true), "\x1b[31m[fail]"@) <==> severity is Critical,
{
    reveal_strlit("[ok]  ");
    reveal_strlit("[warn]");
    reveal_strlit("[fail]");
    reveal_strlit("[info]");
    reveal_strlit("[?]   ");
    reveal_strlit("\x1b[32m");
    reveal_strlit("\x1b[33m");
    reveal_strlit("\x1b[31m");
    reveal_strlit("\x1b[36m");
    reveal_strlit("\x1b[2m");
    reveal_strlit("\x1b[0m");
    reveal_strlit("\x1b[32m[ok]");
    reveal_strlit("\x1b[33m[warn]");
    reveal_strlit("\x1b[31m[fail]");
    let t = severity_tag_of(severity, true);
    assert(t.subrange(0, 9)[3] == t[3]);
    assert(t.len() >= 11 ==> t.subrange(0, 11)[3] == t[3]);
    if severity is Okay {
        assert(t.subrange(0, 9) =~= "\x1b[32m[ok]"@);
    }
    if severity is Warn {
        assert(t.subrange(0, 11) =~= "\x1b[33m[warn]"@);
    }
    if severity is Critical {
        assert(t.subrange(0, 11) =~= "\x1b[31m[fail]"@);
    }
    assert("\x1b[32m[ok]"@[3] == '2' && "\x1b[33m[warn]"@[3] == '3' && "\x1b[31m[fail]"@[3] == '1');
}

/// The summary counts each severity by itself, in this order: critical, warnings, fine,
/// and the rest.
pub proof fn law_summary_tells_the_counts(checks: Seq<CheckView>, c: CheckView)
    ensures
        ({
            let n = counts_of(checks);
            let m = counts_of(checks.push(c));
            &&& m.critical == n.critical + (if c.severity is Critical {
                1int
            } else {
                0
            })
            &&& m.warn == n.warn + (if c.severity is Warn {
                1int
            } else {
                0
            })
            &&& m.ok == n.ok + (if c.severity is Okay {
                1int
            } else {
                0
            })
            &&& m.info == n.info + (if c.severity is Info || c.severity is Unknown {
                1int
            } else {
                0
            })
        }),
        ({
            let n = counts_of(checks);
            let said = summary_of(n, false);
            let a = decimal::dec_digits(n.critical);
            let b = decimal::dec_digits(n.warn);
            let d = decimal::dec_digits(n.ok);
            let e = decimal::dec_digits(n.info);
            &&& text::occurs_at(said, a + " critical"@, 10)
            &&& text::occurs_at(said, b + " warning"@, 10int + a.len() + 11)
            &&& text::occurs_at(said, d + " ok"@, 10int + a.len() + 11 + b.len() + 13)
            &&& text::occurs_at(said, e + " info"@, 10int + a.len() + 11 + b.len() + 13 + d.len() + 5)
        }),
{
    assert(checks.push(c).drop_last() =~= checks);
    reveal_strlit("\n");
    reveal_strlit("Summary");
    reveal_strlit(": ");
    reveal_strlit(" critical, ");
    reveal_strlit(" warning(s), ");
    reveal_strlit(" ok, ");
    reveal_strlit(" info\n");
    reveal_strlit(" critical");
    reveal_strlit(" warning");
    reveal_strlit(" ok");
    reveal_strlit(" info");
    let n = counts_of(checks);
    let said = summary_of(n, false);
    let a = decimal::dec_digits(n.critical);
    let b = decimal::dec_digits(n.warn);
    let d = decimal::dec_digits(n.ok);
    let e = decimal::dec_digits(n.info);
    let p = 10 + a.len() as int + 11;
    let q = p + b.len() as int + 13;
    let r = q + d.len() as int + 5;
    assert(said.subrange(10, 10 + a.len() as int + 9) =~= a + " critical"@);
    assert(said.subrange(p, p + b.len() + 8) =~= b + " warning"@);
    assert(said.subrange(q, q + d.len() + 3) =~= d + " ok"@);
    assert(said.subrange(r, r + e.len() + 5) =~= e + " info"@);
}

/// The line of a check has its tag, its label and its value, in this order, and below
/// it the hint where there is one.
pub proof fn law_line_tells_the_check(c: CheckView, width: nat)
    ensures
        ({
            let line = check_line_of(c, width, false);
            let used = text::byte_len(c.label);
            let gap: int = if used < width {
                width - used
            } else {
                0
            };
            let l = 10int;
            let v = l + c.label.len() + gap + 2;
            &&& text::occurs_at(line, severity_tag_of(c.severity, false), 2)
            &&& text::occurs_at(line, c.label, l)
            &&& text::occurs_at(line, c.value, v)
            &&& c.hint matches Some(h) ==> text::occurs_at(line, h, v + c.value.len() + 1 + 12 + width + 6)
            &&& c.hint is None ==> line.len() == v + c.value.len() + 1
        }),
{
    law_tags_are_six_wide(c.severity);
    reveal_strlit("  ");
    reveal_strlit("\n");
    reveal_strlit("hint: ");
    let line = check_line_of(c, width, false);
    let tag = severity_tag_of(c.severity, false);
    let used = text::byte_len(c.label);
    let gap: int = if used < width {
        width - used
    } else {
        0
    };
    let v = 10 + c.label.len() + gap + 2;
    assert(line.subrange(2, 2 + tag.len() as int) =~= tag);
    assert(line.subrange(10, 10 + c.label.len() as int) =~= c.label);
    assert(line.subrange(v, v + c.value.len()) =~= c.value);
    if c.hint is Some {
        let h = c.hint->0;
        let at = v + c.value.len() + 1 + 12 + width + 6;
        assert(line.subrange(at, at + h.len()) =~= h);
    }
}

/// Asked for by name, a check is shown just where it has that name, and in the order of
/// all checks.
pub proof fn law_named_checks_have_the_name(checks: Seq<CheckView>, c: CheckView, name: Seq<char>)
    ensures
        c.name == name ==> named(checks.push(c), name) == named(checks, name).push(c),
        c.name != name ==> named(checks.push(c), name) == named(checks, name),
        named(Seq::empty(), name).len() == 0,
{
    assert(checks.push(c).drop_last() =~= checks);
}

// ── Reading the JSON back ───────────────────────────────────────────────────

/// A text member of an object behind `lead`, and what follows it.
#[verifier::opaque]
pub open spec fn member(s: Seq<char>, lead: Seq<char>) -> Option<(Seq<char>, Seq<char>)> {
    match text::strip_prefix_of(s, lead) {
        Some(rest) => json::read_literal(rest),
        None => None,
    }
}

/// A check, read from its JSON: its name, its label, its value, its severity in a word
/// and its hint.
pub open spec fn read_check(s: Seq<char>) -> Option<
    (Seq<char>, Seq<char>, Seq<char>, Seq<char>, Option<Seq<char>>),
> {
    match member(s, "{\"name\":\""@) {
        Some((name, a)) => match member(a, ",\"label\":\""@) {
            Some((label, b)) => match member(b, ",\"value\":\""@) {
                Some((value, c)) => match member(c, ",\"severity\":\""@) {
                    Some((word, d)) => if d == ",\"hint\":null}"@ {
                        Some((name, label, value, word, None))
                    } else {
                        match member(d, ",\"hint\":\""@) {
                            Some((hint, e)) => if e == "}"@ {
                                Some((name, label, value, word, Some(hint)))
                            } else {
                                None
                            },
                            None => None,
                        }
                    },
                    None => None,
                },
                None => None,
            },
            None => None,
        },
        None => None,
    }
}

proof fn lemma_member(lead: Seq<char>, x: Seq<char>, rest: Seq<char>)
    ensures
        member(lead + (json::json_escaped(false, x) + seq!['"'] + rest), lead) == Some((x, rest)),
{
    reveal(member);
    let tail = json::json_escaped(false, x) + seq!['"'] + rest;
    let s = lead + tail;
    assert(s.subrange(0, lead.len() as int) =~= lead);
    assert(s.skip(lead.len() as int) =~= tail);
    json::law_literal_reads_back(false, x, rest);
}

proof fn lemma_plain_escaped(s: Seq<char>)
    requires
        forall|i: int| 0 <= i < s.len() ==> (#[trigger] s[i]) as u32 >= 0x20 && s[i] != '"' && s[i] != '\\',
    ensures
        json::json_escaped(false, s) == s,
    decreases s.len(),
{
    if s.len() > 0 {
        let more = s.skip(1);
        assert forall|i: int| 0 <= i < more.len() implies (#[trigger] more[i]) as u32 >= 0x20 && more[i] != '"' && more[i]
            != '\\' by {
            assert(more[i] == s[i + 1]);
        }
        lemma_plain_escaped(more);
        assert(s[0] as u32 >= 0x20 && s[0] != '"' && s[0] != '\\');
        assert(json::json_char(false, s[0]) =~= seq![s[0]]);
        assert(seq![s[0]] + more =~= s);
    }
}

proof fn lemma_word_escaped(severity: Severity)
    ensures
        json::json_escaped(false, severity_word(severity)) == severity_word(severity),
{
    reveal_strlit("ok");
    reveal_strlit("warn");
    reveal_strlit("critical");
    reveal_strlit("info");
    reveal_strlit("unknown");
    lemma_plain_escaped(severity_word(severity));
}

proof fn lemma_check_parts(
    o: Seq<char>,
    n: Seq<char>,
    b: Seq<char>,
    l: Seq<char>,
    c: Seq<char>,
    v: Seq<char>,
    d: Seq<char>,
    w: Seq<char>,
    h: Seq<char>,
    t: Seq<char>,
    e: Seq<char>,
)
    ensures
        o + n + (seq!['"'] + b) + l + (seq!['"'] + c) + v + (seq!['"'] + d) + w + (seq!['"'] + h) + t + e == o + (n
            + seq!['"'] + (b + (l + seq!['"'] + (c + (v + seq!['"'] + (d + (w + seq!['"'] + (h + t + e)))))))),
{
    assert(o + n + (seq!['"'] + b) + l + (seq!['"'] + c) + v + (seq!['"'] + d) + w + (seq!['"'] + h) + t + e
        =~= o + (n + seq!['"'] + (b + (l + seq!['"'] + (c + (v + seq!['"'] + (d + (w + seq!['"'] + (h + t
        + e)))))))));
}

/// A program that reads the JSON of a check gets back its name, its label, its value,
/// its severity and its hint, whatever characters they are made of.
pub proof fn law_check_json_reads_back(c: CheckView)
    ensures
        read_check(check_json(c)) == Some((c.name, c.label, c.value, severity_word(c.severity), c.hint)),
{
    let open = "{\"name\":\""@;
    let b = ",\"label\":\""@;
    let v = ",\"value\":\""@;
    let d = ",\"severity\":\""@;
    let h = ",\"hint\":"@;
    assert("\",\"label\":\""@ =~= seq!['"'] + b && "\",\"value\":\""@ =~= seq!['"'] + v
        && "\",\"severity\":\""@ =~= seq!['"'] + d && "\",\"hint\":"@ =~= seq!['"'] + h) by {
        reveal_strlit("\",\"label\":\"");
        reveal_strlit("\",\"value\":\"");
        reveal_strlit("\",\"severity\":\"");
        reveal_strlit("\",\"hint\":");
        reveal_strlit(",\"label\":\"");
        reveal_strlit(",\"value\":\"");
        reveal_strlit(",\"severity\":\"");
        reveal_strlit(",\"hint\":");
    }
    let n_ = json::json_escaped(false, c.name);
    let l_ = json::json_escaped(false, c.label);
    let v_ = json::json_escaped(false, c.value);
    let w_ = severity_word(c.severity);
    let t_ = json_or_null(c.hint);
    lemma_check_parts(open, n_, b, l_, v, v_, d, w_, h, t_, "}"@);
    let r4 = h + t_ + "}"@;
    let r3 = d + (w_ + seq!['"'] + r4);
    let r2 = v + (v_ + seq!['"'] + r3);
    let r1 = b + (l_ + seq!['"'] + r2);
    assert(check_json(c) == open + (n_ + seq!['"'] + r1));
    lemma_member(open, c.name, r1);
    lemma_member(b, c.label, r2);
    lemma_member(v, c.value, r3);
    lemma_word_escaped(c.severity);
    lemma_member(d, w_, r4);
    lemma_hint_reads_back(c.hint);
}

proof fn lemma_hint_reads_back(hint: Option<Seq<char>>)
    ensures
        ({
            let r = ",\"hint\":"@ + json_or_null(hint) + "}"@;
            &&& hint is None ==> r == ",\"hint\":null}"@
            &&& hint matches Some(h) ==> r != ",\"hint\":null}"@ && member(r, ",\"hint\":\""@) == Some((h, "}"@))
        }),
{
    reveal_strlit(",\"hint\":");
    reveal_strlit(",\"hint\":\"");
    reveal_strlit(",\"hint\":null}");
    reveal_strlit("null");
    reveal_strlit("}");
    reveal_strlit("\"");
    let r = ",\"hint\":"@ + json_or_null(hint) + "}"@;
    match hint {
        None => {
            assert(r =~= ",\"hint\":null}"@);
        },
        Some(h) => {
            let e = json::json_escaped(false, h);
            assert("\""@ =~= seq!['"']);
            assert(r =~= ",\"hint\":\""@ + (e + seq!['"'] + "}"@));
            lemma_member(",\"hint\":\""@, h, "}"@);
            assert(r[8] == '"');
            assert(",\"hint\":null}"@[8] == 'n');
        },
    }
}

} // verus!
