//! The checks that read the output of macOS programs.

use vstd::prelude::*;
use crate::decimal;
use crate::decimal::dec_u64;
use crate::config::Thresholds;
use crate::health::check;
use crate::health::check::{Check, CheckView};
use crate::health::checks::Measure;
use crate::paths;
use crate::paths::join_path;
use crate::span::Span;
use crate::text;
use crate::text::{
    ascii_lower, chars_of, contains_str, joined, split_lines, starts_with_str, str_eq,
    string_of_range, strip_prefix_str, trim_start_str, trim_str,
};

verus! {

// ── CPU temperature ─────────────────────────────────────────────────────────

/// Whether a character belongs to a decimal number.
pub open spec fn in_number(c: char) -> bool {
    '0' <= c <= '9' || c == '.'
}

/// How many characters at the start of `s` belong to a decimal number.
pub open spec fn number_len(s: Seq<char>) -> nat
    decreases s.len(),
{
    if s.len() == 0 || !in_number(s[0]) {
        0
    } else {
        1 + number_len(s.skip(1))
    }
}

/// The digits and points that `raw` starts with, after any white space.
pub open spec fn leading_number_of(raw: Seq<char>) -> Option<Seq<char>> {
    let s = text::trim_start_of(raw);
    if number_len(s) == 0 {
        None
    } else {
        Some(s.take(number_len(s) as int))
    }
}

/// The digits and points that `raw` starts with, after any white space.
pub fn leading_number(raw: &str) -> (r: Option<String>)
    ensures
        text::opt_view(r) == leading_number_of(raw@),
{
    let s: String = trim_start_str(raw);
    let v: Vec<char> = chars_of(s.as_str());
    let mut n: usize = 0;
    proof {
        assert(v@.skip(0) =~= v@);
    }
    while n < v.len() && (('0' <= v[n] && v[n] <= '9') || v[n] == '.')
        invariant
            n <= v@.len(),
            number_len(v@) == n + number_len(v@.skip(n as int)),
        decreases v@.len() - n,
    {
        proof {
            assert(v@.skip(n as int).skip(1) =~= v@.skip(n as int + 1));
        }
        n += 1;
    }
    if n == 0 {
        None
    } else {
        proof {
            assert(v@.subrange(0, n as int) =~= v@.take(n as int));
        }
        Some(string_of_range(&v, 0, n))
    }
}

/// What came of asking for the CPU temperature.
#[derive(Debug, Clone)]
pub enum TempReading {
    /// There is no program to ask.
    NoTool,
    /// The program failed.
    Failed,
    /// What the program wrote, and the number that it starts with, where that is
    /// one.
    Output { raw: String, degrees: Option<Measure> },
}

/// What the CPU temperature says.
pub open spec fn cpu_temp_of(reading: TempReading, thresholds: Thresholds) -> CheckView {
    let name = "cpu_temp"@;
    let label = "CPU Temperature"@;
    match reading {
        TempReading::NoTool => check::unknown_of(name, label, "N/A (install osx-cpu-temp)"@),
        TempReading::Failed => check::unknown_of(name, label, "N/A"@),
        TempReading::Output { raw, degrees: None } => check::unknown_of(name, label, text::trim_of(raw@)),
        TempReading::Output { raw, degrees: Some(m) } => {
            let value = m.text@ + "°C"@;
            if m.key > thresholds.cpu_temp_critical {
                check::critical_of(name, label, value, "check cooling: CPU is critically hot"@)
            } else if m.key > thresholds.cpu_temp_warn {
                check::warn_of(name, label, value, "CPU temperature elevated"@)
            } else {
                check::ok_of(name, label, value)
            }
        },
    }
}

/// What the CPU temperature says.
pub fn cpu_temp(reading: &TempReading, thresholds: &Thresholds) -> (r: Check)
    ensures
        r@ == cpu_temp_of(*reading, *thresholds),
{
    match reading {
        TempReading::NoTool => Check::unknown(
            "cpu_temp",
            "CPU Temperature",
            "N/A (install osx-cpu-temp)",
        ),
        TempReading::Failed => Check::unknown("cpu_temp", "CPU Temperature", "N/A"),
        TempReading::Output { raw, degrees } => match degrees {
            None => {
                let value: String = trim_str(raw.as_str());
                Check::unknown("cpu_temp", "CPU Temperature", value.as_str())
            },
            Some(m) => {
                let value: String = joined(m.text.as_str(), "°C");
                if m.key > thresholds.cpu_temp_critical {
                    Check::critical(
                        "cpu_temp",
                        "CPU Temperature",
                        value.as_str(),
                        "check cooling: CPU is critically hot",
                    )
                } else if m.key > thresholds.cpu_temp_warn {
                    Check::warn("cpu_temp", "CPU Temperature", value.as_str(), "CPU temperature elevated")
                } else {
                    Check::ok("cpu_temp", "CPU Temperature", value.as_str())
                }
            },
        },
    }
}

// ── Disk ────────────────────────────────────────────────────────────────────

/// The status in one line of `diskutil info`, where it names one.
pub open spec fn smart_in_line(line: Seq<char>) -> Option<Seq<char>> {
    match text::strip_prefix_of(text::trim_of(line), "SMART Status:"@) {
        Some(rest) if text::trim_of(rest).len() > 0 => Some(text::trim_of(rest)),
        _ => None,
    }
}

/// The status in the first of some lines that names one.
pub open spec fn smart_in_lines(lines: Seq<Seq<char>>) -> Option<Seq<char>>
    decreases lines.len(),
{
    if lines.len() == 0 {
        None
    } else if smart_in_line(lines[0]) is Some {
        smart_in_line(lines[0])
    } else {
        smart_in_lines(lines.skip(1))
    }
}

/// The `SMART Status:` of `diskutil info disk0` output.
pub fn parse_smart_status(raw: &str) -> (r: Option<String>)
    ensures
        text::opt_view(r) == smart_in_lines(text::lines_of(raw@)),
{
    let lines: Vec<String> = split_lines(raw);
    let ghost lv = text::views(lines@);
    let mut i: usize = 0;
    proof {
        assert(lv.skip(0) =~= lv);
    }
    while i < lines.len()
        invariant
            lv == text::views(lines@),
            lv == text::lines_of(raw@),
            i <= lines@.len(),
            smart_in_lines(lv) == smart_in_lines(lv.skip(i as int)),
        decreases lines@.len() - i,
    {
        let line: String = trim_str(lines[i].as_str());
        proof {
            assert(lv.skip(i as int)[0] == lines@[i as int]@);
            assert(lv.skip(i as int).skip(1) =~= lv.skip(i as int + 1));
        }
        if let Some(rest) = strip_prefix_str(line.as_str(), "SMART Status:") {
            let status: String = trim_str(rest.as_str());
            if !status.as_str().is_empty() {
                return Some(status);
            }
        }
        i += 1;
    }
    None
}

/// What the status of the disk says: nothing where it could not be asked for.
pub open spec fn disk_health_of(status: Option<Seq<char>>, asked: bool) -> CheckView {
    let name = "disk_health"@;
    let label = "Disk Health"@;
    match status {
        None => check::unknown_of(
            name,
            label,
            if asked {
                "unknown"@
            } else {
                "N/A"@
            },
        ),
        Some(s) => if text::lower_of(s) == "verified"@ {
            check::ok_of(name, label, s)
        } else {
            check::critical_of(name, label, s, "back up data: SMART status is non-verified"@)
        },
    }
}

/// What the status of the disk says. `asked` tells whether `diskutil` could be
/// run.
pub fn disk_health(status: Option<&str>, asked: bool) -> (r: Check)
    ensures
        r@ == disk_health_of(text::opt_str_view(status), asked),
{
    match status {
        None => {
            if asked {
                Check::unknown("disk_health", "Disk Health", "unknown")
            } else {
                Check::unknown("disk_health", "Disk Health", "N/A")
            }
        },
        Some(s) => {
            let lower: String = ascii_lower(s);
            if str_eq(lower.as_str(), "verified") {
                Check::ok("disk_health", "Disk Health", s)
            } else {
                Check::critical(
                    "disk_health",
                    "Disk Health",
                    s,
                    "back up data: SMART status is non-verified",
                )
            }
        },
    }
}

// ── Application firewall ────────────────────────────────────────────────────

#[derive(Debug, Clone, Copy, PartialEq, Eq, Structural)]
pub enum FirewallState {
    Enabled,
    Disabled,
    Unknown,
}

/// What `socketfilterfw --getglobalstate` wrote means.
pub open spec fn firewall_state_of(raw: Seq<char>) -> FirewallState {
    if text::contains_of(text::lower_of(raw), "disabled"@) {
        FirewallState::Disabled
    } else if text::contains_of(text::lower_of(raw), "enabled"@) {
        FirewallState::Enabled
    } else {
        FirewallState::Unknown
    }
}

/// What `socketfilterfw --getglobalstate` wrote means.
pub fn parse_firewall_state(raw: &str) -> (r: FirewallState)
    ensures
        r == firewall_state_of(raw@),
{
    let lower: String = ascii_lower(raw);
    if contains_str(lower.as_str(), "disabled") {
        FirewallState::Disabled
    } else if contains_str(lower.as_str(), "enabled") {
        FirewallState::Enabled
    } else {
        FirewallState::Unknown
    }
}

/// What the output of the firewall's program says, where it could be run.
pub open spec fn firewall_of(output: Option<Seq<char>>) -> CheckView {
    let name = "firewall"@;
    let label = "Firewall"@;
    match output {
        None => check::unknown_of(name, label, "N/A"@),
        Some(raw) => match firewall_state_of(raw) {
            FirewallState::Enabled => check::ok_of(name, label, "Enabled"@),
            FirewallState::Disabled => check::warn_of(
                name,
                label,
                "Disabled"@,
                "enable the application firewall for better security"@,
            ),
            FirewallState::Unknown => check::unknown_of(name, label, text::trim_of(raw)),
        },
    }
}

/// What the output of the firewall's program says, where it could be run.
pub fn firewall(output: Option<&str>) -> (r: Check)
    ensures
        r@ == firewall_of(text::opt_str_view(output)),
{
    match output {
        None => Check::unknown("firewall", "Firewall", "N/A"),
        Some(raw) => match parse_firewall_state(raw) {
            FirewallState::Enabled => Check::ok("firewall", "Firewall", "Enabled"),
            FirewallState::Disabled => Check::warn(
                "firewall",
                "Firewall",
                "Disabled",
                "enable the application firewall for better security",
            ),
            FirewallState::Unknown => {
                let value: String = trim_str(raw);
                Check::unknown("firewall", "Firewall", value.as_str())
            },
        },
    }
}

// ── Software updates ────────────────────────────────────────────────────────

#[derive(Debug, Clone, Copy, PartialEq, Eq, Structural)]
pub enum UpdateState {
    UpToDate,
    /// How many updates were listed.
    Pending(usize),
    Unknown,
}

/// How many of some lines name an update.
pub open spec fn update_count(lines: Seq<Seq<char>>) -> nat
    decreases lines.len(),
{
    if lines.len() == 0 {
        0
    } else {
        update_count(lines.drop_last()) + (if text::starts_with_of(
            text::trim_start_of(lines.last()),
            "* Label:"@,
        ) {
            1nat
        } else {
            0
        })
    }
}

/// What `softwareupdate -l` wrote means.
pub open spec fn updates_of(raw: Seq<char>, r: UpdateState) -> bool {
    let count = update_count(text::lines_of(raw));
    if text::contains_of(raw, "No new software available"@) {
        r == UpdateState::UpToDate
    } else if count > 0 || text::contains_of(raw, "Software Update found the following"@) {
        r is Pending && r->0 == count
    } else {
        r == UpdateState::Unknown
    }
}

/// What `softwareupdate -l` wrote, on both its streams, means.
pub fn parse_updates(raw: &str) -> (r: UpdateState)
    ensures
        updates_of(raw@, r),
{
    if contains_str(raw, "No new software available") {
        return UpdateState::UpToDate;
    }
    let lines: Vec<String> = split_lines(raw);
    let ghost lv = text::views(lines@);
    let mut count: usize = 0;
    let mut i: usize = 0;
    while i < lines.len()
        invariant
            lv == text::views(lines@),
            i <= lines@.len(),
            count <= i <= lines.len(),
            count == update_count(lv.take(i as int)),
        decreases lines@.len() - i,
    {
        let line: String = trim_start_str(lines[i].as_str());
        proof {
            let t = lv.take(i as int + 1);
            assert(t.drop_last() =~= lv.take(i as int));
            assert(t.last() == lines@[i as int]@);
        }
        if starts_with_str(line.as_str(), "* Label:") {
            count += 1;
        }
        i += 1;
    }
    proof {
        assert(lv.take(i as int) =~= lv);
    }
    if count > 0 || contains_str(raw, "Software Update found the following") {
        UpdateState::Pending(count)
    } else {
        UpdateState::Unknown
    }
}

/// The program's two streams as one text.
pub fn both_streams(out: &str, err: &str) -> (r: String)
    ensures
        r@ == out@ + "\n"@ + err@,
{
    let mut s: String = joined(out, "\n");
    s.push_str(err);
    s
}

/// What a state of the updates says.
pub open spec fn update_check(state: UpdateState) -> CheckView {
    let name = "software_updates"@;
    let label = "Software Updates"@;
    let hint = "run: softwareupdate -i -a"@;
    match state {
        UpdateState::UpToDate => check::ok_of(name, label, "Up to date"@),
        UpdateState::Pending(n) => if n == 0 {
            check::warn_of(name, label, "Updates available"@, hint)
        } else {
            check::warn_of(name, label, decimal::dec_digits(n as nat) + " update(s) available"@, hint)
        },
        UpdateState::Unknown => check::unknown_of(name, label, "unable to determine"@),
    }
}

/// What the output of `softwareupdate` says, where it could be run.
pub fn software_updates(output: Option<&str>) -> (r: Check)
    ensures
        output is None ==> r@ == check::unknown_of("software_updates"@, "Software Updates"@, "N/A"@),
        output matches Some(raw) ==> exists|s: UpdateState|
            #[trigger] updates_of(raw@, s) && r@ == update_check(s),
{
    let state: UpdateState = match output {
        None => {
            return Check::unknown("software_updates", "Software Updates", "N/A");
        },
        Some(raw) => parse_updates(raw),
    };
    match state {
        UpdateState::UpToDate => Check::ok("software_updates", "Software Updates", "Up to date"),
        UpdateState::Pending(n) => {
            if n == 0 {
                Check::warn(
                    "software_updates",
                    "Software Updates",
                    "Updates available",
                    "run: softwareupdate -i -a",
                )
            } else {
                let mut value: String = dec_u64(n as u64);
                value.push_str(" update(s) available");
                Check::warn(
                    "software_updates",
                    "Software Updates",
                    value.as_str(),
                    "run: softwareupdate -i -a",
                )
            }
        },
        UpdateState::Unknown => Check::unknown(
            "software_updates",
            "Software Updates",
            "unable to determine",
        ),
    }
}

// ── Cached readings ─────────────────────────────────────────────────────────

/// How long the status of the disk is kept, in seconds.
pub const DISK_HEALTH_TTL_SECS: u64 = 3_600;

/// How long the list of updates is kept, in seconds.
pub const UPDATES_TTL_SECS: u64 = 86_400;

/// Where readings are kept: `own` where it is set, else below the user's cache
/// directory.
pub open spec fn cache_dir_of(
    own: Option<Seq<char>>,
    xdg: Option<Seq<char>>,
    home: Option<Seq<char>>,
) -> Seq<char> {
    match (own, xdg) {
        (Some(p), _) => p,
        (None, Some(p)) => paths::join_of_paths(paths::join_of_paths(p, "plx"@), "health"@),
        (None, None) => {
            let base = match home {
                Some(h) => h,
                None => "."@,
            };
            paths::join_of_paths(paths::join_of_paths(paths::join_of_paths(base, ".cache"@), "plx"@), "health"@)
        },
    }
}

/// Where readings are kept, from `PLX_HEALTH_CACHE`, `XDG_CACHE_HOME` and `HOME`.
pub fn cache_dir(own: Option<&str>, xdg: Option<&str>, home: Option<&str>) -> (r: String)
    ensures
        r@ == cache_dir_of(text::opt_str_view(own), text::opt_str_view(xdg), text::opt_str_view(home)),
{
    match own {
        Some(p) => p.to_owned(),
        None => match xdg {
            Some(p) => join_path(join_path(p, "plx").as_str(), "health"),
            None => {
                let base: &str = match home {
                    Some(h) => h,
                    None => ".",
                };
                let cache: String = join_path(base, ".cache");
                join_path(join_path(cache.as_str(), "plx").as_str(), "health")
            },
        },
    }
}

/// Whether a reading may still be used: its age is known and is below `ttl`.
pub fn is_fresh(age: Option<Span>, ttl_secs: u64) -> (r: bool)
    requires
        age matches Some(a) ==> a.wf(),
    ensures
        r == (age is Some && (age->0).total() < ttl_secs * 1_000_000_000),
{
    match age {
        Some(age) => age.secs < ttl_secs,
        None => false,
    }
}

// ── Laws ────────────────────────────────────────────────────────────────────

/// The temperature follows the reading: critical just above the critical limit, a
/// warning just above the limit to warn at and not above the critical one, fine just
/// above neither, and unknown just where there is no number.
pub proof fn law_temperature_follows_the_reading(reading: TempReading, thresholds: Thresholds)
    ensures
        ({
            let c = cpu_temp_of(reading, thresholds);
            &&& c.severity is Unknown <==> !(reading is Output && reading->degrees is Some)
            &&& reading is Output && reading->degrees is Some ==> {
                let m = reading->degrees->0;
                &&& c.severity is Critical <==> m.key > thresholds.cpu_temp_critical
                &&& c.severity is Warn <==> m.key > thresholds.cpu_temp_warn && m.key
                    <= thresholds.cpu_temp_critical
                &&& c.severity is Okay <==> m.key <= thresholds.cpu_temp_warn && m.key
                    <= thresholds.cpu_temp_critical
                &&& c.value == m.text@ + seq!['°', 'C']
            }
            &&& c.hint is Some <==> c.severity is Warn || c.severity is Critical
        }),
{
    reveal_strlit("°C");
    assert("°C"@ =~= seq!['°', 'C']);
}

/// A disk is fine just where its status is `verified`, in any case; any other status is
/// critical, and is shown as it is.
pub proof fn law_disk_health_follows_the_status(status: Option<Seq<char>>, asked: bool)
    ensures
        ({
            let c = disk_health_of(status, asked);
            &&& c.severity is Unknown <==> status is None
            &&& c.severity is Okay <==> (status matches Some(s) && text::lower_of(s) == "verified"@)
            &&& c.severity is Critical <==> (status matches Some(s) && text::lower_of(s) != "verified"@)
            &&& status matches Some(s) ==> c.value == s
            &&& c.hint is Some <==> c.severity is Critical
        }),
{
}

/// The status is what the first line that has one says of it, without the blanks around
/// it; lines before it do not matter.
pub proof fn law_status_is_on_the_first_line(before: Seq<Seq<char>>, line: Seq<char>, after: Seq<Seq<char>>)
    requires
        forall|i: int| 0 <= i < before.len() ==> smart_in_line(#[trigger] before[i]) is None,
        smart_in_line(line) is Some,
    ensures
        smart_in_lines(before + seq![line] + after) == smart_in_line(line),
    decreases before.len(),
{
    let all = before + seq![line] + after;
    if before.len() == 0 {
        assert(all[0] == line);
    } else {
        let more = before.skip(1);
        assert(all[0] == before[0]);
        assert(all.skip(1) =~= more + seq![line] + after);
        assert forall|i: int| 0 <= i < more.len() implies smart_in_line(#[trigger] more[i]) is None by {
            assert(more[i] == before[i + 1]);
        }
        law_status_is_on_the_first_line(more, line, after);
    }
}

/// A firewall is a warning just where its program says that it is disabled, fine just
/// where it says that it is enabled and not that it is disabled, and else unknown.
pub proof fn law_firewall_follows_its_state(output: Option<Seq<char>>)
    ensures
        ({
            let c = firewall_of(output);
            let off = output is Some && text::contains_of(text::lower_of(output->0), "disabled"@);
            let on = output is Some && text::contains_of(text::lower_of(output->0), "enabled"@);
            &&& c.severity is Warn <==> off
            &&& c.severity is Okay <==> on && !off
            &&& c.severity is Unknown <==> !on && !off
            &&& off ==> c.value == "Disabled"@
            &&& on && !off ==> c.value == "Enabled"@
            &&& c.hint is Some <==> off
        }),
{
}

/// Updates that wait are a warning, with their number where it is known; that there are
/// none is fine; and where it cannot be told it is unknown.
pub proof fn law_updates_follow_their_state(raw: Seq<char>, state: UpdateState)
    requires
        updates_of(raw, state),
    ensures
        ({
            let c = update_check(state);
            let none = text::contains_of(raw, "No new software available"@);
            let n = update_count(text::lines_of(raw));
            let some = text::contains_of(raw, "Software Update found the following"@);
            &&& c.severity is Okay <==> none
            &&& c.severity is Warn <==> !none && (n > 0 || some)
            &&& c.severity is Unknown <==> !none && n == 0 && !some
            &&& c.severity is Warn && n > 0 ==> text::starts_with_of(c.value, decimal::dec_digits(n))
            &&& c.hint is Some <==> c.severity is Warn
        }),
{
    let n = update_count(text::lines_of(raw));
    let c = update_check(state);
    if c.severity is Warn && n > 0 {
        let d = decimal::dec_digits(n);
        assert(c.value.subrange(0, d.len() as int) =~= d);
    }
}

/// Each line that begins with a label counts for one update, and no other line counts.
pub proof fn law_each_label_is_an_update(lines: Seq<Seq<char>>, line: Seq<char>)
    ensures
        update_count(Seq::empty()) == 0,
        update_count(lines.push(line)) == update_count(lines) + (if text::starts_with_of(
            text::trim_start_of(line),
            "* Label:"@,
        ) {
            1int
        } else {
            0
        }),
{
    assert(lines.push(line).drop_last() =~= lines);
}

proof fn lemma_number_len(a: Seq<char>, b: Seq<char>)
    requires
        forall|i: int| 0 <= i < a.len() ==> in_number(#[trigger] a[i]),
        b.len() == 0 || !in_number(b[0]),
    ensures
        number_len(a + b) == a.len(),
    decreases a.len(),
{
    let s = a + b;
    if a.len() == 0 {
        assert(s =~= b);
    } else {
        assert(s[0] == a[0]);
        let more = a.skip(1);
        assert(s.skip(1) =~= more + b);
        assert forall|i: int| 0 <= i < more.len() implies in_number(#[trigger] more[i]) by {
            assert(more[i] == a[i + 1]);
        }
        lemma_number_len(more, b);
    }
}

/// The number that a text starts with is its longest run of digits and points; what
/// follows is left, and where there is none there is no number.
pub proof fn law_leading_number_is_the_longest(number: Seq<char>, rest: Seq<char>)
    requires
        forall|i: int| 0 <= i < number.len() ==> in_number(#[trigger] number[i]),
        rest.len() == 0 || !in_number(rest[0]),
        number.len() > 0 || rest.len() == 0 || !text::is_white(rest[0]),
    ensures
        number.len() > 0 ==> leading_number_of(number + rest) == Some(number),
        number.len() == 0 ==> leading_number_of(rest) is None,
{
    let s = number + rest;
    if number.len() > 0 {
        assert(in_number(number[0]));
        assert(s[0] == number[0]);
        assert(!text::is_white(s[0]));
        lemma_number_len(number, rest);
        assert(s.take(number.len() as int) =~= number);
    }
}

/// A reading that was kept is good for less than its time to live; one whose age is not
/// known is not.
pub proof fn law_kept_readings_age(age: Option<Span>, ttl_secs: u64, r: bool)
    requires
        call_ensures(is_fresh, (age, ttl_secs), r),
    ensures
        r ==> age is Some && (age->0).total() < ttl_secs * 1_000_000_000,
        age is Some && (age->0).total() < ttl_secs * 1_000_000_000 ==> r,
{
}

/// Both streams are read, the output before the errors, with a line end between them.
pub proof fn law_both_streams_are_read(out: &str, err: &str, r: String)
    requires
        call_ensures(both_streams, (out, err), r),
    ensures
        text::starts_with_of(r@, out@),
        r@.skip(out@.len() as int) == seq!['\n'] + err@,
{
    reveal_strlit("\n");
    assert(r@.subrange(0, out@.len() as int) =~= out@);
    assert(r@.skip(out@.len() as int) =~= seq!['\n'] + err@);
}

} // verus!
