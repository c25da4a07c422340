//! The status bar: where the shell is, what it runs, and the time.

use vstd::prelude::*;
use crate::decimal;
use crate::decimal::{dec_u64_filled, push_i64};
use crate::span::Span;
use crate::host::osc::{OscEvent, OscEventView};
use crate::text;
use crate::text::{chars_of, joined, repeat_char, str_eq, string_of_range, strip_prefix_str};

verus! {

/// What `format!("{:.1}")` writes for a number of seconds, given as whole
/// seconds and nanoseconds.
pub uninterp spec fn tenths_text(secs: nat, nanos: nat) -> Seq<char>;

/// Seconds to the nearest tenth.
pub open spec fn nearest_tenth(secs: nat, nanos: nat) -> Seq<char> {
    let t = (secs * 1_000_000_000 + nanos + 50_000_000) / 100_000_000;
    decimal::dec_digits(t / 10) + "."@ + decimal::dec_digits(t % 10)
}

/// `format!` with `{:.1}` on `Duration::as_secs_f64`: the seconds to the nearest
/// tenth. Half-way between two tenths the binary fraction that stands for the
/// seconds decides, and which one it takes is left to the standard library.
#[verifier::external_body]
fn seconds_with_tenths(secs: u64, nanos: u32) -> (r: String)
    requires
        secs < 60,
        nanos < 1_000_000_000,
    ensures
        r@ == tenths_text(secs as nat, nanos as nat),
        nanos % 100_000_000 != 50_000_000 ==> r@ == nearest_tenth(secs as nat, nanos as nat),
{
    format!("{:.1}", std::time::Duration::new(secs, nanos).as_secs_f64())
}

/// A length of time for a reader: `350ms`, `1.2s`, `2m05s`. `tenths` is its
/// seconds with one decimal.
pub open spec fn span_text(d: Span, tenths: Seq<char>) -> Seq<char> {
    if d.secs == 0 {
        decimal::dec_digits((d.nanos / 1_000_000) as nat) + "ms"@
    } else if d.secs < 60 {
        tenths + "s"@
    } else {
        decimal::dec_digits((d.secs / 60) as nat) + "m"@ + decimal::dec_filled((d.secs % 60) as nat, 2, '0') + "s"@
    }
}

/// The seconds of a span of less than a minute, with one decimal.
pub open spec fn tenths_of(d: Span) -> Seq<char> {
    if 0 < d.secs < 60 {
        tenths_text(d.secs as nat, d.nanos as nat)
    } else {
        Seq::empty()
    }
}

/// A length of time for a reader, from its seconds with one decimal.
pub fn fmt_span(d: Span, tenths: &str) -> (r: String)
    ensures
        r@ == span_text(d, tenths@),
{
    if d.secs == 0 {
        let mut out: String = crate::decimal::dec_u64((d.nanos / 1_000_000) as u64);
        out.push_str("ms");
        out
    } else if d.secs < 60 {
        joined(tenths, "s")
    } else {
        let mut out: String = crate::decimal::dec_u64(d.secs / 60);
        out.push_str("m");
        out.push_str(dec_u64_filled(d.secs % 60, 2, '0').as_str());
        out.push_str("s");
        out
    }
}

/// A length of time for a reader.
pub fn fmt_dur(d: Span) -> (r: String)
    requires
        d.wf(),
    ensures
        r@ == span_text(d, tenths_of(d)),
        0 < d.secs < 60 && d.nanos % 100_000_000 != 50_000_000 ==> r@ == nearest_tenth(
            d.secs as nat,
            d.nanos as nat,
        ) + "s"@,
{
    if 0 < d.secs && d.secs < 60 {
        let tenths: String = seconds_with_tenths(d.secs, d.nanos);
        fmt_span(d, tenths.as_str())
    } else {
        let none: String = String::new();
        fmt_span(d, none.as_str())
    }
}

// ── Command state ───────────────────────────────────────────────────────────

/// A space and a length of time, where there is one.
pub open spec fn spaced(d: Option<Span>) -> Seq<char> {
    match d {
        Some(d) => " "@ + span_text(d, tenths_of(d)),
        None => Seq::empty(),
    }
}

/// What the bar says of the command: running, how it ended, or nothing yet.
pub open spec fn status_text(running: bool, last_exit: Option<i32>, d: Option<Span>) -> Seq<char> {
    if running {
        "running"@ + spaced(d)
    } else {
        match last_exit {
            Some(code) => if code == 0 {
                "ok"@ + spaced(d)
            } else {
                "exit "@ + decimal::dec_int(code as int) + spaced(d)
            },
            None => "idle"@,
        }
    }
}

fn push_span(out: &mut String, d: Option<Span>)
    requires
        d matches Some(d) ==> d.wf(),
    ensures
        final(out)@ == old(out)@ + spaced(d),
{
    match d {
        Some(d) => {
            out.push_str(" ");
            out.push_str(fmt_dur(d).as_str());
            proof {
                assert(out@ =~= old(out)@ + spaced(Some(d)));
            }
        },
        None => {
            proof {
                assert(out@ =~= old(out)@ + spaced(None));
            }
        },
    }
}

/// What the bar says of the command.
pub fn cmd_status_text(running: bool, last_exit: Option<i32>, dur: Option<Span>) -> (r: String)
    requires
        dur matches Some(d) ==> d.wf(),
    ensures
        r@ == status_text(running, last_exit, dur),
{
    let mut out: String = String::new();
    if running {
        out.push_str("running");
        proof {
            assert(out@ =~= "running"@);
        }
        push_span(&mut out, dur);
        out
    } else {
        match last_exit {
            Some(code) => {
                if code == 0 {
                    out.push_str("ok");
                    proof {
                        assert(out@ =~= "ok"@);
                    }
                } else {
                    out.push_str("exit ");
                    push_i64(&mut out, code as i64);
                    proof {
                        assert(out@ =~= "exit "@ + decimal::dec_int(code as int));
                    }
                }
                push_span(&mut out, dur);
                out
            },
            None => "idle".to_owned(),
        }
    }
}

// ── The line ────────────────────────────────────────────────────────────────

/// `s` cut or filled with spaces to exactly `width` characters.
pub open spec fn fitted(s: Seq<char>, width: nat) -> Seq<char> {
    if s.len() >= width {
        s.take(width as int)
    } else {
        s + text::repeated(' ', (width - s.len()) as nat)
    }
}

/// The directory, and the state of the repository where there is one.
pub open spec fn place_text(cwd: Seq<char>, git: Seq<char>) -> Seq<char> {
    if git.len() == 0 {
        cwd
    } else {
        cwd + " "@ + git
    }
}

/// Hours, minutes and seconds of the day.
pub open spec fn clock_text(secs: nat) -> Seq<char> {
    decimal::dec_filled((secs / 3600) % 24, 2, '0') + ":"@ + decimal::dec_filled((secs / 60) % 60, 2, '0') + ":"@
        + decimal::dec_filled(secs % 60, 2, '0')
}

/// All that the bar has to say.
pub open spec fn bar_label(
    secs: nat,
    cwd: Seq<char>,
    git: Seq<char>,
    status: Seq<char>,
    host: Seq<char>,
    debug: Seq<char>,
) -> Seq<char> {
    " chevron host   "@ + place_text(cwd, git) + "   "@ + status + "   "@ + host + "   "@
        + clock_text(secs) + (if debug.len() == 0 {
        Seq::empty()
    } else {
        "   "@ + debug
    }) + " "@
}

fn fit(s: &str, width: usize) -> (r: String)
    ensures
        r@ == fitted(s@, width as nat),
{
    let v: Vec<char> = chars_of(s);
    let n: usize = v.len();
    if n >= width {
        proof {
            assert(v@.take(width as int) =~= v@.subrange(0, width as int));
        }
        string_of_range(&v, 0, width)
    } else {
        let mut out: String = s.to_owned();
        out.push_str(repeat_char(' ', width - n).as_str());
        out
    }
}

/// The bar's text, exactly `cols` characters wide.
pub fn bar_line(
    cols: u16,
    secs: u64,
    cwd: &str,
    git: &str,
    status: &str,
    host: &str,
    debug: &str,
) -> (r: String)
    ensures
        r@ == fitted(bar_label(secs as nat, cwd@, git@, status@, host@, debug@), cols as nat),
        r@.len() == cols,
{
    let mut place: String = cwd.to_owned();
    if !git.is_empty() {
        place.push_str(" ");
        place.push_str(git);
    }
    let mut clock: String = dec_u64_filled((secs / 3600) % 24, 2, '0');
    clock.push_str(":");
    clock.push_str(dec_u64_filled((secs / 60) % 60, 2, '0').as_str());
    clock.push_str(":");
    clock.push_str(dec_u64_filled(secs % 60, 2, '0').as_str());
    let mut extra: String = String::new();
    if !debug.is_empty() {
        extra = joined("   ", debug);
    }
    let mut label: String = joined(" chevron host   ", place.as_str());
    label.push_str("   ");
    label.push_str(status);
    label.push_str("   ");
    label.push_str(host);
    label.push_str("   ");
    label.push_str(clock.as_str());
    label.push_str(extra.as_str());
    label.push_str(" ");
    fit(label.as_str(), cols as usize)
}

// ── Paths and names ─────────────────────────────────────────────────────────

/// `path` with a leading `home` written as `~`, where it ends at a boundary.
pub open spec fn tilde_of(path: Seq<char>, home: Seq<char>) -> Seq<char> {
    if path == home {
        "~"@
    } else {
        match text::strip_prefix_of(path, home) {
            Some(rest) => if rest.len() > 0 && rest[0] == '/' {
                "~"@ + rest
            } else {
                path
            },
            None => path,
        }
    }
}

/// `path` with the home directory written as `~`.
pub fn tilde_with(path: &str, home: &str) -> (r: String)
    ensures
        r@ == tilde_of(path@, home@),
{
    if str_eq(path, home) {
        return "~".to_owned();
    }
    match strip_prefix_str(path, home) {
        Some(rest) => {
            let v: Vec<char> = chars_of(rest.as_str());
            if v.len() > 0 && v[0] == '/' {
                joined("~", rest.as_str())
            } else {
                path.to_owned()
            }
        },
        None => path.to_owned(),
    }
}

/// `path` as the bar shows it: a home that is unset or empty changes nothing.
pub open spec fn shown_path(path: Seq<char>, home: Option<Seq<char>>) -> Seq<char> {
    match home {
        Some(h) => if h.len() > 0 {
            tilde_of(path, h)
        } else {
            path
        },
        None => path,
    }
}

/// `path` as the bar shows it.
pub fn tilde(path: &str, home: Option<&str>) -> (r: String)
    ensures
        r@ == shown_path(path@, text::opt_str_view(home)),
{
    match home {
        Some(h) => if !h.is_empty() {
            tilde_with(path, h)
        } else {
            path.to_owned()
        },
        None => path.to_owned(),
    }
}

/// The host's name for the bar: the first of the two that is set, or `host`
/// where that one is empty or neither is set.
pub fn host_label(host: Option<String>, hostname: Option<String>) -> (r: String)
    ensures
        r@ == ({
            let named = match host {
                Some(h) => h@,
                None => match hostname {
                    Some(h) => h@,
                    None => Seq::empty(),
                },
            };
            if named.len() == 0 {
                "host"@
            } else {
                named
            }
        }),
{
    let named: String = match host {
        Some(h) => h,
        None => match hostname {
            Some(h) => h,
            None => String::new(),
        },
    };
    if named.as_str().is_empty() {
        "host".to_owned()
    } else {
        named
    }
}

/// The branch, with a star where the working tree has changes.
pub fn git_text(branch: &str, dirty: bool) -> (r: String)
    ensures
        r@ == if dirty {
            branch@ + "*"@
        } else {
            branch@
        },
{
    if dirty {
        joined(branch, "*")
    } else {
        branch.to_owned()
    }
}

// ── The bar ─────────────────────────────────────────────────────────────────

/// The state of the bar.
#[derive(Debug)]
pub struct Bar {
    pub cols: u16,
    pub host: String,
    pub cwd_real: String,
    pub cwd_disp: String,
    pub git: String,
    pub running: bool,
    pub last_exit: Option<i32>,
    pub cmd_start: Option<Span>,
    pub last_dur: Option<Span>,
    /// What the debug overlay shows.
    pub debug: String,
}

pub struct BarView {
    pub cols: u16,
    pub host: Seq<char>,
    pub cwd_real: Seq<char>,
    pub cwd_disp: Seq<char>,
    pub git: Seq<char>,
    pub running: bool,
    pub last_exit: Option<i32>,
    pub cmd_start: Option<Span>,
    pub last_dur: Option<Span>,
    pub debug: Seq<char>,
}

impl View for Bar {
    type V = BarView;

    open spec fn view(&self) -> BarView {
        BarView {
            cols: self.cols,
            host: self.host@,
            cwd_real: self.cwd_real@,
            cwd_disp: self.cwd_disp@,
            git: self.git@,
            running: self.running,
            last_exit: self.last_exit,
            cmd_start: self.cmd_start,
            last_dur: self.last_dur,
            debug: self.debug@,
        }
    }
}

/// What an event did to the bar.
#[derive(Debug, Clone, Copy, PartialEq, Eq, Structural)]
pub struct BarChange {
    /// The bar shows something else now.
    pub changed: bool,
    /// The state of the repository has to be read again.
    pub refresh_git: bool,
}

/// The time from `start` to `now`; none where `now` comes first.
pub open spec fn elapsed_of(start: Span, now: Span) -> Span {
    if now.total() < start.total() {
        Span { secs: 0, nanos: 0 }
    } else if now.nanos >= start.nanos {
        Span { secs: (now.secs - start.secs) as u64, nanos: (now.nanos - start.nanos) as u32 }
    } else {
        Span {
            secs: (now.secs - start.secs - 1) as u64,
            nanos: (now.nanos + 1_000_000_000 - start.nanos) as u32,
        }
    }
}

/// The time from `start` to `now`.
pub fn elapsed(start: Span, now: Span) -> (r: Span)
    requires
        start.wf(),
        now.wf(),
    ensures
        r == elapsed_of(start, now),
        r.wf(),
        now.total() >= start.total() ==> r.total() == now.total() - start.total(),
{
    if now.secs < start.secs || (now.secs == start.secs && now.nanos < start.nanos) {
        Span { secs: 0, nanos: 0 }
    } else if now.nanos >= start.nanos {
        Span { secs: now.secs - start.secs, nanos: now.nanos - start.nanos }
    } else {
        Span { secs: now.secs - start.secs - 1, nanos: now.nanos + 1_000_000_000 - start.nanos }
    }
}

pub open spec fn elapsed_since(start: Option<Span>, now: Span) -> Option<Span> {
    match start {
        Some(s) => Some(elapsed_of(s, now)),
        None => None,
    }
}

fn since(start: Option<Span>, now: Span) -> (r: Option<Span>)
    requires
        start matches Some(s) ==> s.wf(),
        now.wf(),
    ensures
        r == elapsed_since(start, now),
        r matches Some(d) ==> d.wf(),
{
    match start {
        Some(s) => Some(elapsed(s, now)),
        None => None,
    }
}

/// The bar after an event.
pub open spec fn bar_after(
    b: BarView,
    ev: OscEventView,
    now: Span,
    home: Option<Seq<char>>,
) -> BarView {
    match ev {
        OscEventView::OutputStart => BarView { running: true, cmd_start: Some(now), ..b },
        OscEventView::CmdEnd(code) => BarView {
            running: false,
            last_exit: code,
            last_dur: elapsed_since(b.cmd_start, now),
            cmd_start: None,
            ..b
        },
        OscEventView::Cwd(path) => if path == b.cwd_real {
            b
        } else {
            BarView { cwd_real: path, cwd_disp: shown_path(path, home), ..b }
        },
        OscEventView::PromptStart => b,
        OscEventView::CmdStart => b,
    }
}

/// What the event did: a command that starts only changes the bar; one that
/// ends, and a new directory, also ask for the repository.
pub open spec fn bar_change(b: BarView, ev: OscEventView) -> BarChange {
    match ev {
        OscEventView::OutputStart => BarChange { changed: true, refresh_git: false },
        OscEventView::CmdEnd(_) => BarChange { changed: true, refresh_git: true },
        OscEventView::Cwd(path) => BarChange {
            changed: path != b.cwd_real,
            refresh_git: path != b.cwd_real,
        },
        _ => BarChange { changed: false, refresh_git: false },
    }
}

/// The bytes that paint the bar on row one in reverse video, and leave the
/// cursor where it was. Nothing on a screen without columns.
pub open spec fn bar_paint(b: BarView, secs: nat, now: Span) -> Seq<char> {
    if b.cols == 0 {
        Seq::empty()
    } else {
        "\x1b7\x1b[1;1H\x1b[7m"@ + fitted(
            bar_label(
                secs,
                b.cwd_disp,
                b.git,
                status_text(b.running, b.last_exit, shown_dur(b, now)),
                b.host,
                b.debug,
            ),
            b.cols as nat,
        ) + "\x1b[0m\x1b8"@
    }
}

/// How long the command runs, or how long the last one ran.
pub open spec fn shown_dur(b: BarView, now: Span) -> Option<Span> {
    if b.running {
        elapsed_since(b.cmd_start, now)
    } else {
        b.last_dur
    }
}

impl Bar {
    /// The moments and lengths of time that the bar keeps are well formed.
    pub open spec fn wf(&self) -> bool {
        &&& self.cmd_start matches Some(s) ==> s.wf()
        &&& self.last_dur matches Some(d) ==> d.wf()
    }

    /// A bar for a shell in `cwd` that has run nothing yet.
    pub fn new(cols: u16, host: String, cwd: String, home: Option<&str>) -> (r: Self)
        ensures
            r.wf(),
            r@ == (BarView {
                cols,
                host: host@,
                cwd_real: cwd@,
                cwd_disp: shown_path(cwd@, text::opt_str_view(home)),
                git: Seq::empty(),
                running: false,
                last_exit: None,
                cmd_start: None,
                last_dur: None,
                debug: Seq::empty(),
            }),
    {
        let cwd_disp: String = tilde(cwd.as_str(), home);
        Bar {
            cols,
            host,
            cwd_real: cwd,
            cwd_disp,
            git: String::new(),
            running: false,
            last_exit: None,
            cmd_start: None,
            last_dur: None,
            debug: String::new(),
        }
    }

    /// Takes a new working directory; the same one changes nothing.
    pub fn set_cwd(&mut self, path: &String, home: Option<&str>) -> (r: bool)
        requires
            old(self).wf(),
        ensures
            final(self).wf(),
            r == (path@ != old(self)@.cwd_real),
            final(self)@ == if r {
                (BarView {
                    cwd_real: path@,
                    cwd_disp: shown_path(path@, text::opt_str_view(home)),
                    ..old(self)@
                })
            } else {
                old(self)@
            },
    {
        if str_eq(path.as_str(), self.cwd_real.as_str()) {
            return false;
        }
        self.cwd_disp = tilde(path.as_str(), home);
        self.cwd_real = path.clone();
        true
    }

    /// Takes an event.
    pub fn apply(&mut self, ev: &OscEvent, now: Span, home: Option<&str>) -> (r: BarChange)
        requires
            old(self).wf(),
            now.wf(),
        ensures
            final(self).wf(),
            final(self)@ == bar_after(old(self)@, ev@, now, text::opt_str_view(home)),
            r == bar_change(old(self)@, ev@),
    {
        match ev {
            OscEvent::OutputStart => {
                self.running = true;
                self.cmd_start = Some(now);
                BarChange { changed: true, refresh_git: false }
            },
            OscEvent::CmdEnd(code) => {
                self.running = false;
                self.last_exit = *code;
                self.last_dur = since(self.cmd_start, now);
                self.cmd_start = None;
                BarChange { changed: true, refresh_git: true }
            },
            OscEvent::Cwd(path) => {
                let moved: bool = self.set_cwd(path, home);
                BarChange { changed: moved, refresh_git: moved }
            },
            OscEvent::PromptStart => BarChange { changed: false, refresh_git: false },
            OscEvent::CmdStart => BarChange { changed: false, refresh_git: false },
        }
    }

    /// How long the command runs, or how long the last one ran.
    pub fn dur(&self, now: Span) -> (r: Option<Span>)
        requires
            self.wf(),
            now.wf(),
        ensures
            r == shown_dur(self@, now),
            r matches Some(d) ==> d.wf(),
    {
        if self.running {
            since(self.cmd_start, now)
        } else {
            self.last_dur
        }
    }

    /// The text that paints the bar. `secs` is the time of day, `now` the
    /// moment on the clock that the bar's events are timed by.
    pub fn paint(&self, secs: u64, now: Span) -> (r: String)
        requires
            self.wf(),
            now.wf(),
        ensures
            r@ == bar_paint(self@, secs as nat, now),
    {
        if self.cols == 0 {
            return String::new();
        }
        let status: String = cmd_status_text(self.running, self.last_exit, self.dur(now));
        let line: String = bar_line(
            self.cols,
            secs,
            self.cwd_disp.as_str(),
            self.git.as_str(),
            status.as_str(),
            self.host.as_str(),
            self.debug.as_str(),
        );
        let mut out: String = joined("\x1b7\x1b[1;1H\x1b[7m", line.as_str());
        out.push_str("\x1b[0m\x1b8");
        out
    }
}

// ── Laws ────────────────────────────────────────────────────────────────────

/// Once a command has ended the bar shows how long it ran: the time from the
/// start of its output to its end, whatever moment it is looked at.
pub proof fn law_bar_times_the_command(
    b: BarView,
    start: Span,
    end: Span,
    later: Span,
    code: Option<i32>,
    home: Option<Seq<char>>,
)
    ensures
        ({
            let running = bar_after(b, OscEventView::OutputStart, start, home);
            let done = bar_after(running, OscEventView::CmdEnd(code), end, home);
            &&& shown_dur(running, end) == Some(elapsed_of(start, end))
            &&& shown_dur(done, later) == Some(elapsed_of(start, end))
            &&& done.last_exit == code
            &&& !done.running
        }),
{
}

/// Reporting the same directory twice changes nothing the second time.
pub proof fn law_same_directory_changes_nothing(
    b: BarView,
    path: Seq<char>,
    now: Span,
    home: Option<Seq<char>>,
)
    ensures
        ({
            let once = bar_after(b, OscEventView::Cwd(path), now, home);
            &&& bar_after(once, OscEventView::Cwd(path), now, home) == once
            &&& bar_change(once, OscEventView::Cwd(path)) == (BarChange {
                changed: false,
                refresh_git: false,
            })
        }),
{
}

/// The clock is six digits in three pairs, which are the hours, the minutes and the
/// seconds of the time of day.
pub proof fn law_clock_tells_the_time(secs: nat)
    ensures
        ({
            let c = clock_text(secs);
            let h = decimal::digits_value(c.subrange(0, 2));
            let m = decimal::digits_value(c.subrange(3, 5));
            let s = decimal::digits_value(c.subrange(6, 8));
            &&& c.len() == 8 && c[2] == ':' && c[5] == ':'
            &&& h < 24 && m < 60 && s < 60
            &&& h * 3_600 + m * 60 + s == secs % 86_400
        }),
{
    reveal_strlit(":");
    let h = (secs / 3600) % 24;
    let m = (secs / 60) % 60;
    let s = secs % 60;
    lemma_two_digits(h);
    lemma_two_digits(m);
    lemma_two_digits(s);
    let c = clock_text(secs);
    assert(c.subrange(0, 2) =~= decimal::dec_filled(h, 2, '0'));
    assert(c.subrange(3, 5) =~= decimal::dec_filled(m, 2, '0'));
    assert(c.subrange(6, 8) =~= decimal::dec_filled(s, 2, '0'));
    let day = secs % 86_400;
    assert(secs == 86_400 * (secs / 86_400) + day);
    assert(h == day / 3600) by (nonlinear_arith)
        requires
            h == (secs / 3600) % 24,
            day == secs % 86_400,
    ;
    assert(m == (day / 60) % 60) by (nonlinear_arith)
        requires
            m == (secs / 60) % 60,
            day == secs % 86_400,
    ;
    assert(s == day % 60) by (nonlinear_arith)
        requires
            s == secs % 60,
            day == secs % 86_400,
    ;
    assert((day / 60) / 60 == day / 3600) by (nonlinear_arith);
}

proof fn lemma_two_digits(n: nat)
    requires
        n < 100,
    ensures
        decimal::dec_filled(n, 2, '0').len() == 2,
        decimal::digits_value(decimal::dec_filled(n, 2, '0')) == n,
{
    assert(decimal::pow10(2) == 100) by {
        reveal_with_fuel(decimal::pow10, 3);
    }
    decimal::lemma_dec_len(n, 2);
    decimal::lemma_zero_filled(n, 2);
}

/// The minutes and seconds of a longer span add up to its whole seconds, and the
/// milliseconds of a short one to its nanoseconds, but for less than one of them.
pub proof fn law_span_adds_up(d: Span, tenths: Seq<char>)
    requires
        d.wf(),
    ensures
        d.secs >= 60 ==> exists|m: nat, s: nat|
            #![trigger decimal::dec_digits(m), decimal::dec_filled(s, 2, '0')]
            s < 60 && m * 60 + s == d.secs && span_text(d, tenths) == decimal::dec_digits(m) + "m"@
                + decimal::dec_filled(s, 2, '0') + "s"@,
        d.secs == 0 ==> exists|ms: nat|
            #![trigger decimal::dec_digits(ms)]
            ms * 1_000_000 <= d.nanos < (ms + 1) * 1_000_000 && span_text(d, tenths)
                == decimal::dec_digits(ms) + "ms"@,
        0 < d.secs < 60 ==> span_text(d, tenths) == tenths + "s"@,
{
    if d.secs >= 60 {
        let m = (d.secs / 60) as nat;
        let s = (d.secs % 60) as nat;
        assert(s < 60 && m * 60 + s == d.secs);
        assert(span_text(d, tenths) == decimal::dec_digits(m) + "m"@ + decimal::dec_filled(s, 2, '0') + "s"@);
    } else if d.secs == 0 {
        let ms = (d.nanos / 1_000_000) as nat;
        assert(ms * 1_000_000 <= d.nanos < (ms + 1) * 1_000_000);
        assert(span_text(d, tenths) == decimal::dec_digits(ms) + "ms"@);
    }
}

/// What the bar says of the command begins with `running` just while one runs, with
/// `ok` just where the last one succeeded, with `exit` and the code just where it
/// failed, and is `idle` just where none has ended.
pub proof fn law_status_tells_the_outcome(running: bool, last_exit: Option<i32>, d: Option<Span>)
    ensures
        ({
            let said = status_text(running, last_exit, d);
            &&& text::starts_with_of(said, "running"@) <==> running
            &&& text::starts_with_of(said, "ok"@) <==> !running && last_exit == Some(0i32)
            &&& text::starts_with_of(said, "exit "@) <==> !running && last_exit is Some && last_exit
                != Some(0i32)
            &&& said == "idle"@ <==> !running && last_exit is None
            &&& !running && last_exit is Some && last_exit != Some(0i32) ==> text::occurs_at(
                said,
                decimal::dec_int(last_exit->0 as int),
                5,
            )
            &&& (running || last_exit is Some) && d is Some ==> said.subrange(
                said.len() - spaced(d).len(),
                said.len() as int,
            ) == seq![' '] + span_text(d->0, tenths_of(d->0))
        }),
{
    reveal_strlit("running");
    reveal_strlit("ok");
    reveal_strlit("exit ");
    reveal_strlit("idle");
    reveal_strlit(" ");
    let said = status_text(running, last_exit, d);
    if running {
        assert(said.subrange(0, 7) =~= "running"@);
        assert(said[0] == 'r');
    } else {
        match last_exit {
            Some(code) => {
                if code == 0 {
                    assert(said.subrange(0, 2) =~= "ok"@);
                    assert(said[0] == 'o');
                } else {
                    assert(said.subrange(0, 5) =~= "exit "@);
                    assert(said[0] == 'e');
                    let n = decimal::dec_int(code as int);
                    assert(said.subrange(5, 5 + n.len() as int) =~= n);
                }
            },
            None => {
                assert(said[0] == 'i');
            },
        }
    }
    assert("running"@[0] == 'r' && "ok"@[0] == 'o' && "exit "@[0] == 'e' && "idle"@[0] == 'i');
    assert(text::starts_with_of(said, "running"@) ==> said[0] == said.subrange(0, 7)[0]);
    assert(text::starts_with_of(said, "ok"@) ==> said[0] == said.subrange(0, 2)[0]);
    assert(text::starts_with_of(said, "exit "@) ==> said[0] == said.subrange(0, 5)[0]);
    if (running || last_exit is Some) && d is Some {
        let end = said.subrange(said.len() - spaced(d).len(), said.len() as int);
        assert(end =~= spaced(d));
        assert(spaced(d) =~= seq![' '] + span_text(d->0, tenths_of(d->0)));
    }
}

/// The bar is as wide as it is asked to be: it begins as its text does, as far as that
/// goes or fits, and the rest is blank.
pub proof fn law_bar_text_fits(s: Seq<char>, width: nat)
    ensures
        fitted(s, width).len() == width,
        forall|i: int|
            0 <= i < width ==> #[trigger] fitted(s, width)[i] == (if i < s.len() {
                s[i]
            } else {
                ' '
            }),
{
}

/// The bar shows, in this order, where the shell is with the state of the repository
/// behind it, what the command does, the host and the clock.
pub proof fn law_bar_label_order(
    secs: nat,
    cwd: Seq<char>,
    git: Seq<char>,
    status: Seq<char>,
    host: Seq<char>,
    debug: Seq<char>,
)
    ensures
        ({
            let said = bar_label(secs, cwd, git, status, host, debug);
            let place = if git.len() == 0 {
                cwd
            } else {
                cwd.push(' ') + git
            };
            let p = 16 + place.len() as int + 3;
            let q = p + status.len() as int + 3;
            let r = q + host.len() as int + 3;
            &&& text::occurs_at(said, place, 16)
            &&& text::occurs_at(said, status, p)
            &&& text::occurs_at(said, host, q)
            &&& text::occurs_at(said, clock_text(secs), r)
            &&& debug.len() > 0 ==> text::occurs_at(said, debug, r + 8 + 3)
        }),
{
    reveal_strlit(" chevron host   ");
    reveal_strlit("   ");
    reveal_strlit(" ");
    let said = bar_label(secs, cwd, git, status, host, debug);
    let place = place_text(cwd, git);
    assert(git.len() > 0 ==> place =~= cwd.push(' ') + git);
    law_clock_tells_the_time(secs);
    let clock = clock_text(secs);
    let p = 16 + place.len() as int + 3;
    let q = p + status.len() as int + 3;
    let r = q + host.len() as int + 3;
    assert(said.subrange(16, 16 + place.len() as int) =~= place);
    assert(said.subrange(p, p + status.len()) =~= status);
    assert(said.subrange(q, q + host.len()) =~= host);
    assert(said.subrange(r, r + clock.len()) =~= clock);
    if debug.len() > 0 {
        assert(said.subrange(r + 11, r + 11 + debug.len()) =~= debug);
    }
}

/// A path at or below the home directory begins with a tilde in its place, and every
/// other path is shown as it is.
pub proof fn law_tilde_stands_for_home(home: Seq<char>, below: Seq<char>, path: Seq<char>)
    ensures
        tilde_of(home, home) == seq!['~'],
        below.len() > 0 && below[0] == '/' ==> tilde_of(home + below, home) == seq!['~'] + below,
        path != home && !text::starts_with_of(path, home.push('/')) ==> tilde_of(path, home) == path,
{
    reveal_strlit("~");
    assert("~"@ =~= seq!['~']);
    if below.len() > 0 && below[0] == '/' {
        let p = home + below;
        assert(p.subrange(0, home.len() as int) =~= home);
        assert(p.skip(home.len() as int) =~= below);
        assert(p != home) by {
            assert(p.len() > home.len());
        }
    }
    if path != home && tilde_of(path, home) != path {
        let rest = path.skip(home.len() as int);
        assert(rest[0] == '/');
        assert(path.subrange(0, home.len() as int) == home);
        assert(path[home.len() as int] == '/');
        assert(path.subrange(0, home.len() as int + 1) =~= home.push('/'));
    }
}

/// The time between two moments is their difference, and none where the second comes
/// first.
pub proof fn law_elapsed_is_the_difference(start: Span, now: Span)
    requires
        start.wf(),
        now.wf(),
    ensures
        now.total() >= start.total() ==> elapsed_of(start, now).total() == now.total() - start.total(),
        now.total() < start.total() ==> elapsed_of(start, now).total() == 0,
{
}

/// A command runs from the start of its output to its end; no other marker starts,
/// ends or times one, and only a new directory moves the bar.
pub proof fn law_markers_and_the_bar(b: BarView, ev: OscEventView, now: Span, home: Option<Seq<char>>)
    ensures
        ({
            let a = bar_after(b, ev, now, home);
            &&& a.running == (ev is OutputStart || (b.running && !(ev is CmdEnd)))
            &&& !(ev is CmdEnd) ==> a.last_exit == b.last_exit && a.last_dur == b.last_dur
            &&& ev matches OscEventView::CmdEnd(code) ==> a.last_exit == code
            &&& ev matches OscEventView::Cwd(path) ==> a.cwd_real == path
            &&& !(ev is Cwd) ==> a.cwd_real == b.cwd_real && a.cwd_disp == b.cwd_disp
            &&& a.git == b.git && a.host == b.host && a.cols == b.cols && a.debug == b.debug
            &&& bar_change(b, ev).changed <==> a.running != b.running || ev is OutputStart || ev is CmdEnd
                || a.cwd_real != b.cwd_real
            &&& bar_change(b, ev).refresh_git <==> ev is CmdEnd || a.cwd_real != b.cwd_real
        }),
{
}

/// The first of the two names that is set is shown, though it is empty nothing else is
/// asked, and a host without a name is called so.
pub proof fn law_host_has_a_name(host: Option<String>, hostname: Option<String>, r: String)
    requires
        call_ensures(host_label, (host, hostname), r),
    ensures
        r@.len() > 0,
        host matches Some(h) ==> (h@.len() > 0 ==> r@ == h@),
        host is None && hostname is Some ==> ((hostname->0)@.len() > 0 ==> r@ == (hostname->0)@),
        r@ == "host"@ || (host is Some && r@ == (host->0)@) || (host is None && hostname is Some && r@ == (
        hostname->0)@),
{
    reveal_strlit("host");
}

/// A branch is shown by its name, and a star behind it tells that there are changes.
pub proof fn law_star_tells_of_changes(branch: &str, clean: String, dirty: String)
    requires
        call_ensures(git_text, (branch, false), clean),
        call_ensures(git_text, (branch, true), dirty),
    ensures
        clean@ == branch@,
        dirty@ == clean@.push('*'),
{
    reveal_strlit("*");
    assert("*"@ =~= seq!['*']);
}

/// The bar shortens a path by the home directory, and shows it as it is where there is
/// no home directory.
pub proof fn law_bar_shortens_home(home: Seq<char>, below: Seq<char>, path: Seq<char>)
    requires
        home.len() > 0,
        below.len() > 0,
        below[0] == '/',
    ensures
        shown_path(path, None) == path,
        shown_path(path, Some(Seq::empty())) == path,
        shown_path(home, Some(home)) == seq!['~'],
        shown_path(home + below, Some(home)) == seq!['~'] + below,
{
    law_tilde_stands_for_home(home, below, path);
}

/// Seconds are shown to the nearest tenth, a half upwards: no more than half a tenth
/// lies between what is shown and what has passed.
pub proof fn law_tenths_are_the_nearest(secs: nat, nanos: nat)
    ensures
        exists|whole: nat, tenth: nat|
            #![trigger decimal::dec_digits(whole), decimal::dec_digits(tenth)]
            {
                let passed = secs * 1_000_000_000 + nanos;
                let told = (whole * 10 + tenth) * 100_000_000;
                &&& tenth < 10
                &&& told - 50_000_000 <= passed < told + 50_000_000
                &&& nearest_tenth(secs, nanos) == decimal::dec_digits(whole) + "."@ + decimal::dec_digits(tenth)
            },
{
    let t = (secs * 1_000_000_000 + nanos + 50_000_000) / 100_000_000;
    let whole = (t / 10) as nat;
    let tenth = (t % 10) as nat;
    assert(whole * 10 + tenth == t);
    assert(nearest_tenth(secs, nanos) == decimal::dec_digits(whole) + "."@ + decimal::dec_digits(tenth));
}

} // verus!
