//! What the host decides while it pumps bytes between the terminal and the
//! child: who owns which rows, what is forwarded, and when the bar is painted.

use vstd::prelude::*;
use crate::decimal;
use crate::decimal::push_u64;
use crate::host::bar;
use crate::host::bar::Bar;
use crate::host::osc::OscEvent;
use crate::span::Span;
use crate::host::screen;
use crate::host::screen::Screen;
use crate::text;
use crate::text::{joined, str_eq};

verus! {

// ── The command line ────────────────────────────────────────────────────────

/// What the command line asks for.
#[derive(Debug)]
pub enum HostCall {
    Help,
    /// Run what `rest` names, with a status bar where `status`.
    Run { status: bool, rest: Vec<String> },
}

/// Whether the first argument is `s`.
pub open spec fn first_is(args: Seq<Seq<char>>, s: Seq<char>) -> bool {
    args.len() > 0 && args[0] == s
}

fn first_eq(args: &Vec<String>, s: &str) -> (r: bool)
    ensures
        r == first_is(text::views(args@), s@),
{
    args.len() > 0 && str_eq(args[0].as_str(), s)
}

/// A copy of the arguments from `from` on.
fn args_from(args: &Vec<String>, from: usize) -> (r: Vec<String>)
    requires
        from <= args@.len(),
    ensures
        text::views(r@) == text::views(args@).skip(from as int),
{
    let mut out: Vec<String> = Vec::new();
    let mut i: usize = from;
    while i < args.len()
        invariant
            from <= i <= args@.len(),
            text::views(out@) == text::views(args@).subrange(from as int, i as int),
        decreases args@.len() - i,
    {
        let ghost before = text::views(out@);
        out.push(args[i].clone());
        proof {
            assert(text::views(out@) =~= before.push(args@[i as int]@));
            assert(text::views(out@) =~= text::views(args@).subrange(from as int, i as int + 1));
        }
        i += 1;
    }
    proof {
        assert(text::views(args@).subrange(from as int, i as int) =~= text::views(args@).skip(from as int));
    }
    out
}

/// Reads the command line: `--help`, or an optional `--status` and a command.
pub fn parse_host_args(args: &Vec<String>) -> (r: HostCall)
    ensures
        match r {
            HostCall::Help => first_is(text::views(args@), "--help"@),
            HostCall::Run { status, rest } => {
                &&& !first_is(text::views(args@), "--help"@)
                &&& status == first_is(text::views(args@), "--status"@)
                &&& text::views(rest@) == if status {
                    text::views(args@).skip(1)
                } else {
                    text::views(args@)
                }
            },
        },
{
    if first_eq(args, "--help") {
        return HostCall::Help;
    }
    proof {
        assert(text::views(args@).skip(0) =~= text::views(args@));
    }
    if first_eq(args, "--status") {
        HostCall::Run { status: true, rest: args_from(args, 1) }
    } else {
        HostCall::Run { status: false, rest: args_from(args, 0) }
    }
}

/// The command to run: what follows an optional `--`, else the user's shell,
/// else `/bin/sh`.
pub open spec fn command_of(args: Seq<Seq<char>>, shell: Option<Seq<char>>) -> Seq<Seq<char>> {
    let rest = if first_is(args, "--"@) {
        args.skip(1)
    } else {
        args
    };
    if rest.len() > 0 {
        rest
    } else {
        match shell {
            Some(s) => seq![s],
            None => seq!["/bin/sh"@],
        }
    }
}

/// The command to run; never empty.
pub fn resolve_command(args: &Vec<String>, shell: Option<String>) -> (r: Vec<String>)
    ensures
        text::views(r@) == command_of(text::views(args@), text::opt_view(shell)),
        r@.len() > 0,
{
    proof {
        assert(text::views(args@).skip(0) =~= text::views(args@));
    }
    let rest: Vec<String> = if first_eq(args, "--") {
        args_from(args, 1)
    } else {
        args_from(args, 0)
    };
    proof {
        assert(text::views(rest@).len() == rest@.len());
    }
    if rest.len() > 0 {
        return rest;
    }
    let name: String = match shell {
        Some(s) => s,
        None => "/bin/sh".to_owned(),
    };
    let ghost n = name@;
    let mut out: Vec<String> = Vec::new();
    out.push(name);
    proof {
        assert(text::views(out@) =~= seq![n]);
    }
    out
}

/// The exit code of a child: its own, or 128 and the signal that killed it.
pub fn exit_code(code: Option<i32>, signal: Option<i32>) -> (r: i32)
    requires
        signal matches Some(s) ==> s <= i32::MAX - 128,
    ensures
        r == match code {
            Some(c) => c as int,
            None => match signal {
                Some(s) => 128 + s,
                None => 1,
            },
        },
{
    match code {
        Some(c) => c,
        None => match signal {
            Some(s) => 128 + s,
            None => 1,
        },
    }
}

/// The search path with the host's own directory in front.
pub fn path_with(dir: &str, path: &str) -> (r: String)
    ensures
        r@ == dir@ + ":"@ + path@,
{
    let mut out: String = joined(dir, ":");
    out.push_str(path);
    out
}

// ── Modes ───────────────────────────────────────────────────────────────────

/// Whether there is a bar, and whether the host paints the child's screen
/// itself.
#[derive(Debug, Clone, Copy, PartialEq, Eq, Structural)]
pub struct Mode {
    pub status: bool,
    pub compose: bool,
}

/// The mode: a bar needs a terminal of known size, and composing needs a bar.
pub fn choose_mode(requested: bool, tty: bool, size_known: bool, composite: bool) -> (r: Mode)
    ensures
        r.status == (requested && tty && size_known),
        r.compose == (r.status && composite),
{
    let status: bool = requested && tty && size_known;
    Mode { status, compose: status && composite }
}

/// The rows that the child gets: all, or all but the bar's when composing.
pub fn child_rows(compose: bool, rows: u16) -> (r: u16)
    ensures
        r == if compose && rows > 1 {
            rows - 1
        } else {
            rows as int
        },
{
    if compose && rows > 1 {
        rows - 1
    } else {
        rows
    }
}

/// The rows of the model of the child's screen; at least one when composing.
pub fn grid_rows(compose: bool, rows: u16) -> (r: u16)
    ensures
        r == if !compose {
            rows as int
        } else if rows > 1 {
            rows - 1
        } else {
            1
        },
{
    if !compose {
        rows
    } else if rows > 1 {
        rows - 1
    } else {
        1
    }
}

/// How long to wait for input, in milliseconds: for ever without a bar.
pub fn poll_timeout(status: bool) -> (r: i32)
    ensures
        r == if status {
            250int
        } else {
            -1
        },
{
    if status {
        250
    } else {
        -1
    }
}

/// The time between two paintings of the bar, in milliseconds.
pub const STATUS_REDRAW_MS: u64 = 500;

// ── Escape sequences ────────────────────────────────────────────────────────

/// What reserves row one by a scroll region below it. The cursor, which the region
/// would move, is saved and restored. Nothing where there is no room.
pub open spec fn region_text(rows: u16) -> Seq<char> {
    if rows < 2 {
        Seq::empty()
    } else {
        "\x1b7\x1b[2;"@ + decimal::dec_digits(rows as nat) + "r\x1b8"@
    }
}

/// Reserves row one by a scroll region below it.
pub fn scroll_region_seq(rows: u16) -> (r: String)
    ensures
        r@ == region_text(rows),
{
    if rows < 2 {
        return String::new();
    }
    let mut out: String = "\x1b7\x1b[2;".to_owned();
    push_u64(&mut out, rows as u64);
    out.push_str("r\x1b8");
    out
}

/// What gives the whole screen back, and leaves the cursor where it was.
pub open spec fn whole_screen_text() -> Seq<char> {
    "\x1b7\x1b[r\x1b8"@
}

/// Gives the whole screen back.
pub fn reset_region_seq() -> (r: &'static str)
    ensures
        r@ == whole_screen_text(),
{
    "\x1b7\x1b[r\x1b8"
}

/// What leaves the terminal as a shell expects it: the whole screen, row one
/// cleared, and the cursor at the bottom.
pub open spec fn teardown_text(rows: u16) -> Seq<char> {
    "\x1b[r\x1b[1;1H\x1b[2K\x1b["@ + decimal::dec_digits(rows as nat) + ";1H"@
}

/// What leaves the terminal as a shell expects it.
pub fn teardown_seq(rows: u16) -> (r: String)
    ensures
        r@ == teardown_text(rows),
{
    let mut out: String = "\x1b[r\x1b[1;1H\x1b[2K\x1b[".to_owned();
    push_u64(&mut out, rows as u64);
    out.push_str(";1H");
    out
}

/// One composed frame, swapped in at once: the bar, the rows that have changed
/// below it, and the cursor where the child has it.
pub open spec fn frame_text(
    b: bar::BarView,
    screen: Screen,
    lines: Seq<usize>,
    secs: nat,
    now: Span,
) -> Seq<char> {
    "\x1b[?2026h"@ + bar::bar_paint(b, secs, now) + screen::lines_text(screen, lines, 2) + "\x1b["@
        + decimal::dec_digits((screen.cursor_row + 2) as nat) + ";"@ + decimal::dec_digits(
        (screen.cursor_col + 1) as nat,
    ) + "H\x1b[?2026l"@
}

/// One composed frame.
pub fn compose_frame(
    b: &Bar,
    screen: &Screen,
    damaged: Option<Vec<usize>>,
    secs: u64,
    now: Span,
) -> (r: String)
    requires
        b.wf(),
        now.wf(),
        screen.wf(),
        screen.rows@.len() + 2 <= usize::MAX,
        screen.cursor_col < usize::MAX,
        damaged matches Some(lines) ==> forall|i: int|
            0 <= i < lines@.len() ==> (#[trigger] lines@[i]) < screen.rows@.len(),
    ensures
        r@ == frame_text(
            b@,
            *screen,
            match damaged {
                Some(lines) => lines@,
                None => Seq::new(screen.rows@.len(), |i: int| i as usize),
            },
            secs as nat,
            now,
        ),
{
    let mut out: String = joined("\x1b[?2026h", b.paint(secs, now).as_str());
    out.push_str(screen.render_damage(damaged, 2).as_str());
    out.push_str("\x1b[");
    push_u64(&mut out, (screen.cursor_row + 2) as u64);
    out.push_str(";");
    push_u64(&mut out, (screen.cursor_col + 1) as u64);
    out.push_str("H\x1b[?2026l");
    out
}

/// What the debug overlay shows: the cursor, the row of the prompt, and the
/// alternate screen.
pub fn debug_text(row: usize, col: usize, prompt_row: usize, alt: bool) -> (r: String)
    ensures
        r@ == "g"@ + decimal::dec_digits(row as nat) + ":"@ + decimal::dec_digits(col as nat) + " p@"@ + decimal::dec_digits(
            prompt_row as nat,
        ) + if alt {
            " ALT"@
        } else {
            ""@
        },
{
    let mut out: String = "g".to_owned();
    push_u64(&mut out, row as u64);
    out.push_str(":");
    push_u64(&mut out, col as u64);
    out.push_str(" p@");
    push_u64(&mut out, prompt_row as u64);
    out.push_str(
        if alt {
            " ALT"
        } else {
            ""
        },
    );
    out
}

// ── The loop ────────────────────────────────────────────────────────────────

/// What to do with the terminal, in order.
#[derive(Debug, Clone, Copy, PartialEq, Eq, Structural)]
pub enum Paint {
    /// Write the child's bytes as they came.
    Forward,
    /// Paint a composed frame.
    Frame,
    /// Reserve row one on a screen of so many rows.
    SetRegion(u16),
    /// Give the whole screen back.
    ResetRegion,
    /// Paint the bar.
    DrawBar,
}

/// What the loop keeps.
#[derive(Debug, Clone, Copy, PartialEq, Eq, Structural)]
pub struct Session {
    pub mode: Mode,
    pub rows: u16,
    /// A full-screen program has the terminal.
    pub alt: bool,
}

/// What follows a change of size.
pub open spec fn resize_paints(s: Session, rows: u16) -> Seq<Paint> {
    if s.mode.compose && !s.alt {
        seq![Paint::Frame]
    } else if s.mode.status && !s.alt {
        seq![Paint::SetRegion(rows), Paint::DrawBar]
    } else {
        Seq::empty()
    }
}

/// What follows a chunk of the child's output, after which the alternate screen
/// is `now_alt`, and which changed the bar where `changed`.
///
/// Composing, the child's bytes reach the terminal only while a full-screen
/// program has it. Else they are forwarded, and the bar is painted over them
/// where it changed or comes back.
pub open spec fn chunk_paints(s: Session, now_alt: bool, changed: bool) -> Seq<Paint> {
    if !s.mode.status {
        seq![Paint::Forward]
    } else if s.mode.compose {
        if now_alt {
            seq![Paint::Forward]
        } else if s.alt {
            seq![Paint::Forward, Paint::Frame]
        } else {
            seq![Paint::Frame]
        }
    } else if now_alt && !s.alt {
        seq![Paint::Forward, Paint::ResetRegion]
    } else if !now_alt && s.alt {
        if changed {
            seq![Paint::Forward, Paint::SetRegion(s.rows), Paint::DrawBar, Paint::DrawBar]
        } else {
            seq![Paint::Forward, Paint::SetRegion(s.rows), Paint::DrawBar]
        }
    } else if changed && !now_alt {
        seq![Paint::Forward, Paint::DrawBar]
    } else {
        seq![Paint::Forward]
    }
}

impl Session {
    /// The terminal has a new size.
    pub fn on_resize(&mut self, rows: u16) -> (r: Vec<Paint>)
        ensures
            *final(self) == (Session { rows, ..*old(self) }),
            r@ == resize_paints(*old(self), rows),
    {
        let mut out: Vec<Paint> = Vec::new();
        self.rows = rows;
        if self.mode.compose && !self.alt {
            out.push(Paint::Frame);
        } else if self.mode.status && !self.alt {
            out.push(Paint::SetRegion(rows));
            out.push(Paint::DrawBar);
        }
        proof {
            assert(out@ =~= resize_paints(*old(self), rows));
        }
        out
    }

    /// The child has written a chunk, and the bar has taken its events.
    pub fn on_chunk(&mut self, now_alt: bool, changed: bool) -> (r: Vec<Paint>)
        ensures
            *final(self) == (Session {
                alt: if old(self).mode.status {
                    now_alt
                } else {
                    old(self).alt
                },
                ..*old(self)
            }),
            r@ == chunk_paints(*old(self), now_alt, changed),
    {
        let mut out: Vec<Paint> = Vec::new();
        if !self.mode.status {
            out.push(Paint::Forward);
        } else if self.mode.compose {
            let was_alt: bool = self.alt;
            self.alt = now_alt;
            if now_alt || was_alt {
                out.push(Paint::Forward);
                if was_alt && !now_alt {
                    out.push(Paint::Frame);
                }
            } else {
                out.push(Paint::Frame);
            }
        } else {
            out.push(Paint::Forward);
            if now_alt != self.alt {
                self.alt = now_alt;
                if self.alt {
                    out.push(Paint::ResetRegion);
                } else {
                    out.push(Paint::SetRegion(self.rows));
                    out.push(Paint::DrawBar);
                }
            }
            if changed && !self.alt {
                out.push(Paint::DrawBar);
            }
        }
        proof {
            assert(out@ =~= chunk_paints(*old(self), now_alt, changed));
        }
        out
    }
}

impl Session {
    /// A round is over, `since_draw_ms` after the bar was last painted: its clock, and
    /// the time of a command that runs, are kept fresh.
    pub fn on_tick(&self, since_draw_ms: u64) -> (r: Vec<Paint>)
        ensures
            r@ == (if self.mode.status && !self.alt && since_draw_ms >= STATUS_REDRAW_MS {
                seq![Paint::DrawBar]
            } else {
                Seq::empty()
            }),
    {
        let mut out: Vec<Paint> = Vec::new();
        if self.mode.status && !self.alt && since_draw_ms >= STATUS_REDRAW_MS {
            out.push(Paint::DrawBar);
        }
        proof {
            assert(out@ =~= (if self.mode.status && !self.alt && since_draw_ms >= STATUS_REDRAW_MS {
                seq![Paint::DrawBar]
            } else {
                Seq::empty()
            }));
        }
        out
    }
}

/// Where the pieces of a chunk end: one at each marker, and the last at the end of the
/// chunk.
pub open spec fn cuts_of(offsets: Seq<usize>, len: usize) -> Seq<usize> {
    Seq::new(
        offsets.len(),
        |i: int|
            if offsets[i] < len {
                offsets[i]
            } else {
                len
            },
    ).push(len)
}

/// Where the model of the screen is fed up to before each event is taken, so that the
/// cursor stands where it stood at the marker, and at last up to the end.
pub fn feed_cuts(events: &Vec<(usize, OscEvent)>, len: usize) -> (r: Vec<usize>)
    ensures
        r@ == cuts_of(events@.map_values(|e: (usize, OscEvent)| e.0), len),
{
    let ghost offsets = events@.map_values(|e: (usize, OscEvent)| e.0);
    let mut out: Vec<usize> = Vec::new();
    let mut i: usize = 0;
    while i < events.len()
        invariant
            offsets == events@.map_values(|e: (usize, OscEvent)| e.0),
            i <= events@.len(),
            out@ == cuts_of(offsets, len).take(i as int),
        decreases events@.len() - i,
    {
        let at: usize = events[i].0;
        out.push(
            if at < len {
                at
            } else {
                len
            },
        );
        proof {
            assert(out@ =~= cuts_of(offsets, len).take(i as int + 1));
        }
        i += 1;
    }
    out.push(len);
    proof {
        assert(out@ =~= cuts_of(offsets, len));
    }
    out
}

/// A chunk in pieces that end at the cuts.
pub open spec fn pieces_of(chunk: Seq<u8>, cuts: Seq<usize>, n: nat) -> Seq<u8>
    decreases n,
{
    if n == 0 {
        Seq::empty()
    } else {
        pieces_of(chunk, cuts, (n - 1) as nat) + chunk.subrange(
            if n == 1 {
                0
            } else {
                cuts[n - 2] as int
            },
            cuts[n - 1] as int,
        )
    }
}

// ── Laws ────────────────────────────────────────────────────────────────────

/// Fed piece by piece, the model of the screen gets every byte of a chunk once, in
/// order, where the markers come in order.
pub proof fn law_every_byte_is_fed_once(chunk: Seq<u8>, offsets: Seq<usize>, n: nat)
    requires
        chunk.len() <= usize::MAX,
        forall|i: int, j: int| 0 <= i <= j < offsets.len() ==> #[trigger] offsets[i] <= #[trigger] offsets[j],
        0 < n <= offsets.len() + 1,
    ensures
        pieces_of(chunk, cuts_of(offsets, chunk.len() as usize), n) == chunk.take(
            cuts_of(offsets, chunk.len() as usize)[n - 1] as int,
        ),
        n == offsets.len() + 1 ==> pieces_of(chunk, cuts_of(offsets, chunk.len() as usize), n) == chunk,
    decreases n,
{
    let cuts = cuts_of(offsets, chunk.len() as usize);
    if n > 1 {
        law_every_byte_is_fed_once(chunk, offsets, (n - 1) as nat);
        if n - 1 < offsets.len() {
            assert(offsets[n - 2] <= offsets[n - 1]);
        }
        assert(cuts[n - 2] <= cuts[n - 1]);
        assert(chunk.take(cuts[n - 2] as int) + chunk.subrange(cuts[n - 2] as int, cuts[n - 1] as int)
            =~= chunk.take(cuts[n - 1] as int));
    } else {
        assert(pieces_of(chunk, cuts, 0) =~= Seq::empty());
        assert(pieces_of(chunk, cuts, 1) =~= chunk.take(cuts[0] as int));
    }
    if n == offsets.len() + 1 {
        assert(chunk.take(chunk.len() as int) =~= chunk);
    }
}

/// While a full-screen program has the terminal, nothing but its own bytes is
/// painted: no bar, no frame, no reserved row.
pub proof fn law_full_screen_programs_own_the_screen(s: Session, changed: bool, i: int)
    requires
        0 <= i < chunk_paints(s, true, changed).len(),
        s.mode.status,
    ensures
        chunk_paints(s, true, changed)[i] == Paint::Forward || chunk_paints(s, true, changed)[i]
            == Paint::ResetRegion,
{
}

/// Composing, the child's bytes never reach the terminal while no full-screen
/// program runs, so that it cannot write to the bar's row.
pub proof fn law_composed_output_is_not_forwarded(s: Session, changed: bool)
    requires
        s.mode.status,
        s.mode.compose,
        !s.alt,
    ensures
        !chunk_paints(s, false, changed).contains(Paint::Forward),
        chunk_paints(s, false, changed) == seq![Paint::Frame],
{
}

/// Without a bar the host is a wire: every chunk is forwarded, and nothing
/// else.
pub proof fn law_without_bar_a_wire(s: Session, now_alt: bool, changed: bool)
    requires
        !s.mode.status,
    ensures
        chunk_paints(s, now_alt, changed) == seq![Paint::Forward],
{
}

/// Whether row one is reserved after some paintings.
pub open spec fn reserved_after(had: bool, paints: Seq<Paint>) -> bool
    decreases paints.len(),
{
    if paints.len() == 0 {
        had
    } else {
        match paints.last() {
            Paint::SetRegion(_) => true,
            Paint::ResetRegion => false,
            _ => reserved_after(had, paints.drop_last()),
        }
    }
}

/// With a bar that is painted over the child's output, row one is reserved just while
/// no full-screen program has the terminal, whatever the child writes; and the bar is
/// painted whenever it comes back or has changed, and only then.
pub proof fn law_row_one_is_reserved_for_the_bar(s: Session, now_alt: bool, changed: bool)
    requires
        s.mode.status,
        !s.mode.compose,
    ensures
        reserved_after(!s.alt, chunk_paints(s, now_alt, changed)) == !now_alt,
        chunk_paints(s, now_alt, changed)[0] == Paint::Forward,
        chunk_paints(s, now_alt, changed).contains(Paint::DrawBar) <==> !now_alt && (s.alt || changed),
{
    let p = chunk_paints(s, now_alt, changed);
    reveal_with_fuel(reserved_after, 5);
    if !now_alt && s.alt {
        assert(p[2] == Paint::DrawBar);
        if changed {
            assert(p.drop_last().drop_last() =~= seq![Paint::Forward, Paint::SetRegion(s.rows)]);
        } else {
            assert(p.drop_last() =~= seq![Paint::Forward, Paint::SetRegion(s.rows)]);
        }
    } else if changed && !now_alt {
        assert(p[1] == Paint::DrawBar);
        assert(p.drop_last() =~= seq![Paint::Forward]);
        assert(p.drop_last().drop_last().len() == 0);
    } else if now_alt && !s.alt {
    } else {
        assert(p.drop_last().len() == 0);
    }
}

/// A change of size is painted at once: the region follows the new size, or the whole
/// frame is composed anew; nothing is painted over a full-screen program or without a
/// bar.
pub proof fn law_resize_is_painted(s: Session, rows: u16)
    requires
        s.mode.compose ==> s.mode.status,
    ensures
        s.alt || !s.mode.status ==> resize_paints(s, rows).len() == 0,
        !s.alt && s.mode.compose ==> resize_paints(s, rows) == seq![Paint::Frame],
        !s.alt && s.mode.status && !s.mode.compose ==> resize_paints(s, rows) == seq![
            Paint::SetRegion(rows),
            Paint::DrawBar,
        ],
{
}

/// A composed screen is painted by whoever has it: the child itself while a full-screen
/// program runs, and the host when it ends and from then on.
pub proof fn law_composed_screen_has_one_painter(s: Session, now_alt: bool, changed: bool)
    requires
        s.mode.status,
        s.mode.compose,
    ensures
        chunk_paints(s, now_alt, changed).contains(Paint::Frame) <==> !now_alt,
        chunk_paints(s, now_alt, changed).contains(Paint::Forward) <==> now_alt || s.alt,
        !now_alt ==> chunk_paints(s, now_alt, changed).last() == Paint::Frame,
{
    let p = chunk_paints(s, now_alt, changed);
    if now_alt {
        assert(p[0] == Paint::Forward);
    } else if s.alt {
        assert(p[0] == Paint::Forward && p[1] == Paint::Frame);
    } else {
        assert(p[0] == Paint::Frame);
    }
}

/// Everything behind the first `--` is the command, which may then begin with dashes;
/// without one, all the arguments are; and with none of them the shell is run, or
/// `/bin/sh` where none is known.
pub proof fn law_command_to_run(args: Seq<Seq<char>>, shell: Option<Seq<char>>)
    ensures
        args.len() > 0 ==> command_of(seq!["--"@] + args, shell) == args,
        args.len() > 0 && args[0] != "--"@ ==> command_of(args, shell) == args,
        shell matches Some(s) ==> command_of(Seq::empty(), shell) == seq![s] && command_of(
            seq!["--"@],
            shell,
        ) == seq![s],
        shell is None ==> command_of(Seq::empty(), shell) == seq!["/bin/sh"@],
{
    assert((seq!["--"@] + args).skip(1) =~= args);
    assert(seq!["--"@].skip(1) =~= Seq::<Seq<char>>::empty());
}

/// A child that ended by itself gives its own code, whatever else is known of it; one
/// that a signal killed gives the signal's number above 128; and where neither is known
/// it counts as failed.
pub proof fn law_exit_code_tells_how_it_ended(code: i32, signal: i32, any: Option<i32>, a: i32, b: i32, c: i32)
    requires
        call_ensures(exit_code, (Some(code), any), a),
        call_ensures(exit_code, (None::<i32>, Some(signal)), b),
        call_ensures(exit_code, (None::<i32>, None::<i32>), c),
    ensures
        a == code,
        b - 128 == signal,
        c != 0,
{
}

/// There is a bar only where one was asked for and there is a terminal of known size to
/// show it on, and the host composes the screen only where there is a bar; what is asked
/// for and possible is done.
pub proof fn law_bar_needs_a_terminal(requested: bool, tty: bool, size_known: bool, composite: bool, m: Mode)
    requires
        call_ensures(choose_mode, (requested, tty, size_known, composite), m),
    ensures
        m.status ==> requested && tty && size_known,
        m.compose ==> m.status && composite,
        requested && tty && size_known ==> m.status,
        m.status && composite ==> m.compose,
{
}

/// The child and the bar share the rows when the host composes: the child gets all but
/// one, and its model has as many. Else it gets all of them. Neither is ever left
/// without a row that there was.
pub proof fn law_rows_are_shared(rows: u16, c: u16, g: u16, all: u16, model: u16)
    requires
        call_ensures(child_rows, (true, rows), c),
        call_ensures(grid_rows, (true, rows), g),
        call_ensures(child_rows, (false, rows), all),
        call_ensures(grid_rows, (false, rows), model),
    ensures
        rows >= 2 ==> c + 1 == rows && g == c,
        rows == 1 ==> c == 1 && g == 1,
        g >= 1,
        all == rows,
        model == rows,
{
}

/// With a bar the host wakes up at least twice in the time between two paintings of it;
/// without one it waits for something to happen.
pub proof fn law_bar_is_painted_in_time(with: i32, without: i32)
    requires
        call_ensures(poll_timeout, (true,), with),
        call_ensures(poll_timeout, (false,), without),
    ensures
        0 < 2 * with <= STATUS_REDRAW_MS,
        without < 0,
{
}

/// Commands are looked for in the host's own directory first, and then where they were
/// before.
pub proof fn law_own_directory_comes_first(dir: &str, path: &str, r: String)
    requires
        call_ensures(path_with, (dir, path), r),
        forall|i: int| 0 <= i < dir@.len() ==> #[trigger] dir@[i] != ':',
    ensures
        text::split_once_of(r@, ':') == Some((dir@, path@)),
{
    reveal_strlit(":");
    assert(":"@ =~= seq![':']);
    text::lemma_split_once_at(dir@, ':', path@);
}

/// The clock in the bar is at most half a second old when the bar may be painted, and
/// nothing is painted over a full-screen program or where there is no bar.
pub proof fn law_bar_is_kept_fresh(s: &Session, since_draw_ms: u64, r: Vec<Paint>)
    requires
        call_ensures(Session::on_tick, (s, since_draw_ms), r),
    ensures
        s.alt || !s.mode.status ==> r@.len() == 0,
        since_draw_ms < 500 ==> r@.len() == 0,
        !s.alt && s.mode.status && since_draw_ms >= 500 ==> r@ == seq![Paint::DrawBar],
{
}

} // verus!
