//! The host as one state: what the child's output, a new size and the passing of
//! time do to it. The model of the child's screen is kept outside; it is fed piece
//! by piece, and handed back at each marker.

use vstd::prelude::*;
use crate::decimal;
use crate::host::bar;
use crate::host::bar::{Bar, BarChange, BarView};
use crate::host::osc;
use crate::host::osc::{scan_alt_screen, OscEvent, OscEventView, OscScanner, OscState, ScannerView};
use crate::host::screen::Screen;
use crate::host::session;
use crate::host::session::{debug_text, feed_cuts, Mode, Paint, Session};
use crate::host::transient;
use crate::host::transient::{drive_transient, Rewrite, Transient};
use crate::span::Span;
use crate::text;

verus! {

/// What the host keeps while it runs.
#[derive(Debug)]
pub struct Host {
    pub session: Session,
    pub bar: Bar,
    /// Follows a prompt to its collapse; used when composing.
    pub transient: Transient,
    pub scanner: OscScanner,
    /// The row on which the prompt started; used when not composing.
    pub prompt_row: usize,
    /// Whether the bar shows where the cursor is.
    pub debug: bool,
}

/// The value of what the host keeps.
pub struct HostView {
    pub session: Session,
    pub bar: BarView,
    pub transient: Transient,
    pub scanner: ScannerView,
    pub prompt_row: usize,
    pub debug: bool,
}

impl View for Host {
    type V = HostView;

    open spec fn view(&self) -> HostView {
        HostView {
            session: self.session,
            bar: self.bar@,
            transient: self.transient,
            scanner: self.scanner@,
            prompt_row: self.prompt_row,
            debug: self.debug,
        }
    }
}

/// A chunk of the child's output on its way through the host.
#[derive(Debug)]
pub struct Chunk {
    /// The markers in it, each with the offset just past it.
    pub events: Vec<(usize, OscEvent)>,
    /// Where the pieces end that the model of the screen is fed: one at each marker,
    /// and the last at the end of the chunk.
    pub cuts: Vec<usize>,
    /// How many markers have been taken.
    pub at: usize,
    /// Whether a full-screen program has the terminal after the chunk.
    pub now_alt: bool,
    /// Whether a marker has changed the bar.
    pub changed: bool,
    /// Whether a marker asks for the repository to be looked at.
    pub refresh_git: bool,
}

/// The markers of a chunk, in order.
pub open spec fn markers_of(h: HostView, chunk: Seq<u8>) -> Seq<(int, OscEventView)> {
    osc::events_in(h.scanner, chunk, 0)
}

/// The host after a marker, with the model of the screen fed up to it.
pub open spec fn after_marker(h: HostView, screen: Screen, ev: OscEvent, now: Span, home: Option<Seq<char>>) -> HostView {
    HostView {
        bar: bar::bar_after(h.bar, ev@, now, home),
        transient: if h.session.mode.compose {
            transient::after_event(h.transient, screen, ev)
        } else {
            h.transient
        },
        prompt_row: if !h.session.mode.compose && ev is PromptStart {
            screen.cursor_row
        } else {
            h.prompt_row
        },
        ..h
    }
}

/// What the model of the screen is given at a marker: nothing but where composing.
pub open spec fn rewrite_text(h: HostView, screen: Screen, ev: OscEvent) -> Seq<char> {
    if h.session.mode.compose {
        transient::event_text(h.transient, screen, ev)
    } else {
        Seq::empty()
    }
}

/// What the bar shows of the cursor, where it does.
pub open spec fn cursor_text(h: HostView, row: nat, col: nat, grid_alt: bool) -> Seq<char> {
    "g"@ + decimal::dec_digits(row) + ":"@ + decimal::dec_digits(col) + " p@"@ + decimal::dec_digits(
        h.prompt_row as nat,
    ) + if grid_alt {
        " ALT"@
    } else {
        ""@
    }
}

impl Host {
    /// What the parts keep is well formed.
    pub open spec fn wf(&self) -> bool {
        self.bar.wf() && self.transient.wf()
    }

    /// A host for a shell in `cwd` that has written nothing yet.
    pub fn new(mode: Mode, cols: u16, rows: u16, label: String, cwd: String, home: Option<&str>, debug: bool) -> (r:
        Host)
        ensures
            r.wf(),
            r.session == (Session { mode, rows, alt: false }),
            r.bar@.cols == cols,
            r.bar@.host == label@,
            r.bar@.cwd_real == cwd@,
            r.bar@.cwd_disp == bar::shown_path(cwd@, text::opt_str_view(home)),
            r.bar@.git.len() == 0,
            r.bar@.debug.len() == 0,
            !r.bar@.running,
            r.bar@.last_exit is None,
            r.bar@.cmd_start is None,
            r.bar@.last_dur is None,
            r.transient == transient::at_rest(),
            r.scanner@ == (ScannerView { state: OscState::Ground, buf: Seq::empty() }),
            r.prompt_row == 0,
            r.debug == debug,
    {
        Host {
            session: Session { mode, rows, alt: false },
            bar: Bar::new(cols, label, cwd, home),
            transient: Transient::default(),
            scanner: OscScanner::default(),
            prompt_row: 0,
            debug,
        }
    }

    /// The terminal has a new size.
    pub fn on_resize(&mut self, cols: u16, rows: u16) -> (r: Vec<Paint>)
        requires
            old(self).wf(),
        ensures
            final(self).wf(),
            final(self)@ == (HostView {
                session: Session { rows, ..old(self).session },
                bar: BarView { cols, ..old(self).bar@ },
                ..old(self)@
            }),
            r@ == session::resize_paints(old(self).session, rows),
    {
        self.bar.cols = cols;
        self.session.on_resize(rows)
    }

    /// A chunk has come. Without a bar nothing is read in it.
    pub fn begin(&mut self, chunk: &[u8]) -> (r: Chunk)
        requires
            old(self).wf(),
        ensures
            final(self).wf(),
            r.at == 0,
            !r.changed,
            !r.refresh_git,
            r.cuts@ == session::cuts_of(
                r.events@.map_values(|e: (usize, OscEvent)| e.0),
                chunk@.len() as usize,
            ),
            old(self).session.mode.status ==> {
                &&& final(self)@ == (HostView {
                    scanner: osc::after_chunk(old(self).scanner@, chunk@),
                    ..old(self)@
                })
                &&& osc::event_views(r.events@) == markers_of(old(self)@, chunk@)
                &&& r.now_alt == osc::alt_after(chunk@, old(self).session.alt)
            },
            !old(self).session.mode.status ==> {
                &&& final(self)@ == old(self)@
                &&& r.events@.len() == 0
                &&& r.now_alt == old(self).session.alt
            },
    {
        let mut events: Vec<(usize, OscEvent)> = Vec::new();
        let mut now_alt: bool = self.session.alt;
        if self.session.mode.status {
            now_alt = scan_alt_screen(chunk, self.session.alt);
            self.scanner.feed(chunk, &mut events);
            proof {
                assert(osc::event_views(events@) =~= markers_of(old(self)@, chunk@));
            }
        }
        let cuts: Vec<usize> = feed_cuts(&events, chunk.len());
        Chunk { events, cuts, at: 0, now_alt, changed: false, refresh_git: false }
    }

    /// The model of the screen has been fed up to the next marker: the marker is
    /// taken, and what the model is given before it is fed on is handed back.
    pub fn step(&mut self, c: &mut Chunk, screen: &Screen, now: Span, home: Option<&str>) -> (r: Rewrite)
        requires
            old(self).wf(),
            screen.is_even(),
            now.wf(),
            old(c).at < old(c).events@.len(),
        ensures
            final(self).wf(),
            final(self)@ == after_marker(
                old(self)@,
                *screen,
                old(c).events@[old(c).at as int].1,
                now,
                text::opt_str_view(home),
            ),
            r.clear_history == (old(self).session.mode.compose
                && old(c).events@[old(c).at as int].1 is PromptStart),
            r.bytes@ == vstd::utf8::encode_utf8(
                rewrite_text(old(self)@, *screen, old(c).events@[old(c).at as int].1),
            ),
            final(c).events == old(c).events,
            final(c).cuts == old(c).cuts,
            final(c).now_alt == old(c).now_alt,
            final(c).at == old(c).at + 1,
            ({
                let change = bar::bar_change(old(self).bar@, old(c).events@[old(c).at as int].1@);
                &&& final(c).changed == (old(c).changed || change.changed)
                &&& final(c).refresh_git == (old(c).refresh_git || change.refresh_git)
            }),
    {
        let all: usize = c.events.len();
        proof {
            assert(c.at < all);
        }
        let next: usize = c.at + 1;
        let ev: &OscEvent = &c.events[c.at].1;
        let rewrite: Rewrite = if self.session.mode.compose {
            drive_transient(&mut self.transient, screen, ev)
        } else {
            if let OscEvent::PromptStart = ev {
                self.prompt_row = screen.cursor_row;
            }
            proof {
                assert(vstd::utf8::encode_utf8(Seq::<char>::empty()) =~= Seq::<u8>::empty());
            }
            Rewrite { clear_history: false, bytes: Vec::new() }
        };
        let change: BarChange = self.bar.apply(ev, now, home);
        c.changed = c.changed || change.changed;
        c.refresh_git = c.refresh_git || change.refresh_git;
        c.at = next;
        rewrite
    }

    /// The model of the screen has been fed to the end of the chunk, where its cursor
    /// is at `row` and `col`: what is painted.
    pub fn finish(&mut self, c: &Chunk, row: usize, col: usize, grid_alt: bool) -> (r: Vec<Paint>)
        requires
            old(self).wf(),
        ensures
            final(self).wf(),
            final(self)@ == (HostView {
                session: Session {
                    alt: if old(self).session.mode.status {
                        c.now_alt
                    } else {
                        old(self).session.alt
                    },
                    ..old(self).session
                },
                bar: BarView {
                    debug: if old(self).session.mode.status && old(self).debug {
                        cursor_text(old(self)@, row as nat, col as nat, grid_alt)
                    } else {
                        old(self).bar@.debug
                    },
                    ..old(self).bar@
                },
                ..old(self)@
            }),
            r@ == session::chunk_paints(old(self).session, c.now_alt, c.changed),
    {
        if self.session.mode.status && self.debug {
            self.bar.debug = debug_text(row, col, self.prompt_row, grid_alt);
        }
        self.session.on_chunk(c.now_alt, c.changed)
    }

    /// A round is over, `since_draw_ms` after the bar was last painted.
    pub fn on_tick(&self, since_draw_ms: u64) -> (r: Vec<Paint>)
        ensures
            r@ == (if self.session.mode.status && !self.session.alt && since_draw_ms
                >= session::STATUS_REDRAW_MS {
                seq![Paint::DrawBar]
            } else {
                Seq::empty()
            }),
    {
        self.session.on_tick(since_draw_ms)
    }
}

// ── Laws ────────────────────────────────────────────────────────────────────

/// The host after the first `n` markers of a chunk; `screens` is what the model of the
/// screen showed at each, and `nows` when it was taken.
pub open spec fn after_markers(
    h: HostView,
    evs: Seq<OscEvent>,
    screens: Seq<Screen>,
    nows: Seq<Span>,
    home: Option<Seq<char>>,
    n: nat,
) -> HostView
    decreases n,
{
    if n == 0 {
        h
    } else {
        after_marker(
            after_markers(h, evs, screens, nows, home, (n - 1) as nat),
            screens[n - 1],
            evs[n - 1],
            nows[n - 1],
            home,
        )
    }
}

/// Whether one of the first `n` markers asks for the repository to be looked at.
pub open spec fn asks_git(
    h: HostView,
    evs: Seq<OscEvent>,
    screens: Seq<Screen>,
    nows: Seq<Span>,
    home: Option<Seq<char>>,
    n: nat,
) -> bool
    decreases n,
{
    n > 0 && {
        ||| asks_git(h, evs, screens, nows, home, (n - 1) as nat)
        ||| bar::bar_change(
            after_markers(h, evs, screens, nows, home, (n - 1) as nat).bar,
            evs[n - 1]@,
        ).refresh_git
    }
}

/// The bar tells what the markers told: what is on the screen does not touch it, and
/// the markers leave alone who has the terminal and what the scanner has read.
pub proof fn law_markers_alone_change_the_bar(
    h: HostView,
    evs: Seq<OscEvent>,
    screens: Seq<Screen>,
    others: Seq<Screen>,
    nows: Seq<Span>,
    home: Option<Seq<char>>,
    n: nat,
)
    ensures
        after_markers(h, evs, screens, nows, home, n).bar == after_markers(h, evs, others, nows, home, n).bar,
        after_markers(h, evs, screens, nows, home, n).session == h.session,
        after_markers(h, evs, screens, nows, home, n).scanner == h.scanner,
    decreases n,
{
    if n > 0 {
        law_markers_alone_change_the_bar(h, evs, screens, others, nows, home, (n - 1) as nat);
    }
}

/// The repository on the bar is that of the directory on the bar: where no marker asks
/// for it to be looked at, the directory has not changed, and neither has what the bar
/// says of the repository.
pub proof fn law_new_directory_asks_for_its_repository(
    h: HostView,
    evs: Seq<OscEvent>,
    screens: Seq<Screen>,
    nows: Seq<Span>,
    home: Option<Seq<char>>,
    n: nat,
)
    ensures
        !asks_git(h, evs, screens, nows, home, n) ==> after_markers(
            h,
            evs,
            screens,
            nows,
            home,
            n,
        ).bar.cwd_real == h.bar.cwd_real,
        after_markers(h, evs, screens, nows, home, n).bar.git == h.bar.git,
    decreases n,
{
    if n > 0 {
        law_new_directory_asks_for_its_repository(h, evs, screens, nows, home, (n - 1) as nat);
    }
}

/// Without composing, markers ask nothing of the model of the screen.
pub proof fn law_only_composing_rewrites(h: HostView, screen: Screen, ev: OscEvent, now: Span, home: Option<Seq<char>>)
    requires
        !h.session.mode.compose,
    ensures
        rewrite_text(h, screen, ev).len() == 0,
        after_marker(h, screen, ev, now, home).transient == h.transient,
{
}

} // verus!
