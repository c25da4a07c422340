use alacritty_terminal::event::{Event, EventListener};
use alacritty_terminal::grid::Dimensions;
use alacritty_terminal::index::{Column, Line};
use alacritty_terminal::term::cell::Flags;
use alacritty_terminal::term::{Config, Term, TermMode};
use alacritty_terminal::vte::ansi::{Color, Processor};
use chevron::host::bar::{
    bar_line, cmd_status_text, fmt_dur, git_text, host_label, tilde_with, Bar,
};
use chevron::host::osc::{last_index_of, scan_alt_screen, OscEvent, OscScanner, OscState};
use chevron::host::pump::Host;
use chevron::host::screen::{Cell, CellColor, Screen};
use chevron::host::session::{
    child_rows, choose_mode, compose_frame, debug_text, exit_code, feed_cuts, grid_rows, parse_host_args,
    path_with, poll_timeout, reset_region_seq, resolve_command, scroll_region_seq, teardown_seq, HostCall, Paint,
    Session,
};
use chevron::host::transient::{collapse_seq, drive_transient, recolor_seq, Transient};
use chevron::span::Span;
use chevron::wire::{InputStep, Polled, Ready, Task, Wire};
use std::num::NonZero;

fn millis(ms: u64) -> Span {
    Span { secs: ms / 1000, nanos: (ms % 1000) as u32 * 1_000_000 }
}

fn scanner() -> OscScanner {
    OscScanner { state: OscState::Ground, buf: Vec::new() }
}

fn vt(rows: u16, cols: u16) -> vt100::Parser {
    vt100::Parser::new(NonZero::new(rows).unwrap(), NonZero::new(cols).unwrap(), 0)
}

struct Quiet;

impl EventListener for Quiet {
    fn send_event(&self, _event: Event) {}
}

struct Size {
    cols: usize,
    lines: usize,
}

impl Dimensions for Size {
    fn columns(&self) -> usize {
        self.cols
    }
    fn screen_lines(&self) -> usize {
        self.lines
    }
    fn total_lines(&self) -> usize {
        self.lines
    }
}

fn color(c: Color) -> CellColor {
    match c {
        Color::Spec(rgb) => CellColor::Spec(rgb.r, rgb.g, rgb.b),
        Color::Indexed(i) => CellColor::Indexed(i),
        Color::Named(n) => CellColor::Named(n as u16),
    }
}

struct Grid {
    term: Term<Quiet>,
    parser: Processor,
}

impl Grid {
    fn new(cols: u16, rows: u16) -> Self {
        let size = Size { cols: cols as usize, lines: rows as usize };
        Grid { term: Term::new(Config::default(), &size, Quiet), parser: Processor::new() }
    }

    fn feed(&mut self, bytes: &[u8]) {
        self.parser.advance(&mut self.term, bytes);
    }

    fn cursor(&self) -> (usize, usize) {
        let p = self.term.grid().cursor.point;
        (usize::try_from(p.line.0.max(0)).unwrap_or(0), p.column.0)
    }

    fn alt_screen(&self) -> bool {
        self.term.mode().contains(TermMode::ALT_SCREEN)
    }

    fn screen(&self) -> Screen {
        let grid = self.term.grid();
        let rows = (0..grid.screen_lines())
            .map(|line| {
                (0..grid.columns())
                    .map(|col| {
                        let cell = &grid[Line(line as i32)][Column(col)];
                        let f = cell.flags;
                        Cell {
                            c: cell.c,
                            fg: color(cell.fg),
                            bg: color(cell.bg),
                            bold: f.contains(Flags::BOLD),
                            dim: f.contains(Flags::DIM),
                            italic: f.contains(Flags::ITALIC),
                            underline: f.contains(Flags::UNDERLINE),
                            inverse: f.contains(Flags::INVERSE),
                            spacer: f.contains(Flags::WIDE_CHAR_SPACER),
                            wraps: f.contains(Flags::WRAPLINE),
                            style: f.bits(),
                        }
                    })
                    .collect()
            })
            .collect();
        let (cursor_row, cursor_col) = self.cursor();
        Screen {
            cols: grid.columns(),
            rows,
            cursor_row,
            cursor_col,
            history: grid.total_lines().saturating_sub(grid.screen_lines()),
        }
    }

    fn render(&self, top: u16) -> Vec<u8> {
        self.screen().render_damage(None, top).into_bytes()
    }
}


#[test]
fn resolve_command_strips_leading_double_dash() {
    let args = vec!["--".to_string(), "vim".to_string(), "a.txt".to_string()];
    assert_eq!(resolve_command(&args, None), vec!["vim", "a.txt"]);
}

#[test]
fn resolve_command_without_dashes_runs_args_verbatim() {
    let args = vec!["htop".to_string()];
    assert_eq!(resolve_command(&args, None), vec!["htop"]);
}

#[test]
fn grid_tracks_cursor_and_alt_screen() {
    let mut g = Grid::new(80, 24);
    g.feed(b"hello");
    assert_eq!(g.cursor(), (0, 5), "5 printed cells -> col 5, row 0");
    g.feed(b"\r\n");
    assert_eq!(g.cursor(), (1, 0), "CR+LF -> row 1, col 0");
    assert!(!g.alt_screen());
    g.feed(b"\x1b[?1049h");
    assert!(g.alt_screen(), "enter alternate screen");
    g.feed(b"\x1b[?1049l");
    assert!(!g.alt_screen(), "leave alternate screen");
}

#[test]
fn render_positions_rows_and_reproduces_text() {
    let mut g = Grid::new(20, 3);
    g.feed(b"hi");
    let out = g.render(5); // content starts at physical row 5
    let s = String::from_utf8_lossy(&out);
    assert!(s.contains("\x1b[5;1H"), "row 0 -> physical 5: {s:?}");
    assert!(s.contains("\x1b[7;1H"), "row 2 -> physical 7 (5+2)");
    assert!(s.contains("hi"), "reproduces the text");
}

#[test]
fn render_emits_sgr_for_a_colored_cell() {
    let mut g = Grid::new(20, 1);
    g.feed(b"\x1b[31mR"); // red foreground R
    let out = g.render(1);
    let s = String::from_utf8_lossy(&out);
    assert!(s.contains(";31"), "red fg SGR (;31) present: {s:?}");
    assert!(s.contains('R'), "reproduces the glyph");
    assert!(
        s.ends_with("\x1b[0m\x1b[K"),
        "row resets attrs + erases tail"
    );
}

#[test]
fn render_round_trips_through_vt100() {
    let mut g = Grid::new(40, 4);
    g.feed(b"hello\r\n\x1b[31mred\x1b[0m world");
    let out = g.render(1); // grid row k -> physical row k+1 -> vt100 row k

    let mut parser = vt(4, 40);
    parser.process(&out);
    let screen = parser.screen();
    let text = screen.contents();
    assert!(text.contains("hello"), "row 0 text round-trips: {text:?}");
    assert!(text.contains("red"));
    assert!(text.contains("world"));
    let cell = screen.cell(1, 0).expect("cell (1,0)");
    assert_eq!(cell.contents(), "r");
    assert_eq!(
        cell.fgcolor(),
        vt100::Color::Idx(1),
        "red foreground round-trips through the renderer"
    );
}

#[test]
fn render_keeps_default_cells_default() {
    let mut g = Grid::new(20, 1);
    g.feed(b"plain text");
    let out = g.render(1);
    let mut parser = vt(1, 20);
    parser.process(&out);
    let cell = parser.screen().cell(0, 0).expect("cell (0,0)");
    assert_eq!(cell.fgcolor(), vt100::Color::Default, "default fg");
    assert_eq!(cell.bgcolor(), vt100::Color::Default, "default bg");
}

#[test]
fn bar_line_is_exactly_cols_wide() {
    for cols in [1u16, 10, 40, 80, 200] {
        let text = bar_line(
            cols,
            45_296,
            "~/src/chevron",
            "main*",
            "ok 1.2s",
            "m-217",
            "",
        );
        assert_eq!(text.chars().count(), usize::from(cols), "width {cols}");
    }
}

#[test]
fn bar_line_renders_cwd_git_status_clock_and_host() {
    let text = bar_line(
        160,
        45_296,
        "~/src/chevron",
        "main*",
        "running 3.4s",
        "m-217",
        "grid 3:5",
    );
    assert!(text.contains("12:34:56"), "got: {text}");
    assert!(text.contains("~/src/chevron"));
    assert!(text.contains("main*"));
    assert!(text.contains("running 3.4s"));
    assert!(text.contains("m-217"));
    assert!(text.contains("grid 3:5"), "debug overlay should appear");
}

#[test]
fn tilde_with_collapses_home_on_a_boundary() {
    assert_eq!(tilde_with("/Users/mim", "/Users/mim"), "~");
    assert_eq!(
        tilde_with("/Users/mim/src/chevron", "/Users/mim"),
        "~/src/chevron"
    );
    assert_eq!(
        tilde_with("/Users/mimosa/x", "/Users/mim"),
        "/Users/mimosa/x"
    );
    assert_eq!(tilde_with("/etc/hosts", "/Users/mim"), "/etc/hosts");
}

#[test]
fn osc_scanner_parses_osc7_cwd() {
    let mut osc = scanner();
    let mut out = Vec::new();
    osc.feed(b"\x1b]7;file://m-217/Users/mim/src\x07", &mut out);
    match out.as_slice() {
        [(_, OscEvent::Cwd(p))] => assert_eq!(p.as_str(), "/Users/mim/src"),
        other => panic!("expected one Cwd event, got {}", other.len()),
    }
}

#[test]
fn cmd_status_text_covers_running_ok_and_failure() {
    let d = Some(millis(1234));
    assert_eq!(cmd_status_text(true, None, d), "running 1.2s");
    assert_eq!(cmd_status_text(false, Some(0), d), "ok 1.2s");
    assert_eq!(cmd_status_text(false, Some(2), d), "exit 2 1.2s");
    assert_eq!(cmd_status_text(false, Some(0), None), "ok");
    assert_eq!(cmd_status_text(false, None, None), "idle");
}

#[test]
fn fmt_dur_scales_units() {
    assert_eq!(fmt_dur(millis(350)), "350ms");
    assert_eq!(fmt_dur(millis(1234)), "1.2s");
    assert_eq!(fmt_dur(millis(125_000)), "2m05s");
}

#[test]
fn osc_scanner_parses_133_lifecycle() {
    let mut osc = scanner();
    let mut out = Vec::new();
    osc.feed(b"\x1b]133;A\x07prompt\x1b]133;C\x07", &mut out);
    osc.feed(b"output\x1b]133;D;0\x07", &mut out);
    osc.feed(b"\x1b]133;", &mut out);
    osc.feed(b"B\x07", &mut out);
    let kinds: Vec<_> = out
        .iter()
        .map(|(_, e)| match e {
            OscEvent::PromptStart => "A",
            OscEvent::CmdStart => "B",
            OscEvent::OutputStart => "C",
            OscEvent::CmdEnd(Some(0)) => "D0",
            OscEvent::CmdEnd(_) => "D?",
            OscEvent::Cwd(_) => "cwd",
        })
        .collect();
    assert_eq!(kinds, ["A", "C", "D0", "B"]);
}

#[test]
fn scan_alt_screen_tracks_enter_and_exit() {
    assert!(scan_alt_screen(b"\x1b[?1049h", false));
    assert!(!scan_alt_screen(b"\x1b[?1049l", true));
    assert!(scan_alt_screen(b"hello world", true));
    assert!(!scan_alt_screen(b"hello world", false));
    assert!(scan_alt_screen(b"x\x1b[?47hx", false));
    assert!(!scan_alt_screen(b"\x1b[?1049h...\x1b[?1049l", false));
}

#[test]
fn last_index_of_finds_the_last_match() {
    assert_eq!(last_index_of(b"abcabc", b"abc"), Some(3));
    assert_eq!(last_index_of(b"abc", b"xyz"), None);
    assert_eq!(last_index_of(b"ab", b"abc"), None);
    assert_eq!(last_index_of(b"aaa", b"a"), Some(2));
}

const OSC_A: &[u8] = b"\x1b]133;A\x07";
const OSC_B: &[u8] = b"\x1b]133;B\x07";
const OSC_C: &[u8] = b"\x1b]133;C\x07";

fn osc_d(code: i32) -> Vec<u8> {
    format!("\x1b]133;D;{code}\x07").into_bytes()
}

fn feed_compose(g: &mut Grid, tr: &mut Transient, osc: &mut OscScanner, chunk: &[u8]) {
    let mut events = Vec::new();
    osc.feed(chunk, &mut events);
    let cuts = feed_cuts(&events, chunk.len());
    let mut fed = 0;
    for ((_, ev), upto) in events.iter().zip(&cuts) {
        g.feed(&chunk[fed..*upto]);
        fed = *upto;
        let rewrite = drive_transient(tr, &g.screen(), ev);
        if rewrite.clear_history {
            g.term.grid_mut().clear_history();
        }
        g.feed(&rewrite.bytes);
    }
    g.feed(&chunk[fed..cuts[cuts.len() - 1]]);
}

fn readback(g: &Grid, rows: u16, cols: u16) -> vt100::Parser {
    let mut parser = vt(rows, cols);
    parser.process(&g.render(1));
    parser
}

#[test]
fn collapse_seq_homes_erases_and_writes_the_command() {
    let seq = String::from_utf8(collapse_seq(4, "git status")).unwrap();
    assert_eq!(seq, "\x1b[5;1H\x1b[J\x1b[0m❯ git status\r\n");
}

#[test]
fn recolor_seq_is_cursor_neutral_and_status_colored() {
    assert_eq!(
        String::from_utf8(recolor_seq(2, Some(0))).unwrap(),
        "\x1b7\x1b[3;1H\x1b[32m❯\x1b[0m\x1b8"
    );
    assert_eq!(
        String::from_utf8(recolor_seq(0, Some(1))).unwrap(),
        "\x1b7\x1b[1;1H\x1b[31m❯\x1b[0m\x1b8"
    );
    assert!(recolor_seq(0, None).is_empty());
}

#[test]
fn capture_command_joins_soft_wrapped_rows() {
    let mut g = Grid::new(10, 4);
    g.feed(b"P abcdefghijklmn");
    assert_eq!(
        g.screen().capture_command(0, 2, 1).as_deref(),
        Some("abcdefghijklmn")
    );
}

#[test]
fn capture_command_rejects_hard_newline_multiline() {
    let mut g = Grid::new(40, 4);
    g.feed(b"P line one\r\nline two");
    assert_eq!(g.screen().capture_command(0, 2, 1), None);
}

#[test]
fn transient_collapses_prompt_and_command() {
    let mut g = Grid::new(40, 6);
    let mut tr = Transient::default();
    let mut osc = scanner();
    let stream = [OSC_A, b"myprompt ", OSC_B, b"ls -la\r\n", OSC_C].concat();
    feed_compose(&mut g, &mut tr, &mut osc, &stream);

    let text = readback(&g, 6, 40).screen().contents();
    assert!(
        text.contains("❯ ls -la"),
        "collapsed line present: {text:?}"
    );
    assert!(!text.contains("myprompt"), "prompt chrome gone: {text:?}");
}

#[test]
fn transient_recolors_glyph_green_on_success_red_on_failure() {
    for (code, want) in [(0, vt100::Color::Idx(2)), (2, vt100::Color::Idx(1))] {
        let mut g = Grid::new(40, 6);
        let mut tr = Transient::default();
        let mut osc = scanner();
        let stream = [
            OSC_A,
            b"P ",
            OSC_B,
            b"echo hi\r\n",
            OSC_C,
            b"hi\r\n",
            &osc_d(code),
        ]
        .concat();
        feed_compose(&mut g, &mut tr, &mut osc, &stream);

        let parser = readback(&g, 6, 40);
        let screen = parser.screen();
        let cell = screen.cell(0, 0).expect("glyph cell (0,0)");
        assert_eq!(cell.contents(), "❯", "collapsed glyph at row 0");
        assert_eq!(cell.fgcolor(), want, "exit {code} recolors the glyph");
        assert!(screen.contents().contains("hi"), "output preserved");
    }
}

#[test]
fn transient_recolors_at_the_scrolled_row_not_the_stale_one() {
    let mut g = Grid::new(40, 6);
    let mut tr = Transient::default();
    let mut osc = scanner();

    g.feed(b"line0\r\nline1\r\n");
    let cycle = [OSC_A, b"P ", OSC_B, b"job\r\n", OSC_C].concat();
    feed_compose(&mut g, &mut tr, &mut osc, &cycle);
    feed_compose(&mut g, &mut tr, &mut osc, b"a\r\nb\r\nc\r\n");
    feed_compose(&mut g, &mut tr, &mut osc, &osc_d(0));

    let parser = readback(&g, 6, 40);
    let screen = parser.screen();
    let glyph = screen.cell(1, 0).expect("glyph cell (1,0)");
    assert_eq!(glyph.contents(), "❯", "glyph followed the scroll to row 1");
    assert_eq!(
        glyph.fgcolor(),
        vt100::Color::Idx(2),
        "recolored green at the scrolled row"
    );
    assert_eq!(
        screen.cell(2, 0).unwrap().contents(),
        "a",
        "stale row is output"
    );
}

#[test]
fn transient_skips_multiline_input() {
    let mut g = Grid::new(40, 6);
    let mut tr = Transient::default();
    let mut osc = scanner();
    let stream = [
        OSC_A,
        b"P ",
        OSC_B,
        b"for x in a b\r\ndo echo\r\n",
        OSC_C,
        &osc_d(0),
    ]
    .concat();
    feed_compose(&mut g, &mut tr, &mut osc, &stream);

    let text = readback(&g, 6, 40).screen().contents();
    assert!(
        !text.contains("❯"),
        "no collapse for multi-line input: {text:?}"
    );
    assert!(text.contains("for x in a b"), "input left intact: {text:?}");
    assert!(
        text.contains("do echo"),
        "continuation left intact: {text:?}"
    );
}

#[test]
fn transient_defers_color_so_fast_commands_do_not_flicker() {
    let mut g = Grid::new(40, 6);
    let mut tr = Transient::default();
    let mut osc = scanner();
    let stream = [OSC_A, b"P ", OSC_B, b"true\r\n", OSC_C, &osc_d(0)].concat();
    feed_compose(&mut g, &mut tr, &mut osc, &stream);

    let parser = readback(&g, 6, 40);
    let cell = parser.screen().cell(0, 0).expect("glyph cell");
    assert_eq!(cell.contents(), "❯");
    assert_eq!(
        cell.fgcolor(),
        vt100::Color::Idx(2),
        "single rendered frame already carries the final color"
    );
}

#[test]
fn scroll_region_seq_is_cursor_neutral() {
    let seq = scroll_region_seq(40);
    assert!(seq.starts_with("\x1b7"), "saves the cursor first (DECSC)");
    assert!(seq.ends_with("\x1b8"), "restores the cursor last (DECRC)");
    assert!(seq.contains("\x1b[2;40r"), "sets the region to rows 2..=40");
    assert!(scroll_region_seq(1).is_empty(), "no region when rows < 2");
}

#[test]
fn resolve_command_empty_falls_back_to_a_shell() {
    assert_eq!(resolve_command(&vec![], Some("/usr/bin/fish".to_string())), vec!["/usr/bin/fish"]);
    assert_eq!(resolve_command(&vec![], None), vec!["/bin/sh"]);
}

#[test]
fn help_flag_exits_zero() {
    assert!(matches!(parse_host_args(&vec!["--help".to_string()]), HostCall::Help));
    match parse_host_args(&vec!["--status".to_string(), "--".to_string(), "vim".to_string()]) {
        HostCall::Run { status, rest } => {
            assert!(status);
            assert_eq!(rest, vec!["--", "vim"]);
        }
        HostCall::Help => panic!("expected a command"),
    }
}

#[test]
fn host_runs_a_command_and_mirrors_its_exit_code() {
    assert_eq!(exit_code(Some(7), None), 7);
    assert_eq!(exit_code(None, Some(9)), 137);
}

#[test]
fn a_bar_needs_a_terminal() {
    let m = choose_mode(true, false, true, true);
    assert!(!m.status && !m.compose);
    let m = choose_mode(true, true, true, true);
    assert!(m.status && m.compose);
    assert_eq!(child_rows(true, 24), 23);
    assert_eq!(child_rows(true, 1), 1);
    assert_eq!(grid_rows(true, 1), 1);
    assert_eq!(grid_rows(false, 24), 24);
    assert_eq!(poll_timeout(true), 250);
    assert_eq!(poll_timeout(false), -1);
}

#[test]
fn full_screen_programs_own_the_screen() {
    let mode = choose_mode(true, true, true, false);
    let mut s = Session { mode, rows: 24, alt: false };
    assert_eq!(s.on_chunk(true, true), [Paint::Forward, Paint::ResetRegion]);
    assert_eq!(s.on_chunk(true, true), [Paint::Forward]);
    assert!(s.on_tick(10_000).is_empty());
    assert_eq!(s.on_chunk(false, false), [Paint::Forward, Paint::SetRegion(24), Paint::DrawBar]);
    assert_eq!(s.on_tick(500), [Paint::DrawBar]);
    assert!(s.on_tick(499).is_empty());
    assert_eq!(s.on_resize(30), [Paint::SetRegion(30), Paint::DrawBar]);
}

#[test]
fn composing_never_forwards_a_shell() {
    let mode = choose_mode(true, true, true, true);
    let mut s = Session { mode, rows: 24, alt: false };
    assert_eq!(s.on_chunk(false, true), [Paint::Frame]);
    assert_eq!(s.on_chunk(true, false), [Paint::Forward]);
    assert_eq!(s.on_chunk(false, false), [Paint::Forward, Paint::Frame]);
    assert_eq!(s.on_resize(10), [Paint::Frame]);
}

#[test]
fn without_a_bar_the_host_is_a_wire() {
    let mode = choose_mode(false, true, true, true);
    let mut s = Session { mode, rows: 24, alt: false };
    assert_eq!(s.on_chunk(true, true), [Paint::Forward]);
    assert!(s.on_resize(10).is_empty());
}

#[test]
fn every_byte_is_fed_once() {
    let chunk = b"ab\x1b]133;A\x07cd";
    let mut events = Vec::new();
    scanner().feed(chunk, &mut events);
    let cuts = feed_cuts(&events, chunk.len());
    assert_eq!(cuts, [10, 12]);
    assert_eq!(feed_cuts(&Vec::new(), 5), [5]);
}

#[test]
fn a_frame_is_swapped_in_at_once() {
    let mut g = Grid::new(10, 2);
    g.feed(b"hi");
    let bar = Bar::new(10, "h".to_string(), "/x".to_string(), None);
    let frame = compose_frame(&bar, &g.screen(), Some(vec![0]), 0, millis(0));
    assert!(frame.starts_with("\x1b[?2026h"));
    assert!(frame.ends_with("\x1b[2;3H\x1b[?2026l"));
    assert!(frame.contains("hi"));
}

#[test]
fn the_terminal_is_left_whole() {
    assert_eq!(reset_region_seq(), "\x1b7\x1b[r\x1b8");
    assert_eq!(teardown_seq(24), "\x1b[r\x1b[1;1H\x1b[2K\x1b[24;1H");
    assert_eq!(debug_text(1, 2, 3, true), "g1:2 p@3 ALT");
    assert_eq!(path_with("/bin", "/usr/bin"), "/bin:/usr/bin");
}

#[test]
fn the_bar_times_a_command() {
    let mut bar = Bar::new(80, "h".to_string(), "/home/u/x".to_string(), Some("/home/u"));
    bar.apply(&OscEvent::OutputStart, millis(1_000), None);
    assert!(bar.running);
    bar.apply(&OscEvent::CmdEnd(Some(2)), millis(3_500), None);
    assert_eq!(bar.last_exit, Some(2));
    assert_eq!(bar.dur(millis(9_000)), Some(millis(2_500)));
    assert_eq!(git_text("main", true), "main*");
    assert_eq!(host_label(Some("a".to_string()), None), "a");
}

#[test]
fn output_is_read_before_the_loop_is_left() {
    let mut wire = Wire::new();
    let all = Ready { resized: true, input: true, output: true, hangup: true, exited: true };
    assert_eq!(
        wire.round(Polled::Ready(all)),
        [Task::Resize, Task::ReadInput, Task::ReadOutput, Task::Tick]
    );
    let none = Ready { resized: false, input: false, output: false, hangup: false, exited: false };
    assert_eq!(wire.round(Polled::Ready(none)), [Task::Tick]);
    assert_eq!(wire.round(Polled::Ready(Ready { hangup: true, ..none })), [Task::Leave]);
    assert_eq!(wire.round(Polled::Ready(Ready { exited: true, ..none })), [Task::Leave]);
    assert!(wire.round(Polled::Interrupted).is_empty());
    assert_eq!(wire.round(Polled::Failed), [Task::Fail]);
    assert_eq!(wire.on_input(3), InputStep::Forward);
    assert_eq!(wire.on_input(-1), InputStep::Retry);
    assert!(wire.asking);
    assert_eq!(wire.on_input(0), InputStep::Ended);
    assert!(!wire.asking);
    assert!(wire.on_output(1) && !wire.on_output(0) && !wire.on_output(-1));
}

/// `--status` asks for a bar, which there is none of without a terminal; the command
/// still runs, and its code is the host's.
#[test]
fn status_flag_does_not_change_exit_code() {
    let args: Vec<String> =
        ["--status", "--", "/bin/sh", "-c", "exit 3"].iter().map(|s| s.to_string()).collect();
    match parse_host_args(&args) {
        HostCall::Run { status, rest } => {
            assert!(status);
            assert_eq!(resolve_command(&rest, None), ["/bin/sh", "-c", "exit 3"]);
            let mode = choose_mode(status, false, false, false);
            assert!(!mode.status && !mode.compose);
        }
        HostCall::Help => panic!("no help was asked for"),
    }
    let code = exit_code(Some(3), None);
    assert_eq!(code, 3);
}

// --- the host as a whole ---

fn host(compose: bool, debug: bool) -> Host {
    let mode = choose_mode(true, true, true, compose);
    Host::new(mode, 40, 10, "box".to_string(), "/home/me/src".to_string(), Some("/home/me"), debug)
}

/// Takes a chunk, and tells what is painted and whether the repository is asked for.
fn taken(h: &mut Host, g: &mut Grid, bytes: &[u8], at_ms: u64) -> (Vec<Paint>, bool) {
    let mut c = h.begin(bytes);
    let mut fed = 0;
    for upto in c.cuts.clone() {
        g.feed(&bytes[fed..upto]);
        fed = upto;
        if c.at < c.events.len() {
            let rewrite = h.step(&mut c, &g.screen(), millis(at_ms), Some("/home/me"));
            if rewrite.clear_history {
                g.term.grid_mut().clear_history();
            }
            g.feed(&rewrite.bytes);
        }
    }
    assert_eq!(fed, bytes.len());
    let (row, col) = g.cursor();
    (h.finish(&c, row, col, g.alt_screen()), c.refresh_git)
}

#[test]
fn a_command_passes_through_the_host() {
    let mut h = host(false, true);
    let mut g = Grid::new(40, 10);
    let (paints, git) = taken(&mut h, &mut g, b"\r\n\x1b]133;A\x07$ \x1b]133;B\x07ls\r\n", 0);
    assert_eq!(paints, vec![Paint::Forward]);
    assert!(!git);
    assert_eq!(h.prompt_row, 1);
    assert_eq!(h.bar.debug, "g2:0 p@1");
    let (paints, git) = taken(&mut h, &mut g, b"\x1b]133;C\x07out\r\n\x1b]133;", 1000);
    assert_eq!(paints, vec![Paint::Forward, Paint::DrawBar]);
    assert!(!git && h.bar.running);
    let (paints, git) = taken(&mut h, &mut g, b"D;3\x07", 3500);
    assert_eq!(paints, vec![Paint::Forward, Paint::DrawBar]);
    assert!(git && !h.bar.running);
    assert_eq!(h.bar.last_exit, Some(3));
    assert_eq!(h.bar.last_dur, Some(millis(2500)));
    let (_, git) = taken(&mut h, &mut g, b"\x1b]7;file://box/home/me\x07", 3600);
    assert!(git);
    assert_eq!(h.bar.cwd_disp, "~");
    let (_, git) = taken(&mut h, &mut g, b"\x1b]7;file://box/home/me\x07", 3700);
    assert!(!git);
}

#[test]
fn composing_collapses_the_prompt_in_the_model() {
    let mut h = host(true, false);
    let mut g = Grid::new(40, 10);
    let (paints, _) =
        taken(&mut h, &mut g, b"\x1b]133;A\x07prompt $ \x1b]133;B\x07ls\r\n\x1b]133;C\x07", 0);
    assert_eq!(paints, vec![Paint::Frame]);
    assert!(h.transient.collapsed);
    assert_eq!(g.screen().row_slice(0, 0).0, "❯ ls");
    let (paints, _) = taken(&mut h, &mut g, b"\x1b[?1049h", 0);
    assert_eq!(paints, vec![Paint::Forward]);
    assert!(h.session.alt && h.on_tick(10_000).is_empty());
    assert!(h.on_resize(20, 5).is_empty());
    assert_eq!((h.bar.cols, h.session.rows), (20, 5));
    let (paints, _) = taken(&mut h, &mut g, b"\x1b[?1049l", 0);
    assert_eq!(paints, vec![Paint::Forward, Paint::Frame]);
    assert_eq!(h.on_tick(500), vec![Paint::DrawBar]);
}

#[test]
fn without_a_bar_nothing_is_read() {
    let mode = choose_mode(false, true, true, true);
    let mut h = Host::new(mode, 40, 10, "box".to_string(), "/".to_string(), None, true);
    let c = h.begin(b"\x1b]133;C\x07\x1b[?1049h");
    assert!(c.events.is_empty() && !c.now_alt);
    assert_eq!(h.finish(&c, 0, 0, false), vec![Paint::Forward]);
    assert!(!h.bar.running && h.bar.debug.is_empty());
}

#[test]
fn markers_reach_the_bar_on_a_terminal_without_rows() {
    for compose in [false, true] {
        let mut h = host(compose, false);
        let screen = Screen { cols: 40, rows: Vec::new(), cursor_row: 0, cursor_col: 0, history: 0 };
        let mut c = h.begin(b"\x1b]133;A\x07\x1b]133;C\x07");
        assert_eq!(c.events.len(), 2);
        for first in [true, false] {
            let rewrite = h.step(&mut c, &screen, millis(0), None);
            assert_eq!(rewrite.clear_history, compose && first);
            assert!(rewrite.bytes.is_empty());
        }
        assert!(h.bar.running && c.changed);
    }
}

#[test]
fn a_prompt_is_followed_on_a_terminal_without_rows() {
    let screen = Screen { cols: 40, rows: Vec::new(), cursor_row: 0, cursor_col: 7, history: 2 };
    let mut t = Transient::default();
    assert!(drive_transient(&mut t, &screen, &OscEvent::PromptStart).clear_history);
    drive_transient(&mut t, &screen, &OscEvent::CmdStart);
    assert_eq!((t.prompt_abs, t.input_abs, t.input_col), (Some(0), Some(2), 7));
    assert!(drive_transient(&mut t, &screen, &OscEvent::OutputStart).bytes.is_empty());
    assert!(!t.collapsed && t.prompt_abs == Some(0));
    assert!(drive_transient(&mut t, &screen, &OscEvent::CmdEnd(Some(0))).bytes.is_empty());
    assert!(t.prompt_abs.is_none() && t.input_abs.is_none());
}
