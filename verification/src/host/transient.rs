//! The transient prompt: once a command is accepted, prompt and command shrink
//! to one line with a glyph, and the glyph takes its colour from the exit code.
//!
//! Rows are kept as screen row plus lines scrolled off since the prompt, so
//! that they are found again however far the output has scrolled.

use vstd::prelude::*;
use vstd::utf8::*;
use crate::decimal;
use crate::decimal::push_u64;
use crate::host::osc::OscEvent;
use crate::host::screen;
use crate::host::screen::{trim_end_str, Screen};
use crate::text;

verus! {

/// The bytes of a string.
fn bytes_of(s: &String) -> (r: Vec<u8>)
    ensures
        r@ == encode_utf8(s@),
{
    vstd::slice::slice_to_vec(s.as_str().as_bytes())
}

/// What turns the span from row `top` on into one line: go there, erase to the
/// end of the screen, and write the glyph and the command without colour.
pub open spec fn collapse_text(top: nat, cmd: Seq<char>) -> Seq<char> {
    "\x1b["@ + decimal::dec_digits(top + 1) + ";1H\x1b[J\x1b[0m❯ "@ + cmd + "\r\n"@
}

/// The bytes that turn the span from row `top_row` on into one line.
pub fn collapse_seq(top_row: usize, cmd: &str) -> (r: Vec<u8>)
    requires
        top_row < usize::MAX,
    ensures
        r@ == encode_utf8(collapse_text(top_row as nat, cmd@)),
{
    let mut out: String = "\x1b[".to_owned();
    push_u64(&mut out, (top_row + 1) as u64);
    out.push_str(";1H\x1b[J\x1b[0m❯ ");
    out.push_str(cmd);
    out.push_str("\r\n");
    bytes_of(&out)
}

/// What gives the glyph on row `row` its colour and leaves the cursor alone:
/// green for success, red for failure, nothing where the code is unknown.
pub open spec fn recolor_text(row: nat, exit: Option<i32>) -> Seq<char> {
    match exit {
        None => Seq::empty(),
        Some(n) => "\x1b7\x1b["@ + decimal::dec_digits(row + 1) + ";1H\x1b[3"@ + decimal::dec_digits(
            if n == 0 {
                2
            } else {
                1
            },
        ) + "m❯\x1b[0m\x1b8"@,
    }
}

/// The bytes that give the glyph on row `row` its colour.
pub fn recolor_seq(row: usize, exit: Option<i32>) -> (r: Vec<u8>)
    requires
        row < usize::MAX,
    ensures
        r@ == encode_utf8(recolor_text(row as nat, exit)),
{
    match exit {
        None => {
            let none: String = String::new();
            bytes_of(&none)
        },
        Some(n) => {
            let mut out: String = "\x1b7\x1b[".to_owned();
            push_u64(&mut out, (row + 1) as u64);
            out.push_str(";1H\x1b[3");
            push_u64(
                &mut out,
                if n == 0 {
                    2
                } else {
                    1
                },
            );
            out.push_str("m❯\x1b[0m\x1b8");
            bytes_of(&out)
        },
    }
}

/// Follows one command from its prompt to its end.
#[derive(Debug, Clone, Copy, PartialEq, Eq, Structural)]
pub struct Transient {
    /// The first row of the prompt.
    pub prompt_abs: Option<usize>,
    /// The row on which the command starts.
    pub input_abs: Option<usize>,
    /// The column on which the command starts.
    pub input_col: usize,
    /// The prompt has been collapsed.
    pub collapsed: bool,
}

impl Transient {
    /// The row after the prompt's can be counted.
    pub open spec fn wf(self) -> bool {
        self.prompt_abs matches Some(p) ==> p < usize::MAX
    }
}

/// No command is being followed.
pub open spec fn at_rest() -> Transient {
    Transient { prompt_abs: None, input_abs: None, input_col: 0, collapsed: false }
}

impl Default for Transient {
    fn default() -> (r: Self)
        ensures
            r == at_rest(),
    {
        Transient { prompt_abs: None, input_abs: None, input_col: 0, collapsed: false }
    }
}

/// After the start of a prompt.
pub open spec fn after_prompt(s: Screen) -> Transient {
    Transient { prompt_abs: Some(s.cursor_row), ..at_rest() }
}

/// After the start of the command.
pub open spec fn after_input(t: Transient, s: Screen) -> Transient {
    Transient {
        input_abs: Some((s.cursor_row + s.history) as usize),
        input_col: s.cursor_col,
        ..t
    }
}

/// The row that an absolute row stands on, or the top where it has scrolled off.
pub open spec fn row_now(abs: usize, s: Screen) -> int {
    if abs >= s.history {
        abs - s.history
    } else {
        0
    }
}

/// The last row of the command when its output starts: the one above the
/// cursor.
pub open spec fn last_input_row(s: Screen) -> int {
    if s.cursor_row > 0 {
        s.cursor_row - 1
    } else {
        0
    }
}

/// The command to collapse to when its output starts. None where no prompt or
/// input was seen, where nothing was typed, or where the input has several
/// lines.
pub open spec fn command_to_collapse(t: Transient, s: Screen) -> Option<Seq<char>> {
    if t.prompt_abs is None || t.input_abs is None || last_input_row(s) < row_now(
        t.input_abs->0,
        s,
    ) {
        None
    } else {
        match screen::command_text(s, row_now(t.input_abs->0, s), t.input_col as int, last_input_row(s)) {
            Some(c) => if text::trim_end_of(c).len() == 0 {
                None
            } else {
                Some(text::trim_end_of(c))
            },
            None => None,
        }
    }
}

/// After the start of the output.
pub open spec fn after_output(t: Transient, s: Screen) -> Transient {
    if command_to_collapse(t, s) is Some {
        Transient { collapsed: true, ..t }
    } else {
        t
    }
}

/// What is written when the output starts.
pub open spec fn output_text(t: Transient, s: Screen) -> Seq<char> {
    match command_to_collapse(t, s) {
        Some(c) => collapse_text(row_now(t.prompt_abs->0, s) as nat, c),
        None => Seq::empty(),
    }
}

/// What is written when the command ends: the colour of the glyph, where it was
/// collapsed and is still on the screen.
pub open spec fn end_text(t: Transient, s: Screen, exit: Option<i32>) -> Seq<char> {
    if t.collapsed && t.prompt_abs is Some && t.prompt_abs->0 >= s.history && t.prompt_abs->0
        - s.history < s.rows@.len() {
        recolor_text((t.prompt_abs->0 - s.history) as nat, exit)
    } else {
        Seq::empty()
    }
}

impl Transient {
    /// A prompt starts. The lines that have scrolled off are forgotten, so that
    /// counting starts anew.
    pub fn on_prompt_start(&mut self, screen: &Screen)
        requires
            screen.is_even(),
        ensures
            final(self).wf(),
            *final(self) == after_prompt(*screen),
    {
        *self = Transient {
            prompt_abs: Some(screen.cursor_row),
            input_abs: None,
            input_col: 0,
            collapsed: false,
        };
    }

    /// The command starts.
    pub fn on_cmd_start(&mut self, screen: &Screen)
        requires
            old(self).wf(),
            screen.is_even(),
        ensures
            final(self).wf(),
            *final(self) == after_input(*old(self), *screen),
    {
        self.input_abs = Some(screen.cursor_row + screen.history);
        self.input_col = screen.cursor_col;
    }

    /// The output starts: the command was accepted.
    pub fn on_output_start(&mut self, screen: &Screen) -> (r: Vec<u8>)
        requires
            old(self).wf(),
            screen.wf(),
        ensures
            final(self).wf(),
            *final(self) == after_output(*old(self), *screen),
            r@ == encode_utf8(output_text(*old(self), *screen)),
    {
        let none: String = String::new();
        let nothing: Vec<u8> = bytes_of(&none);
        let (prompt_abs, input_abs) = match (self.prompt_abs, self.input_abs) {
            (Some(p), Some(i)) => (p, i),
            _ => {
                return nothing;
            },
        };
        let top: usize = prompt_abs.saturating_sub(screen.history);
        let input_row: usize = input_abs.saturating_sub(screen.history);
        let last: usize = screen.cursor_row.saturating_sub(1);
        if last < input_row {
            return nothing;
        }
        match screen.capture_command(input_row, self.input_col, last) {
            None => nothing,
            Some(typed) => {
                let cmd: String = trim_end_str(typed.as_str());
                if cmd.as_str().is_empty() {
                    return nothing;
                }
                self.collapsed = true;
                collapse_seq(top, cmd.as_str())
            },
        }
    }

    /// The command ends.
    pub fn on_cmd_end(&mut self, screen: &Screen, exit: Option<i32>) -> (r: Vec<u8>)
        requires
            screen.is_even(),
        ensures
            final(self).wf(),
            *final(self) == at_rest(),
            r@ == encode_utf8(end_text(*old(self), *screen, exit)),
    {
        let none: String = String::new();
        let mut out: Vec<u8> = bytes_of(&none);
        if self.collapsed {
            if let Some(abs) = self.prompt_abs {
                if abs >= screen.history {
                    let row: usize = abs - screen.history;
                    if row < screen.rows.len() {
                        out = recolor_seq(row, exit);
                    }
                }
            }
        }
        *self = Transient::default();
        out
    }
}

/// What a marker asks of the screen: to forget the lines that have scrolled
/// off, and to take these bytes.
#[derive(Debug)]
pub struct Rewrite {
    pub clear_history: bool,
    pub bytes: Vec<u8>,
}

/// The follower after a marker. Where the screen has no row for its cursor, as on a
/// terminal without rows, there is no command on it to collapse.
pub open spec fn after_event(t: Transient, s: Screen, ev: OscEvent) -> Transient {
    match ev {
        OscEvent::PromptStart => after_prompt(s),
        OscEvent::CmdStart => after_input(t, s),
        OscEvent::OutputStart => if s.wf() {
            after_output(t, s)
        } else {
            t
        },
        OscEvent::CmdEnd(_) => at_rest(),
        OscEvent::Cwd(_) => t,
    }
}

/// What is written to the screen at a marker.
pub open spec fn event_text(t: Transient, s: Screen, ev: OscEvent) -> Seq<char> {
    match ev {
        OscEvent::OutputStart => if s.wf() {
            output_text(t, s)
        } else {
            Seq::empty()
        },
        OscEvent::CmdEnd(code) => end_text(t, s, code),
        _ => Seq::empty(),
    }
}

/// Takes one marker.
pub fn drive_transient(t: &mut Transient, screen: &Screen, ev: &OscEvent) -> (r: Rewrite)
    requires
        old(t).wf(),
        screen.is_even(),
    ensures
        final(t).wf(),
        *final(t) == after_event(*old(t), *screen, *ev),
        r.clear_history == (*ev is PromptStart),
        r.bytes@ == encode_utf8(event_text(*old(t), *screen, *ev)),
{
    let none: String = String::new();
    let nothing: Vec<u8> = bytes_of(&none);
    match ev {
        OscEvent::PromptStart => {
            t.on_prompt_start(screen);
            Rewrite { clear_history: true, bytes: nothing }
        },
        OscEvent::CmdStart => {
            t.on_cmd_start(screen);
            Rewrite { clear_history: false, bytes: nothing }
        },
        OscEvent::OutputStart => {
            let bytes: Vec<u8> = if screen.cursor_row < screen.rows.len() {
                t.on_output_start(screen)
            } else {
                nothing
            };
            Rewrite { clear_history: false, bytes }
        },
        OscEvent::CmdEnd(code) => {
            let bytes: Vec<u8> = t.on_cmd_end(screen, *code);
            Rewrite { clear_history: false, bytes }
        },
        OscEvent::Cwd(_) => Rewrite { clear_history: false, bytes: nothing },
    }
}

/// The colour lands on the row to which the glyph has scrolled: a prompt that
/// started on row `p` is recoloured on row `p - n` after `n` lines have
/// scrolled off, and not at all once it has left the screen.
pub proof fn law_glyph_follows_scrolling(
    prompt: Screen,
    input: Screen,
    output: Screen,
    end: Screen,
    exit: Option<i32>,
)
    requires
        command_to_collapse(after_input(after_prompt(prompt), input), output) is Some,
    ensures
        ({
            let t = after_output(after_input(after_prompt(prompt), input), output);
            let row = prompt.cursor_row - end.history;
            end_text(t, end, exit) == if 0 <= row < end.rows@.len() {
                recolor_text(row as nat, exit)
            } else {
                Seq::empty()
            }
        }),
{
}

/// A command that was not collapsed is not recoloured, and neither is one whose
/// prompt was never seen.
pub proof fn law_no_colour_without_collapse(t: Transient, s: Screen, exit: Option<i32>)
    requires
        !t.collapsed || t.prompt_abs is None,
    ensures
        end_text(t, s, exit).len() == 0,
{
}

/// What is collapsed begins where the prompt began and holds what was typed from where
/// the command began, both moved up by as many lines as have scrolled off meanwhile.
pub proof fn law_collapse_finds_prompt_and_command(prompt: Screen, input: Screen, output: Screen, cmd: Seq<char>)
    requires
        input.is_even(),
        command_to_collapse(after_input(after_prompt(prompt), input), output) == Some(cmd),
    ensures
        ({
            let t = after_input(after_prompt(prompt), input);
            let top = prompt.cursor_row - output.history;
            let row = input.cursor_row + input.history - output.history;
            &&& output_text(t, output) == collapse_text(
                if top > 0 {
                    top as nat
                } else {
                    0
                },
                cmd,
            )
            &&& after_output(t, output).collapsed
            &&& row >= 0 && output.cursor_row > 0 ==> (screen::command_text(
                output,
                row,
                input.cursor_col as int,
                output.cursor_row - 1,
            ) matches Some(c) && cmd == text::trim_end_of(c))
            &&& cmd.len() > 0
        }),
{
}

/// The end of a command and the start of a prompt forget the one before; a directory
/// that is reported changes nothing, and nothing is written but when the output starts
/// or the command ends.
pub proof fn law_markers_drive_the_prompt(t: Transient, s: Screen, ev: OscEvent)
    ensures
        ev is CmdEnd ==> after_event(t, s, ev) == at_rest(),
        ev is PromptStart ==> after_event(t, s, ev) == after_event(at_rest(), s, ev) && after_event(t, s, ev).prompt_abs
            == Some(s.cursor_row) && !after_event(t, s, ev).collapsed,
        ev is Cwd ==> after_event(t, s, ev) == t,
        ev is CmdStart ==> after_event(t, s, ev).prompt_abs == t.prompt_abs && after_event(t, s, ev).input_col
            == s.cursor_col,
        !(ev is OutputStart || ev is CmdEnd) ==> event_text(t, s, ev).len() == 0,
        ev matches OscEvent::CmdEnd(code) ==> (code is None ==> event_text(t, s, ev).len() == 0),
{
}

} // verus!
