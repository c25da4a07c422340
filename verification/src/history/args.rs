//! The command line of the history query.
//!
//! Filters keep rows (`--cwd`, `--session`, `--host`, `--exit`, `--failed`,
//! `--success`, `--since`, `--until`, `--since-ms`, `--until-ms`, `--workspace`,
//! `--grep`, a bare pattern) or drop them (`--exclude-…`); `--filter-mode` is a
//! preset; `--limit`, `--reverse`, `--unique` and `--format` shape the output.

use vstd::prelude::*;
use crate::decimal;
use crate::decimal::{dec_u64, parse_signed, parse_unsigned};
use crate::history::duration;
use crate::history::duration::parse_since;
use crate::text;
use crate::text::{chars_of, debug_str, joined, str_eq};

verus! {

/// The most rows that can be asked for.
pub const MAX_LIMIT: usize = 10_000;

/// The rows shown where no limit is given.
pub const DEFAULT_LIMIT: usize = 25;

/// How rows are written.
#[derive(Debug, Clone, PartialEq, Eq)]
pub enum Format {
    Human,
    Json,
    Cmds,
    Ids,
    /// A template with placeholders in braces.
    Template(String),
}

/// What the query keeps, and how the rows are shown.
#[derive(Debug, Clone, PartialEq, Eq)]
pub struct Filters {
    pub cwd: Option<String>,
    pub session: Option<String>,
    pub host: Option<String>,
    pub exit_eq: Option<i32>,
    pub failed_only: bool,
    pub success_only: bool,
    pub since_ms: Option<i64>,
    pub until_ms: Option<i64>,
    pub workspace_prefix: Option<String>,
    pub grep: Option<String>,
    pub exclude_cwd: Option<String>,
    pub exclude_host: Option<String>,
    pub exclude_exit: Option<i32>,
    pub exclude_session: Option<String>,
    pub limit: usize,
    pub reverse: bool,
    pub unique: bool,
    pub format: Format,
}

/// Where the query is made from: what `--here`, `--workspace`, `--filter-mode`
/// and the spans of time are resolved against. A directory that cannot be had
/// is given as the message that says why.
#[derive(Debug)]
pub struct Surroundings {
    pub current_dir: Result<String, String>,
    pub workspace_root: Result<String, String>,
    pub hostname: String,
    pub now_ms: i64,
}

/// Why the command line gives no query.
#[derive(Debug, Clone, PartialEq, Eq)]
pub enum ParseOutcome {
    /// Help was asked for.
    Help,
    /// The command line is wrong, and how.
    Message(String),
}

// ── Their values ────────────────────────────────────────────────────────────

pub enum FormatView {
    Human,
    Json,
    Cmds,
    Ids,
    Template(Seq<char>),
}

pub struct FiltersView {
    pub cwd: Option<Seq<char>>,
    pub session: Option<Seq<char>>,
    pub host: Option<Seq<char>>,
    pub exit_eq: Option<i32>,
    pub failed_only: bool,
    pub success_only: bool,
    pub since_ms: Option<i64>,
    pub until_ms: Option<i64>,
    pub workspace_prefix: Option<Seq<char>>,
    pub grep: Option<Seq<char>>,
    pub exclude_cwd: Option<Seq<char>>,
    pub exclude_host: Option<Seq<char>>,
    pub exclude_exit: Option<i32>,
    pub exclude_session: Option<Seq<char>>,
    pub limit: usize,
    pub reverse: bool,
    pub unique: bool,
    pub format: FormatView,
}

pub struct SurroundingsView {
    pub current_dir: Result<Seq<char>, Seq<char>>,
    pub workspace_root: Result<Seq<char>, Seq<char>>,
    pub hostname: Seq<char>,
    pub now_ms: i64,
}

pub enum ParseOutcomeView {
    Help,
    Message(Seq<char>),
}

impl View for Format {
    type V = FormatView;

    open spec fn view(&self) -> FormatView {
        match self {
            Format::Human => FormatView::Human,
            Format::Json => FormatView::Json,
            Format::Cmds => FormatView::Cmds,
            Format::Ids => FormatView::Ids,
            Format::Template(t) => FormatView::Template(t@),
        }
    }
}

impl View for Filters {
    type V = FiltersView;

    open spec fn view(&self) -> FiltersView {
        FiltersView {
            cwd: text::opt_view(self.cwd),
            session: text::opt_view(self.session),
            host: text::opt_view(self.host),
            exit_eq: self.exit_eq,
            failed_only: self.failed_only,
            success_only: self.success_only,
            since_ms: self.since_ms,
            until_ms: self.until_ms,
            workspace_prefix: text::opt_view(self.workspace_prefix),
            grep: text::opt_view(self.grep),
            exclude_cwd: text::opt_view(self.exclude_cwd),
            exclude_host: text::opt_view(self.exclude_host),
            exclude_exit: self.exclude_exit,
            exclude_session: text::opt_view(self.exclude_session),
            limit: self.limit,
            reverse: self.reverse,
            unique: self.unique,
            format: self.format@,
        }
    }
}

pub open spec fn either_view(r: Result<String, String>) -> Result<Seq<char>, Seq<char>> {
    match r {
        Ok(s) => Ok(s@),
        Err(s) => Err(s@),
    }
}

impl View for Surroundings {
    type V = SurroundingsView;

    open spec fn view(&self) -> SurroundingsView {
        SurroundingsView {
            current_dir: either_view(self.current_dir),
            workspace_root: either_view(self.workspace_root),
            hostname: self.hostname@,
            now_ms: self.now_ms,
        }
    }
}

impl View for ParseOutcome {
    type V = ParseOutcomeView;

    open spec fn view(&self) -> ParseOutcomeView {
        match self {
            ParseOutcome::Help => ParseOutcomeView::Help,
            ParseOutcome::Message(m) => ParseOutcomeView::Message(m@),
        }
    }
}

/// No filter, and `limit` rows.
pub open spec fn no_filters(limit: usize) -> FiltersView {
    FiltersView {
        cwd: None,
        session: None,
        host: None,
        exit_eq: None,
        failed_only: false,
        success_only: false,
        since_ms: None,
        until_ms: None,
        workspace_prefix: None,
        grep: None,
        exclude_cwd: None,
        exclude_host: None,
        exclude_exit: None,
        exclude_session: None,
        limit,
        reverse: false,
        unique: false,
        format: FormatView::Human,
    }
}

impl Default for Filters {
    fn default() -> (r: Self)
        ensures
            r@ == no_filters(0),
    {
        Filters {
            cwd: None,
            session: None,
            host: None,
            exit_eq: None,
            failed_only: false,
            success_only: false,
            since_ms: None,
            until_ms: None,
            workspace_prefix: None,
            grep: None,
            exclude_cwd: None,
            exclude_host: None,
            exclude_exit: None,
            exclude_session: None,
            limit: 0,
            reverse: false,
            unique: false,
            format: Format::Human,
        }
    }
}

// ── Flags ───────────────────────────────────────────────────────────────────

/// What an argument asks for.
#[derive(Debug, Clone, Copy, PartialEq, Eq, Structural)]
pub enum Flag {
    Help,
    Cwd,
    Here,
    Session,
    Host,
    Exit,
    Failed,
    Success,
    Since,
    Until,
    SinceMs,
    UntilMs,
    Workspace,
    Grep,
    ExcludeCwd,
    ExcludeHost,
    ExcludeExit,
    ExcludeSession,
    FilterMode,
    Limit,
    Reverse,
    Unique,
    Format,
    /// Starts with a dash and is none of the above.
    Unknown,
    /// A pattern to search for.
    Positional,
}

/// What `arg` asks for.
pub open spec fn flag_of(arg: Seq<char>) -> Flag {
    if arg == "-h"@ || arg == "--help"@ {
        Flag::Help
    } else if arg == "--cwd"@ {
        Flag::Cwd
    } else if arg == "--here"@ {
        Flag::Here
    } else if arg == "--session"@ {
        Flag::Session
    } else if arg == "--host"@ {
        Flag::Host
    } else if arg == "--exit"@ {
        Flag::Exit
    } else if arg == "--failed"@ {
        Flag::Failed
    } else if arg == "--success"@ {
        Flag::Success
    } else if arg == "--since"@ {
        Flag::Since
    } else if arg == "--until"@ {
        Flag::Until
    } else if arg == "--since-ms"@ {
        Flag::SinceMs
    } else if arg == "--until-ms"@ {
        Flag::UntilMs
    } else if arg == "--workspace"@ {
        Flag::Workspace
    } else if arg == "--grep"@ || arg == "-g"@ {
        Flag::Grep
    } else if arg == "--exclude-cwd"@ {
        Flag::ExcludeCwd
    } else if arg == "--exclude-host"@ {
        Flag::ExcludeHost
    } else if arg == "--exclude-exit"@ {
        Flag::ExcludeExit
    } else if arg == "--exclude-session"@ {
        Flag::ExcludeSession
    } else if arg == "--filter-mode"@ {
        Flag::FilterMode
    } else if arg == "--limit"@ || arg == "-n"@ {
        Flag::Limit
    } else if arg == "--reverse"@ || arg == "-r"@ {
        Flag::Reverse
    } else if arg == "--unique"@ || arg == "-u"@ {
        Flag::Unique
    } else if arg == "--format"@ || arg == "-f"@ {
        Flag::Format
    } else if arg.len() > 0 && arg[0] == '-' {
        Flag::Unknown
    } else {
        Flag::Positional
    }
}

fn starts_with_dash(arg: &str) -> (r: bool)
    ensures
        r == (arg@.len() > 0 && arg@[0] == '-'),
{
    let v: Vec<char> = chars_of(arg);
    v.len() > 0 && v[0] == '-'
}

fn read_flag(arg: &str) -> (r: Flag)
    ensures
        r == flag_of(arg@),
{
    if str_eq(arg, "-h") || str_eq(arg, "--help") {
        Flag::Help
    } else if str_eq(arg, "--cwd") {
        Flag::Cwd
    } else if str_eq(arg, "--here") {
        Flag::Here
    } else if str_eq(arg, "--session") {
        Flag::Session
    } else if str_eq(arg, "--host") {
        Flag::Host
    } else if str_eq(arg, "--exit") {
        Flag::Exit
    } else if str_eq(arg, "--failed") {
        Flag::Failed
    } else if str_eq(arg, "--success") {
        Flag::Success
    } else if str_eq(arg, "--since") {
        Flag::Since
    } else if str_eq(arg, "--until") {
        Flag::Until
    } else if str_eq(arg, "--since-ms") {
        Flag::SinceMs
    } else if str_eq(arg, "--until-ms") {
        Flag::UntilMs
    } else if str_eq(arg, "--workspace") {
        Flag::Workspace
    } else if str_eq(arg, "--grep") || str_eq(arg, "-g") {
        Flag::Grep
    } else if str_eq(arg, "--exclude-cwd") {
        Flag::ExcludeCwd
    } else if str_eq(arg, "--exclude-host") {
        Flag::ExcludeHost
    } else if str_eq(arg, "--exclude-exit") {
        Flag::ExcludeExit
    } else if str_eq(arg, "--exclude-session") {
        Flag::ExcludeSession
    } else if str_eq(arg, "--filter-mode") {
        Flag::FilterMode
    } else if str_eq(arg, "--limit") || str_eq(arg, "-n") {
        Flag::Limit
    } else if str_eq(arg, "--reverse") || str_eq(arg, "-r") {
        Flag::Reverse
    } else if str_eq(arg, "--unique") || str_eq(arg, "-u") {
        Flag::Unique
    } else if str_eq(arg, "--format") || str_eq(arg, "-f") {
        Flag::Format
    } else if starts_with_dash(arg) {
        Flag::Unknown
    } else {
        Flag::Positional
    }
}

/// The name of a flag that takes a value.
pub open spec fn value_name_of(flag: Flag) -> Option<Seq<char>> {
    match flag {
        Flag::Cwd => Some("--cwd"@),
        Flag::Session => Some("--session"@),
        Flag::Host => Some("--host"@),
        Flag::Exit => Some("--exit"@),
        Flag::Since => Some("--since"@),
        Flag::Until => Some("--until"@),
        Flag::SinceMs => Some("--since-ms"@),
        Flag::UntilMs => Some("--until-ms"@),
        Flag::Grep => Some("--grep"@),
        Flag::ExcludeCwd => Some("--exclude-cwd"@),
        Flag::ExcludeHost => Some("--exclude-host"@),
        Flag::ExcludeExit => Some("--exclude-exit"@),
        Flag::ExcludeSession => Some("--exclude-session"@),
        Flag::FilterMode => Some("--filter-mode"@),
        Flag::Limit => Some("--limit"@),
        Flag::Format => Some("--format"@),
        _ => None,
    }
}

fn value_name(flag: Flag) -> (r: Option<&'static str>)
    ensures
        match r {
            Some(n) => value_name_of(flag) == Some(n@),
            None => value_name_of(flag) is None,
        },
{
    match flag {
        Flag::Cwd => Some("--cwd"),
        Flag::Session => Some("--session"),
        Flag::Host => Some("--host"),
        Flag::Exit => Some("--exit"),
        Flag::Since => Some("--since"),
        Flag::Until => Some("--until"),
        Flag::SinceMs => Some("--since-ms"),
        Flag::UntilMs => Some("--until-ms"),
        Flag::Grep => Some("--grep"),
        Flag::ExcludeCwd => Some("--exclude-cwd"),
        Flag::ExcludeHost => Some("--exclude-host"),
        Flag::ExcludeExit => Some("--exclude-exit"),
        Flag::ExcludeSession => Some("--exclude-session"),
        Flag::FilterMode => Some("--filter-mode"),
        Flag::Limit => Some("--limit"),
        Flag::Format => Some("--format"),
        _ => None,
    }
}

// ── Values ──────────────────────────────────────────────────────────────────

/// How rows are written under the name `s`: any name that is not a keyword is a
/// template.
pub open spec fn format_of(s: Seq<char>) -> FormatView {
    if s == "human"@ {
        FormatView::Human
    } else if s == "json"@ {
        FormatView::Json
    } else if s == "cmds"@ {
        FormatView::Cmds
    } else if s == "ids"@ {
        FormatView::Ids
    } else {
        FormatView::Template(s)
    }
}

pub fn parse_format(s: &str) -> (r: Format)
    ensures
        r@ == format_of(s@),
{
    if str_eq(s, "human") {
        Format::Human
    } else if str_eq(s, "json") {
        Format::Json
    } else if str_eq(s, "cmds") {
        Format::Cmds
    } else if str_eq(s, "ids") {
        Format::Ids
    } else {
        Format::Template(s.to_owned())
    }
}

/// The number that `s` denotes, or the complaint that it denotes none.
pub open spec fn integer_of(s: Seq<char>, min: int, max: int) -> Result<int, ParseOutcomeView> {
    match decimal::parse_signed_of(s, min, max) {
        Some(n) => Ok(n),
        None => Err(ParseOutcomeView::Message("expected integer, got "@ + text::debug_quoted(s))),
    }
}

pub fn parse_i32(s: &str) -> (r: Result<i32, ParseOutcome>)
    ensures
        match r {
            Ok(n) => integer_of(s@, i32::MIN as int, i32::MAX as int) == Ok::<
                int,
                ParseOutcomeView,
            >(n as int),
            Err(e) => integer_of(s@, i32::MIN as int, i32::MAX as int) == Err::<
                int,
                ParseOutcomeView,
            >(e@),
        },
{
    match parse_signed(s, i32::MIN as i64, i32::MAX as i64) {
        Some(n) => Ok(n as i32),
        None => Err(
            ParseOutcome::Message(joined("expected integer, got ", debug_str(s).as_str())),
        ),
    }
}

pub fn parse_i64(s: &str) -> (r: Result<i64, ParseOutcome>)
    ensures
        match r {
            Ok(n) => integer_of(s@, i64::MIN as int, i64::MAX as int) == Ok::<
                int,
                ParseOutcomeView,
            >(n as int),
            Err(e) => integer_of(s@, i64::MIN as int, i64::MAX as int) == Err::<
                int,
                ParseOutcomeView,
            >(e@),
        },
{
    match parse_signed(s, i64::MIN, i64::MAX) {
        Some(n) => Ok(n),
        None => Err(
            ParseOutcome::Message(joined("expected integer, got ", debug_str(s).as_str())),
        ),
    }
}

/// The count that `s` denotes, or the complaint that it denotes none.
pub open spec fn count_of(s: Seq<char>) -> Result<int, ParseOutcomeView> {
    match decimal::parse_unsigned_of(s, usize::MAX as nat) {
        Some(n) => Ok(n as int),
        None => Err(
            ParseOutcomeView::Message("expected non-negative integer, got "@ + text::debug_quoted(s)),
        ),
    }
}

pub fn parse_usize(s: &str) -> (r: Result<usize, ParseOutcome>)
    ensures
        match r {
            Ok(n) => count_of(s@) == Ok::<int, ParseOutcomeView>(n as int),
            Err(e) => count_of(s@) == Err::<int, ParseOutcomeView>(e@),
        },
{
    match parse_unsigned(s, usize::MAX as u64) {
        Some(n) => Ok(n as usize),
        None => Err(
            ParseOutcome::Message(
                joined("expected non-negative integer, got ", debug_str(s).as_str()),
            ),
        ),
    }
}

/// The filters after a preset.
pub open spec fn with_mode(f: FiltersView, mode: Seq<char>, at: SurroundingsView) -> Result<
    FiltersView,
    ParseOutcomeView,
> {
    if mode == "global"@ {
        Ok(f)
    } else if mode == "host"@ {
        Ok(FiltersView { host: Some(at.hostname), ..f })
    } else if mode == "directory"@ {
        match at.current_dir {
            Ok(d) => Ok(FiltersView { cwd: Some(d), ..f }),
            Err(m) => Err(ParseOutcomeView::Message(m)),
        }
    } else if mode == "workspace"@ {
        match at.workspace_root {
            Ok(d) => Ok(FiltersView { workspace_prefix: Some(d), ..f }),
            Err(m) => Err(ParseOutcomeView::Message(m)),
        }
    } else if mode == "session"@ {
        Err(
            ParseOutcomeView::Message(
                "--filter-mode session not yet supported (deferred — needs CHEVRON_SESSION_ID export from shell init)"@,
            ),
        )
    } else {
        Err(
            ParseOutcomeView::Message(
                "unknown --filter-mode: "@ + mode
                    + " (expected global|host|directory|workspace)"@,
            ),
        )
    }
}

/// Whether a step went as `want` says: the filters after it, or the complaint.
pub open spec fn step_gives(
    r: Result<(), ParseOutcome>,
    after: FiltersView,
    want: Result<FiltersView, ParseOutcomeView>,
) -> bool {
    match r {
        Ok(_) => want == Ok::<FiltersView, ParseOutcomeView>(after),
        Err(e) => want == Err::<FiltersView, ParseOutcomeView>(e@),
    }
}

pub fn apply_filter_mode(f: &mut Filters, mode: &str, at: &Surroundings) -> (r: Result<
    (),
    ParseOutcome,
>)
    ensures
        step_gives(r, final(f)@, with_mode(old(f)@, mode@, at@)),
{
    if str_eq(mode, "global") {
        Ok(())
    } else if str_eq(mode, "host") {
        f.host = Some(at.hostname.clone());
        Ok(())
    } else if str_eq(mode, "directory") {
        match &at.current_dir {
            Ok(d) => {
                f.cwd = Some(d.clone());
                Ok(())
            },
            Err(m) => Err(ParseOutcome::Message(m.clone())),
        }
    } else if str_eq(mode, "workspace") {
        match &at.workspace_root {
            Ok(d) => {
                f.workspace_prefix = Some(d.clone());
                Ok(())
            },
            Err(m) => Err(ParseOutcome::Message(m.clone())),
        }
    } else if str_eq(mode, "session") {
        Err(
            ParseOutcome::Message(
                "--filter-mode session not yet supported (deferred — needs CHEVRON_SESSION_ID export from shell init)".to_owned(),
            ),
        )
    } else {
        let mut out: String = joined("unknown --filter-mode: ", mode);
        out.push_str(" (expected global|host|directory|workspace)");
        Err(ParseOutcome::Message(out))
    }
}

/// The filters after a flag with its value.
pub open spec fn with_value(
    f: FiltersView,
    flag: Flag,
    v: Seq<char>,
    at: SurroundingsView,
) -> Result<FiltersView, ParseOutcomeView> {
    match flag {
        Flag::Cwd => Ok(FiltersView { cwd: Some(v), ..f }),
        Flag::Session => Ok(FiltersView { session: Some(v), ..f }),
        Flag::Host => Ok(FiltersView { host: Some(v), ..f }),
        Flag::Exit => match integer_of(v, i32::MIN as int, i32::MAX as int) {
            Ok(n) => Ok(FiltersView { exit_eq: Some(n as i32), ..f }),
            Err(e) => Err(e),
        },
        Flag::Since => match duration::since_of(at.now_ms, v) {
            Ok(n) => Ok(FiltersView { since_ms: Some(n as i64), ..f }),
            Err(e) => Err(e),
        },
        Flag::Until => match duration::since_of(at.now_ms, v) {
            Ok(n) => Ok(FiltersView { until_ms: Some(n as i64), ..f }),
            Err(e) => Err(e),
        },
        Flag::SinceMs => match integer_of(v, i64::MIN as int, i64::MAX as int) {
            Ok(n) => Ok(FiltersView { since_ms: Some(n as i64), ..f }),
            Err(e) => Err(e),
        },
        Flag::UntilMs => match integer_of(v, i64::MIN as int, i64::MAX as int) {
            Ok(n) => Ok(FiltersView { until_ms: Some(n as i64), ..f }),
            Err(e) => Err(e),
        },
        Flag::Grep => Ok(FiltersView { grep: Some(v), ..f }),
        Flag::ExcludeCwd => Ok(FiltersView { exclude_cwd: Some(v), ..f }),
        Flag::ExcludeHost => Ok(FiltersView { exclude_host: Some(v), ..f }),
        Flag::ExcludeExit => match integer_of(v, i32::MIN as int, i32::MAX as int) {
            Ok(n) => Ok(FiltersView { exclude_exit: Some(n as i32), ..f }),
            Err(e) => Err(e),
        },
        Flag::ExcludeSession => Ok(FiltersView { exclude_session: Some(v), ..f }),
        Flag::FilterMode => with_mode(f, v, at),
        Flag::Limit => match count_of(v) {
            Ok(n) => if n > MAX_LIMIT {
                Err(
                    ParseOutcomeView::Message(
                        "--limit "@ + decimal::dec_digits(n as nat) + " exceeds maximum "@ + decimal::dec_digits(
                            MAX_LIMIT as nat,
                        ),
                    ),
                )
            } else {
                Ok(FiltersView { limit: n as usize, ..f })
            },
            Err(e) => Err(e),
        },
        Flag::Format => Ok(FiltersView { format: format_of(v), ..f }),
        _ => Ok(f),
    }
}

fn apply_value(f: &mut Filters, flag: Flag, v: &String, at: &Surroundings) -> (r: Result<
    (),
    ParseOutcome,
>)
    ensures
        step_gives(r, final(f)@, with_value(old(f)@, flag, v@, at@)),
{
    match flag {
        Flag::Cwd => {
            f.cwd = Some(v.clone());
        },
        Flag::Session => {
            f.session = Some(v.clone());
        },
        Flag::Host => {
            f.host = Some(v.clone());
        },
        Flag::Exit => match parse_i32(v.as_str()) {
            Ok(n) => {
                f.exit_eq = Some(n);
            },
            Err(e) => {
                return Err(e);
            },
        },
        Flag::Since => match parse_since(at.now_ms, v.as_str()) {
            Ok(n) => {
                f.since_ms = Some(n);
            },
            Err(e) => {
                return Err(e);
            },
        },
        Flag::Until => match parse_since(at.now_ms, v.as_str()) {
            Ok(n) => {
                f.until_ms = Some(n);
            },
            Err(e) => {
                return Err(e);
            },
        },
        Flag::SinceMs => match parse_i64(v.as_str()) {
            Ok(n) => {
                f.since_ms = Some(n);
            },
            Err(e) => {
                return Err(e);
            },
        },
        Flag::UntilMs => match parse_i64(v.as_str()) {
            Ok(n) => {
                f.until_ms = Some(n);
            },
            Err(e) => {
                return Err(e);
            },
        },
        Flag::Grep => {
            f.grep = Some(v.clone());
        },
        Flag::ExcludeCwd => {
            f.exclude_cwd = Some(v.clone());
        },
        Flag::ExcludeHost => {
            f.exclude_host = Some(v.clone());
        },
        Flag::ExcludeExit => match parse_i32(v.as_str()) {
            Ok(n) => {
                f.exclude_exit = Some(n);
            },
            Err(e) => {
                return Err(e);
            },
        },
        Flag::ExcludeSession => {
            f.exclude_session = Some(v.clone());
        },
        Flag::FilterMode => {
            return apply_filter_mode(f, v.as_str(), at);
        },
        Flag::Limit => match parse_usize(v.as_str()) {
            Ok(n) => {
                if n > MAX_LIMIT {
                    let mut out: String = joined("--limit ", dec_u64(n as u64).as_str());
                    out.push_str(" exceeds maximum ");
                    out.push_str(dec_u64(MAX_LIMIT as u64).as_str());
                    return Err(ParseOutcome::Message(out));
                }
                f.limit = n;
            },
            Err(e) => {
                return Err(e);
            },
        },
        Flag::Format => {
            f.format = parse_format(v.as_str());
        },
        _ => {},
    }
    Ok(())
}

/// The filters after an argument without a value.
pub open spec fn with_plain(
    f: FiltersView,
    flag: Flag,
    arg: Seq<char>,
    at: SurroundingsView,
) -> Result<FiltersView, ParseOutcomeView> {
    match flag {
        Flag::Help => Err(ParseOutcomeView::Help),
        Flag::Here => match at.current_dir {
            Ok(d) => Ok(FiltersView { cwd: Some(d), ..f }),
            Err(m) => Err(ParseOutcomeView::Message(m)),
        },
        Flag::Workspace => match at.workspace_root {
            Ok(d) => Ok(FiltersView { workspace_prefix: Some(d), ..f }),
            Err(m) => Err(ParseOutcomeView::Message(m)),
        },
        Flag::Failed => Ok(FiltersView { failed_only: true, ..f }),
        Flag::Success => Ok(FiltersView { success_only: true, ..f }),
        Flag::Reverse => Ok(FiltersView { reverse: true, ..f }),
        Flag::Unique => Ok(FiltersView { unique: true, ..f }),
        Flag::Unknown => Err(ParseOutcomeView::Message("unknown flag: "@ + arg)),
        Flag::Positional => if f.grep is Some {
            Err(ParseOutcomeView::Message("unexpected positional argument: "@ + arg))
        } else {
            Ok(FiltersView { grep: Some(arg), ..f })
        },
        _ => Ok(f),
    }
}

fn apply_plain(f: &mut Filters, flag: Flag, arg: &String, at: &Surroundings) -> (r: Result<
    (),
    ParseOutcome,
>)
    ensures
        step_gives(r, final(f)@, with_plain(old(f)@, flag, arg@, at@)),
{
    match flag {
        Flag::Help => {
            return Err(ParseOutcome::Help);
        },
        Flag::Here => match &at.current_dir {
            Ok(d) => {
                f.cwd = Some(d.clone());
            },
            Err(m) => {
                return Err(ParseOutcome::Message(m.clone()));
            },
        },
        Flag::Workspace => match &at.workspace_root {
            Ok(d) => {
                f.workspace_prefix = Some(d.clone());
            },
            Err(m) => {
                return Err(ParseOutcome::Message(m.clone()));
            },
        },
        Flag::Failed => {
            f.failed_only = true;
        },
        Flag::Success => {
            f.success_only = true;
        },
        Flag::Reverse => {
            f.reverse = true;
        },
        Flag::Unique => {
            f.unique = true;
        },
        Flag::Unknown => {
            return Err(ParseOutcome::Message(joined("unknown flag: ", arg.as_str())));
        },
        Flag::Positional => {
            if f.grep.is_some() {
                return Err(
                    ParseOutcome::Message(
                        joined("unexpected positional argument: ", arg.as_str()),
                    ),
                );
            }
            f.grep = Some(arg.clone());
        },
        _ => {},
    }
    Ok(())
}

// ── The command line ────────────────────────────────────────────────────────

/// The filters after the arguments from `i` on, starting from `f`.
pub open spec fn filters_from(
    f: FiltersView,
    args: Seq<Seq<char>>,
    i: int,
    at: SurroundingsView,
) -> Result<FiltersView, ParseOutcomeView>
    decreases args.len() - i,
{
    if i >= args.len() {
        Ok(f)
    } else {
        let flag = flag_of(args[i]);
        match value_name_of(flag) {
            Some(name) => if i + 1 < args.len() {
                match with_value(f, flag, args[i + 1], at) {
                    Ok(g) => filters_from(g, args, i + 2, at),
                    Err(e) => Err(e),
                }
            } else {
                Err(ParseOutcomeView::Message(name + " requires a value"@))
            },
            None => match with_plain(f, flag, args[i], at) {
                Ok(g) => filters_from(g, args, i + 1, at),
                Err(e) => Err(e),
            },
        }
    }
}

/// The complaint about filters that exclude each other.
pub open spec fn conflict_of(f: FiltersView) -> Option<Seq<char>> {
    if f.failed_only && f.success_only {
        Some("cannot combine --failed with --success"@)
    } else if f.failed_only && f.exit_eq == Some(0i32) {
        Some("cannot combine --failed with --exit 0"@)
    } else if f.success_only && f.exit_eq is Some && f.exit_eq != Some(0i32) {
        Some("cannot combine --success with --exit non-zero"@)
    } else {
        None
    }
}

/// The filters that a command line asks for, or why it asks for none.
pub open spec fn filters_of(args: Seq<Seq<char>>, at: SurroundingsView) -> Result<
    FiltersView,
    ParseOutcomeView,
> {
    match filters_from(no_filters(DEFAULT_LIMIT), args, 0, at) {
        Err(e) => Err(e),
        Ok(f) => match conflict_of(f) {
            Some(m) => Err(ParseOutcomeView::Message(m)),
            None => Ok(f),
        },
    }
}

/// Reads the command line.
///
/// # Errors
///
/// Help was asked for, a flag is unknown or lacks its value, a value cannot be
/// read, or two filters exclude each other.
pub fn parse_args(args: &Vec<String>, at: &Surroundings) -> (r: Result<Filters, ParseOutcome>)
    ensures
        match r {
            Ok(f) => filters_of(text::views(args@), at@) == Ok::<FiltersView, ParseOutcomeView>(f@),
            Err(e) => filters_of(text::views(args@), at@) == Err::<FiltersView, ParseOutcomeView>(e@),
        },
{
    let mut f: Filters = Filters { limit: DEFAULT_LIMIT, ..Filters::default() };
    let ghost av = text::views(args@);
    let mut i: usize = 0;
    while i < args.len()
        invariant
            av == text::views(args@),
            i <= args.len(),
            filters_from(no_filters(DEFAULT_LIMIT), av, 0, at@) == filters_from(
                f@,
                av,
                i as int,
                at@,
            ),
        decreases args.len() - i,
    {
        let flag: Flag = read_flag(args[i].as_str());
        proof {
            assert(av[i as int] == args@[i as int]@);
        }
        match value_name(flag) {
            Some(name) => {
                if args.len() - i < 2 {
                    return Err(ParseOutcome::Message(joined(name, " requires a value")));
                }
                proof {
                    assert(av[i + 1] == args@[i + 1]@);
                }
                match apply_value(&mut f, flag, &args[i + 1], at) {
                    Ok(_) => {},
                    Err(e) => {
                        return Err(e);
                    },
                }
                i += 2;
            },
            None => {
                match apply_plain(&mut f, flag, &args[i], at) {
                    Ok(_) => {},
                    Err(e) => {
                        return Err(e);
                    },
                }
                i += 1;
            },
        }
    }
    if f.failed_only && f.success_only {
        return Err(ParseOutcome::Message("cannot combine --failed with --success".to_owned()));
    }
    if f.failed_only && is_zero(f.exit_eq) {
        return Err(ParseOutcome::Message("cannot combine --failed with --exit 0".to_owned()));
    }
    if f.success_only && f.exit_eq.is_some() && !is_zero(f.exit_eq) {
        return Err(
            ParseOutcome::Message("cannot combine --success with --exit non-zero".to_owned()),
        );
    }
    Ok(f)
}

fn is_zero(o: Option<i32>) -> (r: bool)
    ensures
        r == (o == Some(0i32)),
{
    match o {
        Some(n) => n == 0,
        None => false,
    }
}

// ── Help ────────────────────────────────────────────────────────────────────

/// What `--help` prints.
pub const HELP: &'static str = "Usage: chevron history [FLAGS] [PATTERN]

Query the chevrond command-lifecycle log.

Filters:
  --cwd PATH               commands run in this cwd (exact match)
  --here                   shortcut for --cwd \"$(pwd)\"
  --session ID             session-id exact match
  --host NAME              hostname exact match
  --exit N                 exit_status == N
  --failed                 exit_status > 0 (still-running rows excluded)
  --success                exit_status == 0
  --since DURATION         within the last DURATION
  --until DURATION         older than DURATION
  --since-ms MS            unix-epoch-ms lower bound
  --until-ms MS            unix-epoch-ms upper bound
  --workspace              limit to the current git work-tree
  --grep PATTERN, -g       substring match against cmd
  PATTERN                  positional shortcut for --grep

Exclusions:
  --exclude-cwd PATH       drop rows with this cwd
  --exclude-host NAME      drop rows with this hostname
  --exclude-exit N         drop rows with this exit status
  --exclude-session ID     drop rows with this session id

Preset combos:
  --filter-mode MODE       global | host | directory | workspace

Display:
  --limit N, -n N          cap rows (default 25, max 10000)
  --reverse, -r            flip the default oldest-at-top order
  --unique, -u             one row per distinct cmd (most recent)
  --format FMT, -f FMT     human (default) | json | cmds | ids | <template>
  -h, --help               this help

Time durations:
  Ns, Nm, Nh, Nd, Nw            seconds/minutes/hours/days/weeks
  \"N <unit> ago\"                e.g. \"3 hours ago\"
  now                           zero ago

Templates:
  Any non-keyword --format value is treated as a template with
  {id}, {cwd}, {cmd}, {exit}, {duration}, {started_at}, {session},
  {host}, {n} substitutions.

Examples:
  chevron history                            last 25 commands
  chevron history --here                     in this directory
  chevron history --failed --since 1d        failures in last day
  chevron history --workspace cargo          'cargo' in this repo
  chevron history -f json | jq ...           machine-readable
  chevron history -f '{cmd}' --unique        unique cmds, one per line
";

/// What `--help` prints.
pub fn help_text() -> (r: String)
    ensures
        r@ == HELP@,
{
    HELP.to_owned()
}

// ── Laws ────────────────────────────────────────────────────────────────────

/// Each name, long or short, asks for its own flag.
pub proof fn law_flag_names()
    ensures
        flag_of("-h"@) == Flag::Help,
        flag_of("--help"@) == Flag::Help,
        flag_of("--cwd"@) == Flag::Cwd,
        flag_of("--here"@) == Flag::Here,
        flag_of("--session"@) == Flag::Session,
        flag_of("--host"@) == Flag::Host,
        flag_of("--exit"@) == Flag::Exit,
        flag_of("--failed"@) == Flag::Failed,
        flag_of("--success"@) == Flag::Success,
        flag_of("--since"@) == Flag::Since,
        flag_of("--until"@) == Flag::Until,
        flag_of("--since-ms"@) == Flag::SinceMs,
        flag_of("--until-ms"@) == Flag::UntilMs,
        flag_of("--workspace"@) == Flag::Workspace,
        flag_of("--grep"@) == Flag::Grep,
        flag_of("-g"@) == Flag::Grep,
        flag_of("--exclude-cwd"@) == Flag::ExcludeCwd,
        flag_of("--exclude-host"@) == Flag::ExcludeHost,
        flag_of("--exclude-exit"@) == Flag::ExcludeExit,
        flag_of("--exclude-session"@) == Flag::ExcludeSession,
        flag_of("--filter-mode"@) == Flag::FilterMode,
        flag_of("--limit"@) == Flag::Limit,
        flag_of("-n"@) == Flag::Limit,
        flag_of("--reverse"@) == Flag::Reverse,
        flag_of("-r"@) == Flag::Reverse,
        flag_of("--unique"@) == Flag::Unique,
        flag_of("-u"@) == Flag::Unique,
        flag_of("--format"@) == Flag::Format,
        flag_of("-f"@) == Flag::Format,
{
    reveal_strlit("-h");
    reveal_strlit("--help");
    reveal_strlit("--cwd");
    reveal_strlit("--here");
    reveal_strlit("--session");
    reveal_strlit("--host");
    reveal_strlit("--exit");
    reveal_strlit("--failed");
    reveal_strlit("--success");
    reveal_strlit("--since");
    reveal_strlit("--until");
    reveal_strlit("--since-ms");
    reveal_strlit("--until-ms");
    reveal_strlit("--workspace");
    reveal_strlit("--grep");
    reveal_strlit("-g");
    reveal_strlit("--exclude-cwd");
    reveal_strlit("--exclude-host");
    reveal_strlit("--exclude-exit");
    reveal_strlit("--exclude-session");
    reveal_strlit("--filter-mode");
    reveal_strlit("--limit");
    reveal_strlit("-n");
    reveal_strlit("--reverse");
    reveal_strlit("-r");
    reveal_strlit("--unique");
    reveal_strlit("-u");
    reveal_strlit("--format");
    reveal_strlit("-f");
    assert("-h"@.len() == 2);
    assert("--help"@.len() == 6);
    assert("--cwd"@.len() == 5);
    assert("--here"@.len() == 6);
    assert("--session"@.len() == 9);
    assert("--host"@.len() == 6);
    assert("--exit"@.len() == 6);
    assert("--failed"@.len() == 8);
    assert("--success"@.len() == 9);
    assert("--since"@.len() == 7);
    assert("--until"@.len() == 7);
    assert("--since-ms"@.len() == 10);
    assert("--until-ms"@.len() == 10);
    assert("--workspace"@.len() == 11);
    assert("--grep"@.len() == 6);
    assert("-g"@.len() == 2);
    assert("--exclude-cwd"@.len() == 13);
    assert("--exclude-host"@.len() == 14);
    assert("--exclude-exit"@.len() == 14);
    assert("--exclude-session"@.len() == 17);
    assert("--filter-mode"@.len() == 13);
    assert("--limit"@.len() == 7);
    assert("-n"@.len() == 2);
    assert("--reverse"@.len() == 9);
    assert("-r"@.len() == 2);
    assert("--unique"@.len() == 8);
    assert("-u"@.len() == 2);
    assert("--format"@.len() == 8);
    assert("-f"@.len() == 2);
    assert("-h"@[1] != "-g"@[1]);
    assert("-h"@[1] != "-n"@[1]);
    assert("-h"@[1] != "-r"@[1]);
    assert("-h"@[1] != "-u"@[1]);
    assert("-h"@[1] != "-f"@[1]);
    assert("--help"@[4] != "--here"@[4]);
    assert("--help"@[3] != "--host"@[3]);
    assert("--help"@[2] != "--exit"@[2]);
    assert("--help"@[2] != "--grep"@[2]);
    assert("--here"@[3] != "--host"@[3]);
    assert("--here"@[2] != "--exit"@[2]);
    assert("--here"@[2] != "--grep"@[2]);
    assert("--session"@[3] != "--success"@[3]);
    assert("--session"@[2] != "--reverse"@[2]);
    assert("--host"@[2] != "--exit"@[2]);
    assert("--host"@[2] != "--grep"@[2]);
    assert("--exit"@[2] != "--grep"@[2]);
    assert("--failed"@[2] != "--unique"@[2]);
    assert("--failed"@[3] != "--format"@[3]);
    assert("--success"@[2] != "--reverse"@[2]);
    assert("--since"@[2] != "--until"@[2]);
    assert("--since"@[2] != "--limit"@[2]);
    assert("--until"@[2] != "--limit"@[2]);
    assert("--since-ms"@[2] != "--until-ms"@[2]);
    assert("-g"@[1] != "-n"@[1]);
    assert("-g"@[1] != "-r"@[1]);
    assert("-g"@[1] != "-u"@[1]);
    assert("-g"@[1] != "-f"@[1]);
    assert("--exclude-cwd"@[2] != "--filter-mode"@[2]);
    assert("--exclude-host"@[10] != "--exclude-exit"@[10]);
    assert("-n"@[1] != "-r"@[1]);
    assert("-n"@[1] != "-u"@[1]);
    assert("-n"@[1] != "-f"@[1]);
    assert("-r"@[1] != "-u"@[1]);
    assert("-r"@[1] != "-f"@[1]);
    assert("--unique"@[2] != "--format"@[2]);
    assert("-u"@[1] != "-f"@[1]);
}

proof fn lemma_shift(f: FiltersView, pre: Seq<Seq<char>>, args: Seq<Seq<char>>, i: int, at: SurroundingsView)
    requires
        0 <= i,
    ensures
        filters_from(f, pre + args, pre.len() + i, at) == filters_from(f, args, i, at),
    decreases args.len() - i,
{
    let all = pre + args;
    if i < args.len() {
        assert(all[pre.len() + i] == args[i]);
        let flag = flag_of(args[i]);
        match value_name_of(flag) {
            Some(name) => {
                if i + 1 < args.len() {
                    assert(all[pre.len() + i + 1] == args[i + 1]);
                    match with_value(f, flag, args[i + 1], at) {
                        Ok(g) => lemma_shift(g, pre, args, i + 2, at),
                        Err(_) => {},
                    }
                }
            },
            None => {
                match with_plain(f, flag, args[i], at) {
                    Ok(g) => lemma_shift(g, pre, args, i + 1, at),
                    Err(_) => {},
                }
            },
        }
    }
}

/// The filters that some arguments leave of others.
pub open spec fn after_args(f: FiltersView, args: Seq<Seq<char>>, at: SurroundingsView) -> Result<
    FiltersView,
    ParseOutcomeView,
> {
    filters_from(f, args, 0, at)
}

proof fn lemma_plain_step(f: FiltersView, a: Seq<char>, rest: Seq<Seq<char>>, at: SurroundingsView)
    requires
        value_name_of(flag_of(a)) is None,
    ensures
        after_args(f, seq![a] + rest, at) == (match with_plain(f, flag_of(a), a, at) {
            Ok(g) => after_args(g, rest, at),
            Err(e) => Err(e),
        }),
{
    assert((seq![a] + rest)[0] == a);
    match with_plain(f, flag_of(a), a, at) {
        Ok(g) => lemma_shift(g, seq![a], rest, 0, at),
        Err(_) => {},
    }
}

proof fn lemma_value_step(
    f: FiltersView,
    a: Seq<char>,
    v: Seq<char>,
    rest: Seq<Seq<char>>,
    at: SurroundingsView,
)
    requires
        value_name_of(flag_of(a)) is Some,
    ensures
        after_args(f, seq![a, v] + rest, at) == (match with_value(f, flag_of(a), v, at) {
            Ok(g) => after_args(g, rest, at),
            Err(e) => Err(e),
        }),
{
    let all = seq![a, v] + rest;
    assert(all[0] == a);
    assert(all[1] == v);
    match with_value(f, flag_of(a), v, at) {
        Ok(g) => lemma_shift(g, seq![a, v], rest, 0, at),
        Err(_) => {},
    }
}

/// A flag that takes a text sets the filter of its name to that text, and no other;
/// what follows is read as if it stood alone. Given twice, the last one counts.
pub proof fn law_text_flags_set_their_filter(
    f: FiltersView,
    v: Seq<char>,
    rest: Seq<Seq<char>>,
    at: SurroundingsView,
)
    ensures
        after_args(f, seq!["--cwd"@, v] + rest, at) == after_args(
            FiltersView { cwd: Some(v), ..f },
            rest,
            at,
        ),
        after_args(f, seq!["--session"@, v] + rest, at) == after_args(
            FiltersView { session: Some(v), ..f },
            rest,
            at,
        ),
        after_args(f, seq!["--host"@, v] + rest, at) == after_args(
            FiltersView { host: Some(v), ..f },
            rest,
            at,
        ),
        after_args(f, seq!["--grep"@, v] + rest, at) == after_args(
            FiltersView { grep: Some(v), ..f },
            rest,
            at,
        ),
        after_args(f, seq!["-g"@, v] + rest, at) == after_args(
            FiltersView { grep: Some(v), ..f },
            rest,
            at,
        ),
        after_args(f, seq!["--exclude-cwd"@, v] + rest, at) == after_args(
            FiltersView { exclude_cwd: Some(v), ..f },
            rest,
            at,
        ),
        after_args(f, seq!["--exclude-host"@, v] + rest, at) == after_args(
            FiltersView { exclude_host: Some(v), ..f },
            rest,
            at,
        ),
        after_args(f, seq!["--exclude-session"@, v] + rest, at) == after_args(
            FiltersView { exclude_session: Some(v), ..f },
            rest,
            at,
        ),
{
    law_flag_names();
    lemma_value_step(f, "--cwd"@, v, rest, at);
    lemma_value_step(f, "--session"@, v, rest, at);
    lemma_value_step(f, "--host"@, v, rest, at);
    lemma_value_step(f, "--grep"@, v, rest, at);
    lemma_value_step(f, "-g"@, v, rest, at);
    lemma_value_step(f, "--exclude-cwd"@, v, rest, at);
    lemma_value_step(f, "--exclude-host"@, v, rest, at);
    lemma_value_step(f, "--exclude-session"@, v, rest, at);
}

/// A flag that takes a number sets the filter of its name to that number, and no other.
pub proof fn law_number_flags_set_their_filter(
    f: FiltersView,
    n: i32,
    ms: i64,
    rest: Seq<Seq<char>>,
    at: SurroundingsView,
)
    ensures
        after_args(f, seq!["--exit"@, decimal::dec_int(n as int)] + rest, at) == after_args(
            FiltersView { exit_eq: Some(n), ..f },
            rest,
            at,
        ),
        after_args(f, seq!["--exclude-exit"@, decimal::dec_int(n as int)] + rest, at) == after_args(
            FiltersView { exclude_exit: Some(n), ..f },
            rest,
            at,
        ),
        after_args(f, seq!["--since-ms"@, decimal::dec_int(ms as int)] + rest, at) == after_args(
            FiltersView { since_ms: Some(ms), ..f },
            rest,
            at,
        ),
        after_args(f, seq!["--until-ms"@, decimal::dec_int(ms as int)] + rest, at) == after_args(
            FiltersView { until_ms: Some(ms), ..f },
            rest,
            at,
        ),
{
    law_flag_names();
    decimal::law_parse_signed_reads_back(n as int, i32::MIN as int, i32::MAX as int);
    decimal::law_parse_signed_reads_back(ms as int, i64::MIN as int, i64::MAX as int);
    lemma_value_step(f, "--exit"@, decimal::dec_int(n as int), rest, at);
    lemma_value_step(f, "--exclude-exit"@, decimal::dec_int(n as int), rest, at);
    lemma_value_step(f, "--since-ms"@, decimal::dec_int(ms as int), rest, at);
    lemma_value_step(f, "--until-ms"@, decimal::dec_int(ms as int), rest, at);
}

/// A length of time before now is the earliest moment for `--since` and the latest for
/// `--until`; one that cannot be read is a complaint for both.
pub proof fn law_since_and_until(
    f: FiltersView,
    v: Seq<char>,
    rest: Seq<Seq<char>>,
    at: SurroundingsView,
)
    ensures
        duration::since_of(at.now_ms, v) matches Ok(t) ==> after_args(f, seq!["--since"@, v] + rest, at)
            == after_args(FiltersView { since_ms: Some(t as i64), ..f }, rest, at) && after_args(
            f,
            seq!["--until"@, v] + rest,
            at,
        ) == after_args(FiltersView { until_ms: Some(t as i64), ..f }, rest, at),
        duration::since_of(at.now_ms, v) is Err ==> after_args(f, seq!["--since"@, v] + rest, at) is Err
            && after_args(f, seq!["--until"@, v] + rest, at) is Err,
{
    law_flag_names();
    lemma_value_step(f, "--since"@, v, rest, at);
    lemma_value_step(f, "--until"@, v, rest, at);
}

/// A switch turns on what its name says, and nothing else.
pub proof fn law_switches_turn_on(f: FiltersView, rest: Seq<Seq<char>>, at: SurroundingsView)
    ensures
        after_args(f, seq!["--failed"@] + rest, at) == after_args(
            FiltersView { failed_only: true, ..f },
            rest,
            at,
        ),
        after_args(f, seq!["--success"@] + rest, at) == after_args(
            FiltersView { success_only: true, ..f },
            rest,
            at,
        ),
        after_args(f, seq!["--reverse"@] + rest, at) == after_args(
            FiltersView { reverse: true, ..f },
            rest,
            at,
        ),
        after_args(f, seq!["-r"@] + rest, at) == after_args(FiltersView { reverse: true, ..f }, rest, at),
        after_args(f, seq!["--unique"@] + rest, at) == after_args(FiltersView { unique: true, ..f }, rest, at),
        after_args(f, seq!["-u"@] + rest, at) == after_args(FiltersView { unique: true, ..f }, rest, at),
{
    law_flag_names();
    lemma_plain_step(f, "--failed"@, rest, at);
    lemma_plain_step(f, "--success"@, rest, at);
    lemma_plain_step(f, "--reverse"@, rest, at);
    lemma_plain_step(f, "-r"@, rest, at);
    lemma_plain_step(f, "--unique"@, rest, at);
    lemma_plain_step(f, "-u"@, rest, at);
}

/// `--here` asks for the directory one is in, `--workspace` for the work tree around
/// it, and the presets `directory`, `workspace`, `host` and `global` for the same, for
/// this machine, and for nothing. Where the place is not known, that is a complaint.
pub proof fn law_places_come_from_the_surroundings(
    f: FiltersView,
    rest: Seq<Seq<char>>,
    at: SurroundingsView,
)
    ensures
        at.current_dir matches Ok(d) ==> after_args(f, seq!["--here"@] + rest, at) == after_args(
            FiltersView { cwd: Some(d), ..f },
            rest,
            at,
        ) && after_args(f, seq!["--filter-mode"@, "directory"@] + rest, at) == after_args(
            FiltersView { cwd: Some(d), ..f },
            rest,
            at,
        ),
        at.workspace_root matches Ok(d) ==> after_args(f, seq!["--workspace"@] + rest, at) == after_args(
            FiltersView { workspace_prefix: Some(d), ..f },
            rest,
            at,
        ) && after_args(f, seq!["--filter-mode"@, "workspace"@] + rest, at) == after_args(
            FiltersView { workspace_prefix: Some(d), ..f },
            rest,
            at,
        ),
        after_args(f, seq!["--filter-mode"@, "host"@] + rest, at) == after_args(
            FiltersView { host: Some(at.hostname), ..f },
            rest,
            at,
        ),
        after_args(f, seq!["--filter-mode"@, "global"@] + rest, at) == after_args(f, rest, at),
        at.current_dir matches Err(m) ==> after_args(f, seq!["--here"@] + rest, at) == Err::<
            FiltersView,
            ParseOutcomeView,
        >(ParseOutcomeView::Message(m)),
        at.workspace_root matches Err(m) ==> after_args(f, seq!["--workspace"@] + rest, at) == Err::<
            FiltersView,
            ParseOutcomeView,
        >(ParseOutcomeView::Message(m)),
{
    law_flag_names();
    reveal_strlit("global");
    reveal_strlit("host");
    reveal_strlit("directory");
    reveal_strlit("workspace");
    assert("global"@.len() == 6 && "host"@.len() == 4);
    assert("directory"@[0] != "workspace"@[0]);
    lemma_plain_step(f, "--here"@, rest, at);
    lemma_plain_step(f, "--workspace"@, rest, at);
    lemma_value_step(f, "--filter-mode"@, "global"@, rest, at);
    lemma_value_step(f, "--filter-mode"@, "host"@, rest, at);
    lemma_value_step(f, "--filter-mode"@, "directory"@, rest, at);
    lemma_value_step(f, "--filter-mode"@, "workspace"@, rest, at);
}

/// At most ten thousand rows can be asked for, and 25 come where no number is given.
pub proof fn law_limit(f: FiltersView, n: usize, rest: Seq<Seq<char>>, at: SurroundingsView)
    ensures
        n <= 10_000 ==> after_args(f, seq!["--limit"@, decimal::dec_digits(n as nat)] + rest, at)
            == after_args(FiltersView { limit: n, ..f }, rest, at) && after_args(
            f,
            seq!["-n"@, decimal::dec_digits(n as nat)] + rest,
            at,
        ) == after_args(FiltersView { limit: n, ..f }, rest, at),
        n > 10_000 ==> after_args(f, seq!["--limit"@, decimal::dec_digits(n as nat)] + rest, at) is Err,
        filters_of(Seq::empty(), at) == Ok::<FiltersView, ParseOutcomeView>(no_filters(25)),
{
    law_flag_names();
    decimal::law_parse_unsigned_reads_back(n as nat, usize::MAX as nat);
    lemma_value_step(f, "--limit"@, decimal::dec_digits(n as nat), rest, at);
    lemma_value_step(f, "-n"@, decimal::dec_digits(n as nat), rest, at);
}

/// The four keywords name their own forms, and every other name is a template.
pub proof fn law_formats(f: FiltersView, v: Seq<char>, rest: Seq<Seq<char>>, at: SurroundingsView)
    ensures
        format_of(v) is Human <==> v == "human"@,
        format_of(v) is Json <==> v == "json"@,
        format_of(v) is Cmds <==> v == "cmds"@,
        format_of(v) is Ids <==> v == "ids"@,
        format_of(v) matches FormatView::Template(t) ==> t == v,
        after_args(f, seq!["--format"@, v] + rest, at) == after_args(
            FiltersView { format: format_of(v), ..f },
            rest,
            at,
        ),
        after_args(f, seq!["-f"@, v] + rest, at) == after_args(
            FiltersView { format: format_of(v), ..f },
            rest,
            at,
        ),
{
    law_flag_names();
    reveal_strlit("human");
    reveal_strlit("json");
    reveal_strlit("cmds");
    reveal_strlit("ids");
    assert("human"@.len() == 5 && "ids"@.len() == 3);
    assert("json"@[0] != "cmds"@[0]);
    lemma_value_step(f, "--format"@, v, rest, at);
    lemma_value_step(f, "-f"@, v, rest, at);
}

/// A word that is no flag is a pattern to search for; a second pattern is a complaint,
/// as is a flag that is not known, and one whose value is missing.
pub proof fn law_other_words(f: FiltersView, word: Seq<char>, rest: Seq<Seq<char>>, at: SurroundingsView)
    ensures
        (word.len() == 0 || word[0] != '-') && f.grep is None ==> after_args(f, seq![word] + rest, at)
            == after_args(FiltersView { grep: Some(word), ..f }, rest, at),
        (word.len() == 0 || word[0] != '-') && f.grep is Some ==> after_args(f, seq![word] + rest, at) is Err,
        flag_of(word) is Unknown ==> after_args(f, seq![word] + rest, at) is Err,
        value_name_of(flag_of(word)) is Some ==> after_args(f, seq![word], at) is Err,
        after_args(f, seq!["--help"@] + rest, at) == Err::<FiltersView, ParseOutcomeView>(
            ParseOutcomeView::Help,
        ),
{
    law_flag_names();
    lemma_plain_step(f, "--help"@, rest, at);
    if word.len() == 0 || word[0] != '-' {
        reveal_strlit("-h");
        reveal_strlit("--help");
        reveal_strlit("--cwd");
        reveal_strlit("--here");
        reveal_strlit("--session");
        reveal_strlit("--host");
        reveal_strlit("--exit");
        reveal_strlit("--failed");
        reveal_strlit("--success");
        reveal_strlit("--since");
        reveal_strlit("--until");
        reveal_strlit("--since-ms");
        reveal_strlit("--until-ms");
        reveal_strlit("--workspace");
        reveal_strlit("--grep");
        reveal_strlit("-g");
        reveal_strlit("--exclude-cwd");
        reveal_strlit("--exclude-host");
        reveal_strlit("--exclude-exit");
        reveal_strlit("--exclude-session");
        reveal_strlit("--filter-mode");
        reveal_strlit("--limit");
        reveal_strlit("-n");
        reveal_strlit("--reverse");
        reveal_strlit("-r");
        reveal_strlit("--unique");
        reveal_strlit("-u");
        reveal_strlit("--format");
        reveal_strlit("-f");
        assert("-h"@[0] == '-');
        assert("--help"@[0] == '-');
        assert("--cwd"@[0] == '-');
        assert("--here"@[0] == '-');
        assert("--session"@[0] == '-');
        assert("--host"@[0] == '-');
        assert("--exit"@[0] == '-');
        assert("--failed"@[0] == '-');
        assert("--success"@[0] == '-');
        assert("--since"@[0] == '-');
        assert("--until"@[0] == '-');
        assert("--since-ms"@[0] == '-');
        assert("--until-ms"@[0] == '-');
        assert("--workspace"@[0] == '-');
        assert("--grep"@[0] == '-');
        assert("-g"@[0] == '-');
        assert("--exclude-cwd"@[0] == '-');
        assert("--exclude-host"@[0] == '-');
        assert("--exclude-exit"@[0] == '-');
        assert("--exclude-session"@[0] == '-');
        assert("--filter-mode"@[0] == '-');
        assert("--limit"@[0] == '-');
        assert("-n"@[0] == '-');
        assert("--reverse"@[0] == '-');
        assert("-r"@[0] == '-');
        assert("--unique"@[0] == '-');
        assert("-u"@[0] == '-');
        assert("--format"@[0] == '-');
        assert("-f"@[0] == '-');
        assert(flag_of(word) is Positional);
        lemma_plain_step(f, word, rest, at);
    }
    if flag_of(word) is Unknown {
        lemma_plain_step(f, word, rest, at);
    }
    assert(seq![word][0] == word);
}

/// Filters that no row could satisfy together are refused: only failures with only
/// successes, only failures with the exit status 0, and only successes with another.
pub proof fn law_conflicts_are_refused(args: Seq<Seq<char>>, at: SurroundingsView)
    ensures
        filters_of(args, at) matches Ok(f) ==> {
            &&& !(f.failed_only && f.success_only)
            &&& !(f.failed_only && f.exit_eq == Some(0i32))
            &&& f.success_only ==> f.exit_eq is None || f.exit_eq == Some(0i32)
            &&& after_args(no_filters(25), args, at) == Ok::<FiltersView, ParseOutcomeView>(f)
        },
        after_args(no_filters(25), args, at) matches Ok(f) ==> (filters_of(args, at) is Err ==> {
            ||| f.failed_only && f.success_only
            ||| f.failed_only && f.exit_eq == Some(0i32)
            ||| f.success_only && f.exit_eq is Some && f.exit_eq != Some(0i32)
        }),
{
}

/// A number that is written out is read as that number, and only a text that is no
/// number in range is refused.
pub proof fn law_numbers_read_back(n: int, min: int, max: int, word: Seq<char>)
    requires
        min <= n <= max,
        min <= 0 <= max,
    ensures
        integer_of(decimal::dec_int(n), min, max) == Ok::<int, ParseOutcomeView>(n),
        integer_of(word, min, max) matches Ok(m) ==> min <= m <= max,
        integer_of(word, min, max) matches Err(e) ==> e is Message,
{
    decimal::law_parse_signed_reads_back(n, min, max);
}

} // verus!
