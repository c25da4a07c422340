//! What the doctor says of the live prompt and of the daemon behind it.

use vstd::prelude::*;
use crate::config;
use crate::config::ShellConfig;
use crate::daemon::proto::{Response, PROTO_VERSION};
use crate::decimal;
use crate::decimal::push_u64;
use crate::doctor::checks::as_opt;
use crate::health::check;
use crate::health::check::{Check, CheckView};
use crate::paths;
use crate::paths::file_name;
use crate::text;
use crate::text::{byte_len_of, chars_of, joined, owned, str_eq};

verus! {

// ── Settings ────────────────────────────────────────────────────────────────

/// What came of reading the settings.
#[derive(Debug, Clone, Copy)]
pub enum ConfigRead {
    Parsed(ShellConfig),
    /// The file is not valid.
    Invalid,
    /// There is no file.
    Missing,
    /// The file cannot be read.
    Unreadable,
}

/// The settings in force.
pub open spec fn shell_config_of(read: ConfigRead) -> ShellConfig {
    match read {
        ConfigRead::Parsed(c) => c,
        _ => config::default_shell(),
    }
}

/// What reading the settings says. Nothing of what the file holds is told.
pub open spec fn live_config_of(path: Seq<char>, read: ConfigRead) -> CheckView {
    let name = "live_config"@;
    let label = "live config"@;
    match read {
        ConfigRead::Parsed(_) => check::info_of(name, label, path),
        ConfigRead::Invalid => check::warn_of(
            name,
            label,
            "invalid config at "@ + path + "; using defaults"@,
            "fix the TOML configuration; environment overrides still take precedence"@,
        ),
        ConfigRead::Missing => check::info_of(name, label, path + " not present; built-in defaults"@),
        ConfigRead::Unreadable => check::warn_of(
            name,
            label,
            "cannot read "@ + path + "; using defaults"@,
            "check the configuration file permissions"@,
        ),
    }
}

/// The settings in force, and what reading them says.
pub fn load_shell_config(path: &str, read: ConfigRead) -> (r: (ShellConfig, Check))
    ensures
        r.0 == shell_config_of(read),
        r.1@ == live_config_of(path@, read),
{
    match read {
        ConfigRead::Parsed(c) => (c, Check::info("live_config", "live config", path)),
        ConfigRead::Invalid => {
            let mut value: String = joined("invalid config at ", path);
            value.push_str("; using defaults");
            (
                ShellConfig::default(),
                Check::warn(
                    "live_config",
                    "live config",
                    value.as_str(),
                    "fix the TOML configuration; environment overrides still take precedence",
                ),
            )
        },
        ConfigRead::Missing => {
            let value: String = joined(path, " not present; built-in defaults");
            (ShellConfig::default(), Check::info("live_config", "live config", value.as_str()))
        },
        ConfigRead::Unreadable => {
            let mut value: String = joined("cannot read ", path);
            value.push_str("; using defaults");
            (
                ShellConfig::default(),
                Check::warn(
                    "live_config",
                    "live config",
                    value.as_str(),
                    "check the configuration file permissions",
                ),
            )
        },
    }
}

/// Whether the prompt is live: what the environment says goes before the
/// settings, and all but `0` means yes.
pub open spec fn live_enabled_of(config: ShellConfig, value: Option<Seq<char>>) -> bool {
    match value {
        Some(v) => v != "0"@,
        None => config.live,
    }
}

/// Whether the prompt is live.
pub fn live_enabled(config: &ShellConfig, value: Option<&str>) -> (r: bool)
    ensures
        r == live_enabled_of(*config, text::opt_str_view(value)),
{
    match value {
        Some(v) => !str_eq(v, "0"),
        None => config.live,
    }
}

/// What is said of a live prompt.
pub open spec fn live_summary(config: ShellConfig, value: Option<Seq<char>>) -> Seq<char> {
    let state = if live_enabled_of(config, value) {
        "enabled"@
    } else {
        "disabled"@
    };
    let source = if value is Some {
        "inherited CHEVRON_LIVE"@
    } else {
        "config/default for the next shell initialization"@
    };
    state + " ("@ + source + ")"@
}

/// What the settings and the environment say of a live prompt.
pub open spec fn live_of(config: ShellConfig, value: Option<Seq<char>>, zsh: bool) -> CheckView {
    let name = "live_prompt"@;
    let label = "live prompt"@;
    let summary = live_summary(config, value);
    if !zsh {
        check::info_hint_of(
            name,
            label,
            summary,
            "live redraws are implemented for zsh; SHELL identifies the login shell, not necessarily the current process"@,
        )
    } else if value is Some && value->0 != "0"@ && value->0 != "1"@ {
        check::warn_of(
            name,
            label,
            summary,
            "use CHEVRON_LIVE=0 or 1; the shell treats any value other than 0 as enabled"@,
        )
    } else if live_enabled_of(config, value) {
        check::info_hint_of(
            name,
            label,
            summary,
            "configuration only: this does not prove a subscriber is attached; inspect daemon connection below"@,
        )
    } else {
        check::info_hint_of(
            name,
            label,
            summary,
            "live redraws are intentionally off; normal prompt rendering still works"@,
        )
    }
}

/// What the settings and the environment say of a live prompt.
pub fn live_check(config: &ShellConfig, value: Option<&str>, zsh: bool) -> (r: Check)
    ensures
        r@ == live_of(*config, text::opt_str_view(value), zsh),
{
    let enabled: bool = live_enabled(config, value);
    let mut summary: String = owned(
        if enabled {
            "enabled"
        } else {
            "disabled"
        },
    );
    summary.push_str(" (");
    summary.push_str(
        if value.is_some() {
            "inherited CHEVRON_LIVE"
        } else {
            "config/default for the next shell initialization"
        },
    );
    summary.push_str(")");
    if !zsh {
        return Check::info_hint(
            "live_prompt",
            "live prompt",
            summary.as_str(),
            "live redraws are implemented for zsh; SHELL identifies the login shell, not necessarily the current process",
        );
    }
    if let Some(v) = value {
        if !str_eq(v, "0") && !str_eq(v, "1") {
            return Check::warn(
                "live_prompt",
                "live prompt",
                summary.as_str(),
                "use CHEVRON_LIVE=0 or 1; the shell treats any value other than 0 as enabled",
            );
        }
    }
    if enabled {
        Check::info_hint(
            "live_prompt",
            "live prompt",
            summary.as_str(),
            "configuration only: this does not prove a subscriber is attached; inspect daemon connection below",
        )
    } else {
        Check::info_hint(
            "live_prompt",
            "live prompt",
            summary.as_str(),
            "live redraws are intentionally off; normal prompt rendering still works",
        )
    }
}

/// What the scope of a live prompt says.
pub open spec fn scope_of(scope: Option<Seq<char>>) -> CheckView {
    let name = "live_scope"@;
    let label = "live scope"@;
    if scope is None || scope->0 == "cwd"@ {
        check::info_of(name, label, "cwd: events from the current directory/repository"@)
    } else if scope->0 == "all"@ {
        check::info_hint_of(
            name,
            label,
            "all: events from every repository"@,
            "use CHEVRON_LIVE_SCOPE=cwd to avoid unrelated repository redraws"@,
        )
    } else {
        check::warn_of(
            name,
            label,
            "unrecognized scope; shell uses cwd behavior"@,
            "set CHEVRON_LIVE_SCOPE to cwd or all"@,
        )
    }
}

/// What the scope of a live prompt says.
pub fn scope_check(scope: Option<&str>) -> (r: Check)
    ensures
        r@ == scope_of(text::opt_str_view(scope)),
{
    if let Some(s) = scope {
        if str_eq(s, "cwd") {
        } else if str_eq(s, "all") {
            return Check::info_hint(
                "live_scope",
                "live scope",
                "all: events from every repository",
                "use CHEVRON_LIVE_SCOPE=cwd to avoid unrelated repository redraws",
            );
        } else {
            return Check::warn(
                "live_scope",
                "live scope",
                "unrecognized scope; shell uses cwd behavior",
                "set CHEVRON_LIVE_SCOPE to cwd or all",
            );
        }
    }
    Check::info("live_scope", "live scope", "cwd: events from the current directory/repository")
}

/// Whether a shell's path is one of zsh.
pub fn is_zsh(shell: &str) -> (r: bool)
    ensures
        r == (paths::file_name_of(shell@) == Some("zsh"@)),
{
    match file_name(shell) {
        Some(name) => str_eq(name.as_str(), "zsh"),
        None => false,
    }
}

/// What is said where the daemon is not to be asked.
pub fn daemon_disabled_check() -> (r: Check)
    ensures
        r@ == check::info_hint_of(
            "daemon_connection"@,
            "daemon connection"@,
            "daemon access disabled by CHEVRON_NO_DAEMON"@,
            "unset CHEVRON_NO_DAEMON to use daemon caching and live updates"@,
        ),
{
    Check::info_hint(
        "daemon_connection",
        "daemon connection",
        "daemon access disabled by CHEVRON_NO_DAEMON",
        "unset CHEVRON_NO_DAEMON to use daemon caching and live updates",
    )
}

// ── The daemon ──────────────────────────────────────────────────────────────

/// What a daemon says of itself.
#[derive(Debug, Clone)]
pub struct DaemonVersion {
    pub binary: String,
    pub proto: u32,
    pub schema: String,
}

/// Why a daemon could not be asked.
#[derive(Debug, Clone)]
pub enum Failure {
    /// There is no socket.
    NotFound,
    /// Nothing listens at the socket.
    Refused,
    /// The socket timed out.
    TimedOut,
    /// The socket failed in another way, named here.
    Io(String),
    /// It speaks another protocol.
    Protocol,
    InvalidReply,
    /// It took too long in all.
    Timeout,
}

/// The length that a reply may have, with its line ending.
pub const MAX_REPLY: usize = 4096;

/// Whether a reply is complete: one line of bounded length.
pub open spec fn is_complete(text: Seq<char>) -> bool {
    text::byte_len(text) <= MAX_REPLY && text.len() > 0 && text.last() == '\n'
}

/// Whether a reply is complete.
pub fn reply_complete(text: &str) -> (r: bool)
    ensures
        r == is_complete(text@),
{
    let v: Vec<char> = chars_of(text);
    byte_len_of(text) <= MAX_REPLY && v.len() > 0 && v[v.len() - 1] == '\n'
}

/// Whether a daemon may be asked more, after its first reply.
pub fn hello_accepted(reply: &Response) -> (r: Result<(), Failure>)
    ensures
        match *reply {
            Response::Hello(v) => if v == PROTO_VERSION {
                r is Ok
            } else {
                r matches Err(Failure::Protocol)
            },
            _ => r matches Err(Failure::InvalidReply),
        },
{
    match reply {
        Response::Hello(v) => {
            if *v == PROTO_VERSION {
                Ok(())
            } else {
                Err(Failure::Protocol)
            }
        },
        _ => Err(Failure::InvalidReply),
    }
}

/// What to do about a daemon of another version.
pub open spec fn restart_hint() -> Seq<char> {
    "run `chevron daemon stop`, then `chevron daemon start` to use the installed binary"@
}

/// What a daemon said of itself, in a line.
pub open spec fn version_line(path: Seq<char>, v: DaemonVersion, ms: Seq<char>) -> Seq<char> {
    path + ": binary "@ + v.binary@ + ", protocol "@ + decimal::dec_digits(v.proto as nat) + ", schema "@
        + v.schema@ + "; "@ + ms + " ms"@
}

/// What a daemon's version says: of another protocol or schema it is of no use,
/// of another binary it is old.
pub open spec fn version_of(
    path: Seq<char>,
    v: DaemonVersion,
    ms: Seq<char>,
    schema: Seq<char>,
    cli: Seq<char>,
) -> CheckView {
    let name = "daemon_connection"@;
    let label = "daemon connection"@;
    let value = version_line(path, v, ms);
    if v.proto != PROTO_VERSION || v.schema@ != schema {
        check::critical_of(name, label, value, restart_hint())
    } else if v.binary@ != cli {
        check::warn_of(name, label, value, "CLI is "@ + cli + "; "@ + restart_hint())
    } else {
        check::ok_of(name, label, value)
    }
}

/// What a daemon's version says. `ms` is how long it took to tell, `schema` and
/// `cli` are this program's own.
pub fn version_check(path: &str, v: &DaemonVersion, ms: &str, schema: &str, cli: &str) -> (r: Check)
    ensures
        r@ == version_of(path@, *v, ms@, schema@, cli@),
{
    let mut value: String = joined(path, ": binary ");
    value.push_str(v.binary.as_str());
    value.push_str(", protocol ");
    push_u64(&mut value, v.proto as u64);
    value.push_str(", schema ");
    value.push_str(v.schema.as_str());
    value.push_str("; ");
    value.push_str(ms);
    value.push_str(" ms");
    if v.proto != PROTO_VERSION || !str_eq(v.schema.as_str(), schema) {
        Check::critical(
            "daemon_connection",
            "daemon connection",
            value.as_str(),
            "run `chevron daemon stop`, then `chevron daemon start` to use the installed binary",
        )
    } else if !str_eq(v.binary.as_str(), cli) {
        let mut hint: String = joined("CLI is ", cli);
        hint.push_str("; ");
        hint.push_str("run `chevron daemon stop`, then `chevron daemon start` to use the installed binary");
        Check::warn("daemon_connection", "daemon connection", value.as_str(), hint.as_str())
    } else {
        Check::ok("daemon_connection", "daemon connection", value.as_str())
    }
}

/// What a failure to ask says. A daemon that nobody counts on need not run.
pub open spec fn failure_of(path: Seq<char>, f: Failure, expected: bool) -> CheckView {
    let name = "daemon_connection"@;
    let label = "daemon connection"@;
    match f {
        Failure::NotFound => {
            let value = "not running ("@ + path + " missing)"@;
            if expected {
                check::warn_of(
                    name,
                    label,
                    value,
                    "start it with `chevron daemon start` to receive live events"@,
                )
            } else {
                check::info_of(name, label, value)
            }
        },
        Failure::Refused => check::warn_of(
            name,
            label,
            "stale socket or no listener at "@ + path,
            restart_hint(),
        ),
        Failure::Protocol => check::critical_of(name, label, "protocol mismatch"@, restart_hint()),
        Failure::Timeout | Failure::TimedOut => check::warn_of(
            name,
            label,
            "no complete response within 500 ms"@,
            "daemon may be overloaded or stuck; check `chevron daemon status`"@,
        ),
        Failure::InvalidReply => check::warn_of(
            name,
            label,
            "invalid daemon response"@,
            restart_hint(),
        ),
        Failure::Io(kind) => check::warn_of(
            name,
            label,
            "cannot query "@ + path + ": "@ + kind@,
            "check socket directory permissions and CHEVRON_SOCKET_DIR"@,
        ),
    }
}

/// What a failure to ask says. `expected` tells whether the prompt counts on a
/// daemon.
pub fn failure_check(path: &str, f: &Failure, expected: bool) -> (r: Check)
    ensures
        r@ == failure_of(path@, *f, expected),
{
    match f {
        Failure::NotFound => {
            let mut value: String = joined("not running (", path);
            value.push_str(" missing)");
            if expected {
                Check::warn(
                    "daemon_connection",
                    "daemon connection",
                    value.as_str(),
                    "start it with `chevron daemon start` to receive live events",
                )
            } else {
                Check::info("daemon_connection", "daemon connection", value.as_str())
            }
        },
        Failure::Refused => {
            let value: String = joined("stale socket or no listener at ", path);
            Check::warn(
                "daemon_connection",
                "daemon connection",
                value.as_str(),
                "run `chevron daemon stop`, then `chevron daemon start` to use the installed binary",
            )
        },
        Failure::Protocol => Check::critical(
            "daemon_connection",
            "daemon connection",
            "protocol mismatch",
            "run `chevron daemon stop`, then `chevron daemon start` to use the installed binary",
        ),
        Failure::Timeout | Failure::TimedOut => Check::warn(
            "daemon_connection",
            "daemon connection",
            "no complete response within 500 ms",
            "daemon may be overloaded or stuck; check `chevron daemon status`",
        ),
        Failure::InvalidReply => Check::warn(
            "daemon_connection",
            "daemon connection",
            "invalid daemon response",
            "run `chevron daemon stop`, then `chevron daemon start` to use the installed binary",
        ),
        Failure::Io(kind) => {
            let mut value: String = joined("cannot query ", path);
            value.push_str(": ");
            value.push_str(kind.as_str());
            Check::warn(
                "daemon_connection",
                "daemon connection",
                value.as_str(),
                "check socket directory permissions and CHEVRON_SOCKET_DIR",
            )
        },
    }
}

/// What came of asking a daemon for its version: what it said and how many
/// milliseconds that took, with one decimal.
#[derive(Debug)]
pub enum ProbeOutcome {
    Version { version: DaemonVersion, ms: String },
    Failed(Failure),
}

/// What came of asking a daemon for its version says.
pub fn daemon_check(path: &str, expected: bool, outcome: &ProbeOutcome, schema: &str, cli: &str) -> (r: Check)
    ensures
        r@ == (match *outcome {
            ProbeOutcome::Version { version, ms } => version_of(path@, version, ms@, schema@, cli@),
            ProbeOutcome::Failed(f) => failure_of(path@, f, expected),
        }),
{
    match outcome {
        ProbeOutcome::Version { version, ms } => version_check(path, version, ms.as_str(), schema, cli),
        ProbeOutcome::Failed(f) => failure_check(path, f, expected),
    }
}

// ── The section ─────────────────────────────────────────────────────────────

/// What the section on the live prompt reads.
#[derive(Debug)]
pub struct LiveState {
    /// Where the settings are.
    pub path: String,
    pub read: ConfigRead,
    /// `CHEVRON_LIVE`.
    pub live: Option<String>,
    /// `CHEVRON_LIVE_SCOPE`.
    pub scope: Option<String>,
    /// `SHELL`, or nothing.
    pub shell: String,
    /// The socket, and what came of asking; none where the daemon is not to be asked.
    pub daemon: Option<(String, ProbeOutcome)>,
}

/// What the daemon says; it is expected to run where the prompt is live.
pub open spec fn connection_of(s: LiveState, schema: Seq<char>, cli: Seq<char>) -> CheckView {
    let zsh = paths::file_name_of(s.shell@) == Some("zsh"@);
    let expected = live_enabled_of(shell_config_of(s.read), text::opt_view(s.live)) && zsh;
    match s.daemon {
        None => check::info_hint_of(
            "daemon_connection"@,
            "daemon connection"@,
            "daemon access disabled by CHEVRON_NO_DAEMON"@,
            "unset CHEVRON_NO_DAEMON to use daemon caching and live updates"@,
        ),
        Some((path, ProbeOutcome::Version { version, ms })) => version_of(path@, version, ms@, schema, cli),
        Some((path, ProbeOutcome::Failed(f))) => failure_of(path@, f, expected),
    }
}

/// What is found of the live prompt: the settings, whether it is on, what it listens
/// to, and the daemon.
pub fn section(s: LiveState, schema: &str, cli: &str) -> (r: Vec<Check>)
    ensures
        check::check_views(r@) == seq![
            live_config_of(s.path@, s.read),
            live_of(
                shell_config_of(s.read),
                text::opt_view(s.live),
                paths::file_name_of(s.shell@) == Some("zsh"@),
            ),
            scope_of(text::opt_view(s.scope)),
            connection_of(s, schema@, cli@),
        ],
{
    let zsh: bool = is_zsh(s.shell.as_str());
    let (config, told): (ShellConfig, Check) = load_shell_config(s.path.as_str(), s.read);
    let live: Option<&str> = as_opt(&s.live);
    let daemon: Check = match &s.daemon {
        None => daemon_disabled_check(),
        Some((path, outcome)) => daemon_check(
            path.as_str(),
            live_enabled(&config, live) && zsh,
            outcome,
            schema,
            cli,
        ),
    };
    let v: Vec<Check> = vec![told, live_check(&config, live, zsh), scope_check(as_opt(&s.scope)), daemon];
    proof {
        assert(check::check_views(v@) =~= seq![v@[0]@, v@[1]@, v@[2]@, v@[3]@]);
    }
    v
}

// ── Laws ────────────────────────────────────────────────────────────────────

/// A daemon is fine just where it speaks this protocol, keeps this schema and is this
/// release; another release is a warning, and another protocol or schema is critical.
pub proof fn law_version_decides(
    path: Seq<char>,
    v: DaemonVersion,
    ms: Seq<char>,
    schema: Seq<char>,
    cli: Seq<char>,
)
    ensures
        ({
            let c = version_of(path, v, ms, schema, cli);
            let fits = v.proto == PROTO_VERSION && v.schema@ == schema;
            &&& c.severity is Critical <==> !fits
            &&& c.severity is Warn <==> fits && v.binary@ != cli
            &&& c.severity is Okay <==> fits && v.binary@ == cli
            &&& c.hint is Some <==> !(c.severity is Okay)
        }),
{
}

/// What the daemon says is shown in this order: its release, its protocol, its schema
/// and the time it took.
pub proof fn law_version_is_shown(path: Seq<char>, v: DaemonVersion, ms: Seq<char>)
    ensures
        ({
            let said = version_line(path, v, ms);
            let d = decimal::dec_digits(v.proto as nat);
            let a = path.len() as int + 9;
            let b = a + v.binary@.len() as int + 11;
            let c = b + d.len() as int + 9;
            let e = c + v.schema@.len() as int + 2;
            &&& text::starts_with_of(said, path)
            &&& text::occurs_at(said, v.binary@, a)
            &&& text::occurs_at(said, d, b)
            &&& text::occurs_at(said, v.schema@, c)
            &&& text::occurs_at(said, ms, e)
        }),
{
    reveal_strlit(": binary ");
    reveal_strlit(", protocol ");
    reveal_strlit(", schema ");
    reveal_strlit("; ");
    let said = version_line(path, v, ms);
    let d = decimal::dec_digits(v.proto as nat);
    let a = path.len() as int + 9;
    let b = a + v.binary@.len() as int + 11;
    let c = b + d.len() as int + 9;
    let e = c + v.schema@.len() as int + 2;
    assert(said.subrange(0, path.len() as int) =~= path);
    assert(said.subrange(a, a + v.binary@.len()) =~= v.binary@);
    assert(said.subrange(b, b + d.len()) =~= d);
    assert(said.subrange(c, c + v.schema@.len()) =~= v.schema@);
    assert(said.subrange(e, e + ms.len()) =~= ms);
}

/// A daemon that is not there matters only where one is expected; one that speaks
/// another protocol is critical; every other failure is a warning.
pub proof fn law_failure_decides(path: Seq<char>, f: Failure, expected: bool)
    ensures
        failure_of(path, f, expected).severity is Critical <==> f is Protocol,
        failure_of(path, f, expected).severity is Info <==> f is NotFound && !expected,
        failure_of(path, f, expected).severity is Warn <==> !(f is Protocol) && (f is NotFound ==> expected),
        failure_of(path, f, expected).hint is Some <==> !(failure_of(path, f, expected).severity is Info),
{
}

/// A daemon is expected just where the prompt is live and the shell is zsh; one that
/// must not be asked is never more than a note.
pub proof fn law_daemon_is_expected_where_live(s: LiveState, schema: Seq<char>, cli: Seq<char>)
    ensures
        s.daemon is None ==> connection_of(s, schema, cli).severity is Info,
        s.daemon matches Some((path, ProbeOutcome::Failed(f))) ==> (f is NotFound ==> (connection_of(
            s,
            schema,
            cli,
        ).severity is Warn <==> paths::file_name_of(s.shell@) == Some("zsh"@) && live_enabled_of(
            shell_config_of(s.read),
            text::opt_view(s.live),
        ))),
{
}

/// The variable decides whether the prompt is live, where it is set: only `0` switches
/// it off. Else the settings do, and without any it is on.
pub proof fn law_live_switch(config: ShellConfig, value: Option<Seq<char>>, read: ConfigRead)
    ensures
        value matches Some(v) ==> (live_enabled_of(config, value) <==> v != "0"@),
        value is None ==> live_enabled_of(config, value) == config.live,
        !(read is Parsed) ==> live_enabled_of(shell_config_of(read), None),
        read matches ConfigRead::Parsed(c) ==> shell_config_of(read) == c,
        text::starts_with_of(live_summary(config, value), "enabled"@) <==> live_enabled_of(config, value),
        text::starts_with_of(live_summary(config, value), "disabled"@) <==> !live_enabled_of(config, value),
        live_of(config, value, true).severity is Warn <==> value is Some && value != Some("0"@) && value
            != Some("1"@),
        live_of(config, value, false).severity is Info,
{
    reveal_strlit("enabled");
    reveal_strlit("disabled");
    let said = live_summary(config, value);
    assert("enabled"@[0] == 'e' && "disabled"@[0] == 'd');
    if live_enabled_of(config, value) {
        assert(said.subrange(0, 7) =~= "enabled"@);
        assert(said[0] == 'e');
    } else {
        assert(said.subrange(0, 8) =~= "disabled"@);
        assert(said[0] == 'd');
    }
    if text::starts_with_of(said, "enabled"@) {
        assert(said.subrange(0, 7)[0] == said[0]);
    }
    if text::starts_with_of(said, "disabled"@) {
        assert(said.subrange(0, 8)[0] == said[0]);
    }
}

/// The settings are a warning just where a file is there and cannot be used.
pub proof fn law_settings_must_be_usable(path: Seq<char>, read: ConfigRead)
    ensures
        live_config_of(path, read).severity is Warn <==> read is Invalid || read is Unreadable,
        live_config_of(path, read).severity is Info <==> read is Parsed || read is Missing,
        live_config_of(path, read).hint is Some <==> live_config_of(path, read).severity is Warn,
        text::contains_of(live_config_of(path, read).value, path),
{
    let said = live_config_of(path, read).value;
    let at = (match read {
        ConfigRead::Invalid => "invalid config at "@,
        ConfigRead::Unreadable => "cannot read "@,
        _ => Seq::empty(),
    }).len() as int;
    assert(said.subrange(at, at + path.len()) =~= path);
    assert(text::occurs_at(said, path, at));
}

/// The scope is one of two words, or is not set; any other word is a warning.
pub proof fn law_scope_is_one_of_two(scope: Option<Seq<char>>)
    ensures
        scope_of(scope).severity is Warn <==> scope is Some && scope != Some("cwd"@) && scope != Some("all"@),
        scope_of(scope).severity is Info <==> !(scope_of(scope).severity is Warn),
        text::starts_with_of(scope_of(scope).value, "all"@) <==> scope == Some("all"@),
        text::starts_with_of(scope_of(scope).value, "cwd"@) <==> scope is None || scope == Some("cwd"@),
{
    reveal_strlit("cwd");
    reveal_strlit("all");
    reveal_strlit("cwd: events from the current directory/repository");
    reveal_strlit("all: events from every repository");
    reveal_strlit("unrecognized scope; shell uses cwd behavior");
    let said = scope_of(scope).value;
    assert("cwd"@[0] == 'c' && "all"@[0] == 'a');
    assert(said.subrange(0, 3)[0] == said[0]);
    if scope is None || scope->0 == "cwd"@ {
        assert(said.subrange(0, 3) =~= "cwd"@);
    } else if scope->0 == "all"@ {
        assert(said.subrange(0, 3) =~= "all"@);
    } else {
        assert(said[0] == 'u');
    }
}

/// A daemon may be asked more exactly where it greets in the protocol that is spoken
/// here; another protocol is told apart from what is no greeting.
pub proof fn law_only_the_same_protocol_is_spoken(reply: &Response, r: Result<(), Failure>)
    requires
        call_ensures(hello_accepted, (reply,), r),
    ensures
        r is Ok <==> *reply == Response::Hello(PROTO_VERSION),
        (r matches Err(Failure::Protocol)) <==> *reply is Hello && *reply != Response::Hello(PROTO_VERSION),
        (r matches Err(Failure::InvalidReply)) <==> !(*reply is Hello),
{
}

} // verus!
