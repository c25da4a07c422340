//! What the doctor says of the environment, the program and the shells.

use vstd::prelude::*;
use crate::decimal;
use crate::decimal::{dec_u64, push_u64};
use crate::health::check;
use crate::health::check::{Check, CheckView};
use crate::paths;
use crate::paths::{file_name, join_path};
use crate::text;
use crate::text::{
    ascii_lower, chars_of, contains_str, joined, owned, starts_with_str, str_eq, string_of_range,
};

verus! {

// ── Environment ─────────────────────────────────────────────────────────────

/// What the platform says.
pub fn os_check(os: &str, arch: &str) -> (r: Check)
    ensures
        r@ == check::ok_of("os"@, "os"@, os@ + " ("@ + arch@ + ")"@),
{
    let mut value: String = joined(os, " (");
    value.push_str(arch);
    value.push_str(")");
    Check::ok("os", "os", value.as_str())
}

/// The name of a shell: the last component of its path, or all of it where there
/// is none.
pub open spec fn shell_name_of(path: Seq<char>) -> Seq<char> {
    match paths::file_name_of(path) {
        Some(name) => name,
        None => path,
    }
}

/// What `SHELL` says.
pub open spec fn shell_of(shell: Option<Seq<char>>) -> CheckView {
    match shell {
        Some(s) if s.len() > 0 => check::ok_of("shell"@, "shell"@, shell_name_of(s)),
        _ => check::warn_of(
            "shell"@,
            "shell"@,
            "(unset)"@,
            "$SHELL is unset — chevron init script may not be loaded"@,
        ),
    }
}

/// What `SHELL` says.
pub fn shell_check(shell: Option<&str>) -> (r: Check)
    ensures
        r@ == shell_of(text::opt_str_view(shell)),
{
    if let Some(s) = shell {
        if !s.is_empty() {
            return match file_name(s) {
                Some(name) => Check::ok("shell", "shell", name.as_str()),
                None => Check::ok("shell", "shell", s),
            };
        }
    }
    Check::warn(
        "shell",
        "shell",
        "(unset)",
        "$SHELL is unset — chevron init script may not be loaded",
    )
}

/// What `TERM` and `COLORTERM` say.
pub open spec fn term_of(term: Seq<char>, colorterm: Seq<char>) -> CheckView {
    let value = if colorterm.len() == 0 {
        "TERM="@ + term
    } else {
        "TERM="@ + term + "  COLORTERM="@ + colorterm
    };
    if term.len() == 0 || term == "dumb"@ {
        check::warn_of(
            "term"@,
            "term"@,
            value,
            "TERM is empty or 'dumb' — colors and powerline glyphs will not render"@,
        )
    } else if !text::contains_of(term, "256"@) && !text::contains_of(term, "color"@) && colorterm.len() == 0 {
        check::warn_of(
            "term"@,
            "term"@,
            value,
            "terminal may not support 256 colors — try TERM=xterm-256color"@,
        )
    } else {
        check::ok_of("term"@, "term"@, value)
    }
}

/// What `TERM` and `COLORTERM` say; an unset one is empty.
pub fn term_check(term: &str, colorterm: &str) -> (r: Check)
    ensures
        r@ == term_of(term@, colorterm@),
{
    let mut value: String = joined("TERM=", term);
    if !colorterm.is_empty() {
        value.push_str("  COLORTERM=");
        value.push_str(colorterm);
    }
    if term.is_empty() || str_eq(term, "dumb") {
        return Check::warn(
            "term",
            "term",
            value.as_str(),
            "TERM is empty or 'dumb' — colors and powerline glyphs will not render",
        );
    }
    if !contains_str(term, "256") && !contains_str(term, "color") && colorterm.is_empty() {
        return Check::warn(
            "term",
            "term",
            value.as_str(),
            "terminal may not support 256 colors — try TERM=xterm-256color",
        );
    }
    Check::ok("term", "term", value.as_str())
}

/// The locale in force: `LC_ALL` where it says something, else `LANG`.
pub open spec fn locale_name_of(lc_all: Option<Seq<char>>, lang: Option<Seq<char>>) -> Seq<char> {
    match (lc_all, lang) {
        (Some(l), _) if l.len() > 0 => l,
        (_, Some(l)) => l,
        _ => Seq::empty(),
    }
}

/// Whether a locale is one of UTF-8, whatever the case of its letters.
pub open spec fn is_utf8_locale(name: Seq<char>) -> bool {
    text::contains_of(text::lower_of(name), "utf-8"@) || text::contains_of(text::lower_of(name), "utf8"@)
}

/// What the locale says.
pub open spec fn locale_of(lc_all: Option<Seq<char>>, lang: Option<Seq<char>>) -> CheckView {
    let name = locale_name_of(lc_all, lang);
    if name.len() == 0 {
        check::warn_of(
            "locale"@,
            "locale"@,
            "(unset)"@,
            "LANG/LC_ALL not set — non-ASCII glyphs may render incorrectly"@,
        )
    } else if !is_utf8_locale(name) {
        check::warn_of(
            "locale"@,
            "locale"@,
            name,
            "locale is not UTF-8 — powerline glyphs may render as '?'"@,
        )
    } else {
        check::ok_of("locale"@, "locale"@, name)
    }
}

/// What the locale says.
pub fn locale_check(lc_all: Option<&str>, lang: Option<&str>) -> (r: Check)
    ensures
        r@ == locale_of(text::opt_str_view(lc_all), text::opt_str_view(lang)),
{
    let fallback: Option<&str> = lang;
    let name: Option<&str> = match lc_all {
        Some(l) => {
            if !l.is_empty() {
                Some(l)
            } else {
                fallback
            }
        },
        None => fallback,
    };
    let raw: &str = match name {
        Some(n) => n,
        None => {
            return Check::warn(
                "locale",
                "locale",
                "(unset)",
                "LANG/LC_ALL not set — non-ASCII glyphs may render incorrectly",
            );
        },
    };
    if raw.is_empty() {
        return Check::warn(
            "locale",
            "locale",
            "(unset)",
            "LANG/LC_ALL not set — non-ASCII glyphs may render incorrectly",
        );
    }
    let lower: String = ascii_lower(raw);
    if !contains_str(lower.as_str(), "utf-8") && !contains_str(lower.as_str(), "utf8") {
        return Check::warn(
            "locale",
            "locale",
            raw,
            "locale is not UTF-8 — powerline glyphs may render as '?'",
        );
    }
    Check::ok("locale", "locale", raw)
}

/// What the eye is asked to look at: a separator, a Nerd Font glyph, a block.
pub fn glyph_check() -> (r: Check)
    ensures
        r@ == check::info_hint_of(
            "glyph"@,
            "glyph"@,
            "\u{e0b0}  \u{f09b}  \u{2588}  (separator / nerd-font / block)"@,
            "if these don't render as a triangle, github logo, and a solid block, install a Nerd Font"@,
        ),
{
    Check::info_hint(
        "glyph",
        "glyph",
        "\u{e0b0}  \u{f09b}  \u{2588}  (separator / nerd-font / block)",
        "if these don't render as a triangle, github logo, and a solid block, install a Nerd Font",
    )
}

/// What the environment says.
pub fn environment_section(env: &Surroundings) -> (r: Vec<Check>)
    ensures
        check::check_views(r@) == seq![
            check::ok_of("os"@, "os"@, env.os@ + " ("@ + env.arch@ + ")"@),
            shell_of(text::opt_view(env.shell)),
            term_of(env.term@, env.colorterm@),
            locale_of(text::opt_view(env.lc_all), text::opt_view(env.lang)),
            check::info_hint_of(
                "glyph"@,
                "glyph"@,
                "\u{e0b0}  \u{f09b}  \u{2588}  (separator / nerd-font / block)"@,
                "if these don't render as a triangle, github logo, and a solid block, install a Nerd Font"@,
            ),
        ],
{
    let v: Vec<Check> = vec![
        os_check(env.os.as_str(), env.arch.as_str()),
        shell_check(as_opt(&env.shell)),
        term_check(env.term.as_str(), env.colorterm.as_str()),
        locale_check(as_opt(&env.lc_all), as_opt(&env.lang)),
        glyph_check(),
    ];
    proof {
        assert(check::check_views(v@) =~= seq![v@[0]@, v@[1]@, v@[2]@, v@[3]@, v@[4]@]);
    }
    v
}

/// What the doctor reads of the environment.
#[derive(Debug)]
pub struct Surroundings {
    pub os: String,
    pub arch: String,
    pub shell: Option<String>,
    /// `TERM`, or nothing.
    pub term: String,
    /// `COLORTERM`, or nothing.
    pub colorterm: String,
    pub lc_all: Option<String>,
    pub lang: Option<String>,
}

/// A borrowed view of an optional string.
pub fn as_opt(s: &Option<String>) -> (r: Option<&str>)
    ensures
        text::opt_str_view(r) == text::opt_view(*s),
{
    match s {
        Some(t) => Some(t.as_str()),
        None => None,
    }
}

// ── The program ─────────────────────────────────────────────────────────────

/// What the path of the program says.
pub open spec fn path_of(exe: Result<String, String>) -> CheckView {
    match exe {
        Ok(p) => check::ok_of("path"@, "path"@, p@),
        Err(e) => check::warn_of(
            "path"@,
            "path"@,
            "(unknown)"@,
            "could not resolve binary path: "@ + e@,
        ),
    }
}

/// What the path of the program says.
pub fn chevron_path_check(exe: &Result<String, String>) -> (r: Check)
    ensures
        r@ == path_of(*exe),
{
    match exe {
        Ok(p) => Check::ok("path", "path", p.as_str()),
        Err(e) => {
            let hint: String = joined("could not resolve binary path: ", e.as_str());
            Check::warn("path", "path", "(unknown)", hint.as_str())
        },
    }
}

/// `git2::Version::get` and `git2::Version::libgit2_version`: the major and minor
/// version and the revision of the libgit2 that is linked in. Which they are
/// depends on the build and is not stated.
#[verifier::external_body]
fn libgit2_version() -> (r: (u32, u32, u32)) {
    git2::Version::get().libgit2_version()
}

/// What a version of libgit2 says.
pub fn libgit2_version_check(major: u32, minor: u32, patch: u32) -> (r: Check)
    ensures
        r@ == check::ok_of(
            "libgit2"@,
            "libgit2"@,
            decimal::dec_digits(major as nat) + "."@ + decimal::dec_digits(minor as nat) + "."@
                + decimal::dec_digits(patch as nat),
        ),
{
    let mut value: String = dec_u64(major as u64);
    value.push_str(".");
    push_u64(&mut value, minor as u64);
    value.push_str(".");
    push_u64(&mut value, patch as u64);
    Check::ok("libgit2", "libgit2", value.as_str())
}

/// Whether a finding tells some version of libgit2.
pub open spec fn tells_libgit2(c: CheckView) -> bool {
    exists|major: nat, minor: nat, patch: nat|
        c == check::ok_of(
            "libgit2"@,
            "libgit2"@,
            #[trigger] decimal::dec_digits(major) + "."@ + #[trigger] decimal::dec_digits(minor) + "."@
                + #[trigger] decimal::dec_digits(patch),
        )
}

/// What the linked libgit2 says.
pub fn libgit2_check() -> (r: Check)
    ensures
        tells_libgit2(r@),
{
    let (major, minor, patch): (u32, u32, u32) = libgit2_version();
    libgit2_version_check(major, minor, patch)
}

/// What the build says of the daemon.
pub open spec fn daemon_feature_of(built_in: bool) -> CheckView {
    check::info_of(
        "daemon_feature"@,
        "daemon"@,
        if built_in {
            "built-in"@
        } else {
            "not compiled in (build with --features daemon)"@
        },
    )
}

/// What the build says of the daemon.
pub fn daemon_feature_check(built_in: bool) -> (r: Check)
    ensures
        r@ == daemon_feature_of(built_in),
{
    if built_in {
        Check::info("daemon_feature", "daemon", "built-in")
    } else {
        Check::info("daemon_feature", "daemon", "not compiled in (build with --features daemon)")
    }
}

/// What the program says of itself.
pub fn chevron_section(version: &str, exe: &Result<String, String>, built_in: bool) -> (r: Vec<Check>)
    ensures
        r@.len() == 4,
        r@[0]@ == check::ok_of("version"@, "version"@, version@),
        r@[1]@ == path_of(*exe),
        tells_libgit2(r@[2]@),
        r@[3]@ == daemon_feature_of(built_in),
{
    vec![
        Check::ok("version", "version", version),
        chevron_path_check(exe),
        libgit2_check(),
        daemon_feature_check(built_in),
    ]
}

// ── The shells ──────────────────────────────────────────────────────────────

/// A shell whose start files are looked at.
#[derive(Debug, Clone, Copy, PartialEq, Eq, Structural)]
pub enum ShellTarget {
    Zsh,
    Bash,
    Fish,
}

pub open spec fn target_name(t: ShellTarget) -> Seq<char> {
    match t {
        ShellTarget::Zsh => "zsh"@,
        ShellTarget::Bash => "bash"@,
        ShellTarget::Fish => "fish"@,
    }
}

pub open spec fn target_id(t: ShellTarget) -> Seq<char> {
    match t {
        ShellTarget::Zsh => "zshrc"@,
        ShellTarget::Bash => "bashrc"@,
        ShellTarget::Fish => "fishrc"@,
    }
}

/// The files that a shell may start with, below the home directory, in the order
/// in which they are looked for.
pub open spec fn target_candidates(t: ShellTarget) -> Seq<Seq<char>> {
    match t {
        ShellTarget::Zsh => seq![".zshrc"@, ".zshenv"@, ".zprofile"@],
        ShellTarget::Bash => seq![".bashrc"@, ".bash_profile"@, ".profile"@],
        ShellTarget::Fish => seq![".config/fish/config.fish"@],
    }
}

impl ShellTarget {
    /// The name of the shell.
    pub fn name(self) -> (r: &'static str)
        ensures
            r@ == target_name(self),
    {
        match self {
            ShellTarget::Zsh => "zsh",
            ShellTarget::Bash => "bash",
            ShellTarget::Fish => "fish",
        }
    }

    /// The name of the check.
    pub fn check_id(self) -> (r: &'static str)
        ensures
            r@ == target_id(self),
    {
        match self {
            ShellTarget::Zsh => "zshrc",
            ShellTarget::Bash => "bashrc",
            ShellTarget::Fish => "fishrc",
        }
    }

    /// The files that the shell may start with.
    pub fn candidates(self) -> (r: Vec<&'static str>)
        ensures
            text::str_views(r@) == target_candidates(self),
    {
        let v: Vec<&'static str> = match self {
            ShellTarget::Zsh => vec![".zshrc", ".zshenv", ".zprofile"],
            ShellTarget::Bash => vec![".bashrc", ".bash_profile", ".profile"],
            ShellTarget::Fish => vec![".config/fish/config.fish"],
        };
        proof {
            assert(text::str_views(v@) =~= target_candidates(self));
        }
        v
    }
}

/// Where the home directory is empty there are no start files to look at.
pub fn home_unset_check() -> (r: Check)
    ensures
        r@ == check::warn_of(
            "home"@,
            "home"@,
            "(unset)"@,
            "HOME is unset — cannot locate shell init files"@,
        ),
{
    Check::warn("home", "home", "(unset)", "HOME is unset — cannot locate shell init files")
}

/// A path with the home directory written as a tilde.
pub open spec fn friendly_path_of(path: Seq<char>, home: Seq<char>) -> Seq<char> {
    if home.len() > 0 && text::starts_with_of(path, home) {
        "~"@ + path.skip(home.len() as int)
    } else {
        path
    }
}

/// A path with the home directory written as a tilde.
pub fn friendly_path(path: &str, home: &str) -> (r: String)
    ensures
        r@ == friendly_path_of(path@, home@),
{
    if !home.is_empty() && starts_with_str(path, home) {
        let v: Vec<char> = chars_of(path);
        let n: usize = chars_of(home).len();
        proof {
            assert(v@.subrange(n as int, v@.len() as int) =~= v@.skip(n as int));
        }
        joined("~", string_of_range(&v, n, v.len()).as_str())
    } else {
        owned(path)
    }
}

/// What to add to a start file.
pub open spec fn eval_line(t: ShellTarget) -> Seq<char> {
    "`eval \"$(chevron init "@ + target_name(t) + ")\"`"@
}

fn eval_text(t: ShellTarget) -> (r: String)
    ensures
        r@ == eval_line(t),
{
    let mut s: String = joined("`eval \"$(chevron init ", t.name());
    s.push_str(")\"`");
    s
}

/// What the start file of a shell says: the first that exists, and what it holds.
pub open spec fn shell_init_of(
    home: Seq<char>,
    current: Seq<char>,
    t: ShellTarget,
    found: Option<(Seq<char>, Seq<char>)>,
) -> CheckView {
    let id = target_id(t);
    let is_current = current == target_name(t);
    match found {
        None => {
            let value = "no "@ + target_name(t) + " init file found"@;
            if is_current {
                check::warn_of(id, id, value, "no init file for your current shell — add "@ + eval_line(t))
            } else {
                check::info_of(id, id, value)
            }
        },
        Some((path, contents)) => {
            let pretty = friendly_path_of(path, home);
            if text::contains_of(contents, "chevron init"@) {
                check::ok_of(id, id, pretty + " loads chevron"@)
            } else if is_current {
                check::warn_of(
                    id,
                    id,
                    pretty + " does not reference `chevron init`"@,
                    "add "@ + eval_line(t) + " to "@ + pretty,
                )
            } else {
                check::info_of(id, id, pretty + " (not your current shell)"@)
            }
        },
    }
}

/// A file that was found, and what it holds.
#[derive(Debug)]
pub struct Found {
    pub path: String,
    pub contents: String,
}

/// The value of a file that was found.
pub open spec fn found_view(f: Option<Found>) -> Option<(Seq<char>, Seq<char>)> {
    match f {
        Some(f) => Some((f.path@, f.contents@)),
        None => None,
    }
}

/// What the start file of a shell says. `found` is the first of the target's
/// candidates that exists.
pub fn check_shell_init(home: &str, current: &str, t: ShellTarget, found: &Option<Found>) -> (r: Check)
    ensures
        r@ == shell_init_of(home@, current@, t, found_view(*found)),
{
    let is_current: bool = str_eq(current, t.name());
    let id: &'static str = t.check_id();
    match found {
        None => {
            let mut value: String = joined("no ", t.name());
            value.push_str(" init file found");
            if is_current {
                let hint: String = joined("no init file for your current shell — add ", eval_text(t).as_str());
                Check::warn(id, id, value.as_str(), hint.as_str())
            } else {
                Check::info(id, id, value.as_str())
            }
        },
        Some(f) => {
            let pretty: String = friendly_path(f.path.as_str(), home);
            if contains_str(f.contents.as_str(), "chevron init") {
                let value: String = joined(pretty.as_str(), " loads chevron");
                Check::ok(id, id, value.as_str())
            } else if is_current {
                let value: String = joined(pretty.as_str(), " does not reference `chevron init`");
                let mut hint: String = joined("add ", eval_text(t).as_str());
                hint.push_str(" to ");
                hint.push_str(pretty.as_str());
                Check::warn(id, id, value.as_str(), hint.as_str())
            } else {
                let value: String = joined(pretty.as_str(), " (not your current shell)");
                Check::info(id, id, value.as_str())
            }
        },
    }
}

/// The file that holds starship's settings: the one that `STARSHIP_CONFIG` names,
/// where it names one.
pub open spec fn starship_path_of(home: Seq<char>, configured: Option<Seq<char>>) -> Seq<char> {
    match configured {
        Some(p) if p.len() > 0 => p,
        _ => paths::join_of_paths(home, ".config/starship.toml"@),
    }
}

/// The file that holds starship's settings.
pub fn starship_path(home: &str, configured: Option<&str>) -> (r: String)
    ensures
        r@ == starship_path_of(home@, text::opt_str_view(configured)),
{
    if let Some(p) = configured {
        if !p.is_empty() {
            return owned(p);
        }
    }
    join_path(home, ".config/starship.toml")
}

/// What starship's settings say.
pub open spec fn starship_of(home: Seq<char>, found: Option<(Seq<char>, Seq<char>)>) -> CheckView {
    match found {
        None => check::info_of("starship"@, "starship"@, "not configured"@),
        Some((path, contents)) => {
            let pretty = friendly_path_of(path, home);
            if text::contains_of(contents, "chevron"@) {
                check::ok_of("starship"@, "starship"@, pretty + " references chevron"@)
            } else {
                check::info_of("starship"@, "starship"@, pretty + " present (no chevron reference)"@)
            }
        },
    }
}

/// What starship's settings say. `found` is its file, where that exists.
pub fn check_starship(home: &str, found: &Option<Found>) -> (r: Check)
    ensures
        r@ == starship_of(home@, found_view(*found)),
{
    match found {
        None => Check::info("starship", "starship", "not configured"),
        Some(f) => {
            let pretty: String = friendly_path(f.path.as_str(), home);
            if contains_str(f.contents.as_str(), "chevron") {
                let value: String = joined(pretty.as_str(), " references chevron");
                Check::ok("starship", "starship", value.as_str())
            } else {
                let value: String = joined(pretty.as_str(), " present (no chevron reference)");
                Check::info("starship", "starship", value.as_str())
            }
        },
    }
}

/// Where tmux's settings may be, below the home directory.
pub open spec fn tmux_candidates_of() -> Seq<Seq<char>> {
    seq![".tmux.conf"@, ".config/tmux/tmux.conf"@]
}

/// Where tmux's settings may be, below the home directory.
pub fn tmux_candidates() -> (r: Vec<&'static str>)
    ensures
        text::str_views(r@) == tmux_candidates_of(),
{
    let v: Vec<&'static str> = vec![".tmux.conf", ".config/tmux/tmux.conf"];
    proof {
        assert(text::str_views(v@) =~= tmux_candidates_of());
    }
    v
}

/// What tmux's settings say.
pub open spec fn tmux_of(home: Seq<char>, found: Option<(Seq<char>, Seq<char>)>) -> CheckView {
    match found {
        None => check::info_of("tmux"@, "tmux"@, "no tmux config found"@),
        Some((path, contents)) => {
            let pretty = friendly_path_of(path, home);
            if text::contains_of(contents, "chevron tmux-title"@) {
                check::ok_of("tmux"@, "tmux"@, pretty + " uses chevron tmux-title"@)
            } else {
                check::info_of("tmux"@, "tmux"@, pretty + " present (no chevron tmux-title reference)"@)
            }
        },
    }
}

/// What tmux's settings say. `found` is the first of the candidates that exists.
pub fn check_tmux(home: &str, found: &Option<Found>) -> (r: Check)
    ensures
        r@ == tmux_of(home@, found_view(*found)),
{
    match found {
        None => Check::info("tmux", "tmux", "no tmux config found"),
        Some(f) => {
            let pretty: String = friendly_path(f.path.as_str(), home);
            if contains_str(f.contents.as_str(), "chevron tmux-title") {
                let value: String = joined(pretty.as_str(), " uses chevron tmux-title");
                Check::ok("tmux", "tmux", value.as_str())
            } else {
                let value: String = joined(pretty.as_str(), " present (no chevron tmux-title reference)");
                Check::info("tmux", "tmux", value.as_str())
            }
        },
    }
}

/// The name of the shell in use; nothing where `SHELL` names none.
pub open spec fn current_shell_of(shell: Option<Seq<char>>) -> Seq<char> {
    match shell {
        Some(s) => match paths::file_name_of(s) {
            Some(name) => name,
            None => Seq::empty(),
        },
        None => Seq::empty(),
    }
}

/// The name of the shell in use; nothing where `SHELL` names none.
pub fn current_shell(shell: Option<&str>) -> (r: String)
    ensures
        r@ == current_shell_of(text::opt_str_view(shell)),
{
    if let Some(s) = shell {
        if let Some(name) = file_name(s) {
            return name;
        }
    }
    String::new()
}

/// The files of the home directory that the section on shells looks at.
#[derive(Debug)]
pub struct InitFiles {
    pub zsh: Option<Found>,
    pub bash: Option<Found>,
    pub fish: Option<Found>,
    pub starship: Option<Found>,
    pub tmux: Option<Found>,
}

/// What the home directory says of the shells: nothing can be found in one that is not
/// set.
pub open spec fn shell_section_of(home: Seq<char>, shell: Option<Seq<char>>, files: InitFiles) -> Seq<CheckView> {
    let current = current_shell_of(shell);
    if home.len() == 0 {
        seq![
            check::warn_of(
                "home"@,
                "home"@,
                "(unset)"@,
                "HOME is unset — cannot locate shell init files"@,
            ),
        ]
    } else {
        seq![
            shell_init_of(home, current, ShellTarget::Zsh, found_view(files.zsh)),
            shell_init_of(home, current, ShellTarget::Bash, found_view(files.bash)),
            shell_init_of(home, current, ShellTarget::Fish, found_view(files.fish)),
            starship_of(home, found_view(files.starship)),
            tmux_of(home, found_view(files.tmux)),
        ]
    }
}

/// What the home directory says of the shells.
pub fn shell_integration_section(home: &str, shell: Option<&str>, files: &InitFiles) -> (r: Vec<Check>)
    ensures
        check::check_views(r@) == shell_section_of(home@, text::opt_str_view(shell), *files),
{
    if home.is_empty() {
        let v: Vec<Check> = vec![home_unset_check()];
        proof {
            assert(check::check_views(v@) =~= seq![v@[0]@]);
        }
        return v;
    }
    let current: String = current_shell(shell);
    let v: Vec<Check> = vec![
        check_shell_init(home, current.as_str(), ShellTarget::Zsh, &files.zsh),
        check_shell_init(home, current.as_str(), ShellTarget::Bash, &files.bash),
        check_shell_init(home, current.as_str(), ShellTarget::Fish, &files.fish),
        check_starship(home, &files.starship),
        check_tmux(home, &files.tmux),
    ];
    proof {
        assert(check::check_views(v@) =~= seq![v@[0]@, v@[1]@, v@[2]@, v@[3]@, v@[4]@]);
    }
    v
}

// ── Self-test ───────────────────────────────────────────────────────────────

/// What the two segments render here.
pub open spec fn self_test_of(path_out: Seq<char>, git_out: Seq<char>) -> Seq<CheckView> {
    seq![
        check::info_of("path_render"@, "path render"@, path_out),
        check::info_of(
            "git_render"@,
            "git render"@,
            if git_out.len() == 0 {
                "(not in a git repository)"@
            } else {
                git_out
            },
        ),
    ]
}

/// What the two segments render here.
pub fn self_test_section(path_out: &str, git_out: &str) -> (r: Vec<Check>)
    ensures
        check::check_views(r@) == self_test_of(path_out@, git_out@),
{
    let git: &str = if git_out.is_empty() {
        "(not in a git repository)"
    } else {
        git_out
    };
    let v: Vec<Check> = vec![
        Check::info("path_render", "path render", path_out),
        Check::info("git_render", "git render", git),
    ];
    proof {
        assert(check::check_views(v@) =~= self_test_of(path_out@, git_out@));
    }
    v
}

// ── Laws ────────────────────────────────────────────────────────────────────

/// A terminal is fine just where it has a name other than `dumb`, and that name or
/// another tells of colours; else there is a warning. What is set is shown.
pub proof fn law_terminal_needs_colours(term: Seq<char>, colorterm: Seq<char>)
    ensures
        ({
            let c = term_of(term, colorterm);
            &&& c.severity is Okay <==> term.len() > 0 && term != "dumb"@ && (text::contains_of(term, "256"@)
                || text::contains_of(term, "color"@) || colorterm.len() > 0)
            &&& c.severity is Warn <==> !(c.severity is Okay)
            &&& c.hint is Some <==> c.severity is Warn
            &&& text::occurs_at(c.value, term, 5)
            &&& colorterm.len() > 0 ==> text::occurs_at(c.value, colorterm, 5 + term.len() as int + 12)
        }),
{
    reveal_strlit("TERM=");
    reveal_strlit("  COLORTERM=");
    let c = term_of(term, colorterm);
    assert(c.value.subrange(5, 5 + term.len() as int) =~= term);
    if colorterm.len() > 0 {
        let at = 5 + term.len() + 12;
        assert(c.value.subrange(at as int, (at + colorterm.len()) as int) =~= colorterm);
    }
}

/// The locale is fine just where it is set to one of UTF-8. `LC_ALL` counts where it is
/// not empty, and else `LANG`.
pub proof fn law_locale_needs_utf8(lc_all: Option<Seq<char>>, lang: Option<Seq<char>>)
    ensures
        ({
            let c = locale_of(lc_all, lang);
            let name = if lc_all is Some && lc_all->0.len() > 0 {
                lc_all->0
            } else if lang is Some {
                lang->0
            } else {
                Seq::empty()
            };
            let low = text::lower_of(name);
            &&& c.severity is Okay <==> name.len() > 0 && (text::contains_of(low, "utf-8"@) || text::contains_of(
                low,
                "utf8"@,
            ))
            &&& c.severity is Warn <==> !(c.severity is Okay)
            &&& name.len() > 0 ==> c.value == name
            &&& name.len() == 0 ==> c.value == "(unset)"@
            &&& c.hint is Some <==> c.severity is Warn
        }),
{
}

/// The shell is fine just where it is set, and is called by the last part of its path.
pub proof fn law_shell_must_be_set(shell: Option<Seq<char>>)
    ensures
        shell_of(shell).severity is Okay <==> shell is Some && shell->0.len() > 0,
        shell_of(shell).severity is Warn <==> shell is None || shell->0.len() == 0,
        shell_of(shell).hint is Some <==> shell_of(shell).severity is Warn,
        shell is Some && shell->0.len() > 0 && paths::file_name_of(shell->0) is Some ==> Some(
            shell_of(shell).value,
        ) == paths::file_name_of(shell->0),
{
}

/// An init file is fine just where it loads the prompt; one that does not, or is
/// missing, is a warning for the current shell and nothing but a note for the others.
pub proof fn law_init_file_of_the_current_shell(
    home: Seq<char>,
    current: Seq<char>,
    t: ShellTarget,
    found: Option<(Seq<char>, Seq<char>)>,
)
    ensures
        ({
            let c = shell_init_of(home, current, t, found);
            let loads = found is Some && text::contains_of((found->0).1, "chevron init"@);
            &&& c.severity is Okay <==> loads
            &&& c.severity is Warn <==> !loads && current == target_name(t)
            &&& c.severity is Info <==> !loads && current != target_name(t)
            &&& c.hint is Some <==> c.severity is Warn
            &&& found matches Some(f) ==> text::starts_with_of(c.value, friendly_path_of(f.0, home))
            &&& c.severity is Warn ==> text::contains_of(c.hint->0, target_name(t))
        }),
{
    let c = shell_init_of(home, current, t, found);
    if found is Some {
        let pretty = friendly_path_of((found->0).0, home);
        assert(c.value.subrange(0, pretty.len() as int) =~= pretty);
    }
    if c.severity is Warn {
        let h = c.hint->0;
        let lead = "`eval \"$(chevron init "@;
        let start = if found is Some {
            "add "@
        } else {
            "no init file for your current shell — add "@
        };
        let at = start.len() + lead.len();
        let n = target_name(t);
        assert(h.subrange(at as int, (at + n.len()) as int) =~= n);
        assert(text::occurs_at(h, n, at as int));
    }
}

/// The settings of other programs are fine where they use the prompt, and are never
/// more than a note where they do not.
pub proof fn law_other_programs_are_notes(home: Seq<char>, found: Option<(Seq<char>, Seq<char>)>)
    ensures
        starship_of(home, found).severity is Okay <==> found is Some && text::contains_of((found->0).1, "chevron"@),
        starship_of(home, found).severity is Info <==> !(starship_of(home, found).severity is Okay),
        tmux_of(home, found).severity is Okay <==> found is Some && text::contains_of(
            (found->0).1,
            "chevron tmux-title"@,
        ),
        tmux_of(home, found).severity is Info <==> !(tmux_of(home, found).severity is Okay),
{
}

/// A path below the home directory is shown with a tilde in its place, and any other
/// path as it is.
pub proof fn law_friendly_path(home: Seq<char>, below: Seq<char>, path: Seq<char>)
    ensures
        home.len() > 0 ==> friendly_path_of(home + below, home) == seq!['~'] + below,
        home.len() == 0 || !text::starts_with_of(path, home) ==> friendly_path_of(path, home) == path,
{
    reveal_strlit("~");
    assert("~"@ =~= seq!['~']);
    let p = home + below;
    assert(p.subrange(0, home.len() as int) =~= home);
    assert(p.skip(home.len() as int) =~= below);
}

/// Each shell is looked at under its own name, and only the one in use can be warned
/// of.
pub proof fn law_one_shell_is_current(home: Seq<char>, shell: Option<Seq<char>>, files: InitFiles, i: int, j: int)
    requires
        home.len() > 0,
        0 <= i < j < 3,
    ensures
        shell_section_of(home, shell, files).len() == 5,
        !(shell_section_of(home, shell, files)[i].severity is Warn && shell_section_of(home, shell, files)[j].severity is Warn),
        shell_section_of(home, shell, files)[0].name == "zshrc"@,
        shell_section_of(home, shell, files)[1].name == "bashrc"@,
        shell_section_of(home, shell, files)[2].name == "fishrc"@,
        shell_section_of(home, shell, files)[3].name == "starship"@,
        shell_section_of(home, shell, files)[4].name == "tmux"@,
{
    reveal_strlit("zsh");
    reveal_strlit("bash");
    reveal_strlit("fish");
    assert("zsh"@.len() == 3 && "bash"@.len() == 4 && "fish"@.len() == 4);
    assert("bash"@[0] != "fish"@[0]);
    let current = current_shell_of(shell);
    law_init_file_of_the_current_shell(home, current, ShellTarget::Zsh, found_view(files.zsh));
    law_init_file_of_the_current_shell(home, current, ShellTarget::Bash, found_view(files.bash));
    law_init_file_of_the_current_shell(home, current, ShellTarget::Fish, found_view(files.fish));
}

/// The program's own path is shown where it is known, and is a warning where it is not.
pub proof fn law_own_path(exe: Result<String, String>)
    ensures
        path_of(exe).severity is Okay <==> exe is Ok,
        path_of(exe).severity is Warn <==> exe is Err,
        exe matches Ok(p) ==> path_of(exe).value == p@,
{
}

/// The self-test shows what the two segments render, the path before the repository,
/// and says so where there is no repository; it finds nothing wrong.
pub proof fn law_self_test_shows_what_is_rendered(path_out: Seq<char>, git_out: Seq<char>)
    ensures
        ({
            let cs = self_test_of(path_out, git_out);
            &&& cs.len() == 2
            &&& cs[0].value == path_out
            &&& git_out.len() > 0 ==> cs[1].value == git_out
            &&& git_out.len() == 0 ==> cs[1].value == "(not in a git repository)"@
            &&& cs[0].severity == check::Severity::Info && cs[1].severity == check::Severity::Info
            &&& cs[0].name != cs[1].name
        }),
{
    reveal_strlit("path_render");
    reveal_strlit("git_render");
    assert("path_render"@.len() != "git_render"@.len());
}

/// Every shell has a check and a line of its own, and the line names that shell.
pub proof fn law_shells_have_their_own_lines(a: ShellTarget, b: ShellTarget)
    ensures
        a != b ==> target_id(a) != target_id(b) && eval_line(a) != eval_line(b),
        text::starts_with_of(target_id(a), target_name(a)),
        text::contains_of(eval_line(a), target_name(a)),
        text::contains_of(eval_line(a), "chevron init"@),
{
    reveal_strlit("zsh");
    reveal_strlit("bash");
    reveal_strlit("fish");
    reveal_strlit("zshrc");
    reveal_strlit("bashrc");
    reveal_strlit("fishrc");
    reveal_strlit("chevron init");
    reveal_strlit("`eval \"$(chevron init ");
    reveal_strlit(")\"`");
    let head = "`eval \"$(chevron init "@;
    let tail = ")\"`"@;
    let n = head.len() as int;
    assert(target_id(a).subrange(0, target_name(a).len() as int) =~= target_name(a));
    assert(eval_line(a).subrange(n, n + target_name(a).len()) =~= target_name(a));
    assert(text::occurs_at(eval_line(a), target_name(a), n));
    assert(eval_line(a).subrange(9, 21) =~= "chevron init"@);
    assert(text::occurs_at(eval_line(a), "chevron init"@, 9));
    if a != b {
        assert(target_id(a)[0] != target_id(b)[0]);
        assert(eval_line(a)[n] == target_name(a)[0]);
        assert(eval_line(b)[n] == target_name(b)[0]);
        assert(target_name(a)[0] != target_name(b)[0]);
    }
}

} // verus!
