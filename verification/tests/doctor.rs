use chevron::config::ShellConfig;
use chevron::daemon::proto::{Response, PROTO_VERSION};
use chevron::doctor::checks::{
    check_shell_init, check_starship, check_tmux, chevron_path_check, chevron_section, current_shell,
    daemon_feature_check, environment_section, friendly_path, glyph_check, home_unset_check, libgit2_check,
    locale_check, os_check, self_test_section, shell_check, shell_integration_section, starship_path, term_check,
    tmux_candidates, Found, InitFiles, ShellTarget, Surroundings,
};
use chevron::doctor::report::{
    available_names, counts, exit_code, exit_code_flat, json_escape, parse_args, render_json, render_json_flat,
    render_text, render_text_flat, select, severity_tag, Section,
};
use chevron::doctor::runtime::{
    daemon_check, daemon_disabled_check, failure_check, hello_accepted, is_zsh, live_check, load_shell_config,
    reply_complete, scope_check, section, ConfigRead, DaemonVersion, Failure, LiveState, ProbeOutcome, MAX_REPLY,
};
use chevron::doctor::sources::{active_lines, script, source_path, Entry, Walk, MAX_FILE_BYTES};
use chevron::health::check::{Check, Severity};
use chevron::health::report::Output;

fn args(s: &[&str]) -> Vec<String> {
    s.iter().map(|x| (*x).to_string()).collect()
}

#[test]
fn doctor_parse_defaults() {
    let o = parse_args(&vec![], true).unwrap();
    assert!(!o.fast);
    assert_eq!(o.output, Output::Text);
    assert!(o.check.is_none());
    assert!(!o.help);
}

#[test]
fn parse_fast_and_json() {
    let o = parse_args(&args(&["--fast", "--json"]), true).unwrap();
    assert!(o.fast);
    assert_eq!(o.output, Output::Json);
}

#[test]
fn doctor_parse_check_requires_argument() {
    let err = parse_args(&args(&["--check"]), true).unwrap_err();
    assert!(err.contains("requires"), "got: {err}");
}

#[test]
fn doctor_parse_check_takes_name() {
    let o = parse_args(&args(&["--check", "libgit2"]), true).unwrap();
    assert_eq!(o.check.as_deref(), Some("libgit2"));
}

#[test]
fn doctor_parse_unknown_flag_errors() {
    let err = parse_args(&args(&["--bogus"]), true).unwrap_err();
    assert!(err.contains("unknown"), "got: {err}");
}

#[test]
fn parse_no_color_disables_color() {
    let o = parse_args(&args(&["--no-color"]), true).unwrap();
    assert!(!o.color);
}

// --- tags ---

#[test]
fn severity_tag_visible_width_no_color() {
    for sev in [
        Severity::Okay,
        Severity::Warn,
        Severity::Critical,
        Severity::Info,
        Severity::Unknown,
    ] {
        let t = severity_tag(sev, false);
        assert_eq!(t.chars().count(), 6, "{sev:?} tag must be 6 cols: {t:?}");
    }
}

#[test]
fn severity_tag_color_wraps_in_escapes() {
    let t = severity_tag(Severity::Warn, true);
    assert!(t.starts_with("\x1b["));
    assert!(t.contains("[warn]"));
    assert!(t.ends_with("\x1b[0m"));
}

#[test]
fn severity_tag_no_color_has_no_escapes() {
    let t = severity_tag(Severity::Okay, false);
    assert!(!t.contains('\x1b'));
}

// --- exit codes ---

#[test]
fn exit_code_zero_on_all_ok() {
    let s: Vec<Section> = vec![("Env", vec![Check::ok("a", "a", "x")])];
    assert_eq!(exit_code(&s), 0);
}

#[test]
fn doctor_exit_code_one_on_warn() {
    let s: Vec<Section> = vec![(
        "Env",
        vec![Check::ok("a", "a", "x"), Check::warn("b", "b", "y", "h")],
    )];
    assert_eq!(exit_code(&s), 1);
}

#[test]
fn exit_code_two_on_critical() {
    let s: Vec<Section> = vec![(
        "Env",
        vec![
            Check::warn("a", "a", "x", "h"),
            Check::critical("b", "b", "y", "h"),
        ],
    )];
    assert_eq!(exit_code(&s), 2);
}

#[test]
fn info_does_not_affect_exit_code() {
    let s: Vec<Section> = vec![("Env", vec![Check::info("a", "a", "x")])];
    assert_eq!(exit_code(&s), 0);
}

#[test]
fn one_section_or_a_list_exit_alike() {
    let checks = vec![Check::warn("a", "a", "x", "h")];
    assert_eq!(exit_code_flat(&checks), 1);
    assert_eq!(exit_code(&vec![("Env", checks)]), 1);
}

// --- environment ---

#[test]
fn glyph_check_includes_powerline_arrow() {
    let c = glyph_check();
    assert!(c.value.contains('\u{e0b0}'), "missing powerline U+E0B0");
    assert_eq!(c.severity, Severity::Info);
    assert!(c.hint.is_some(), "glyph check should hint about fonts");
}

#[test]
fn the_environment_is_told_in_order() {
    let env = Surroundings {
        os: "linux".to_string(),
        arch: "x86_64".to_string(),
        shell: Some("/bin/zsh".to_string()),
        term: "xterm-256color".to_string(),
        colorterm: "truecolor".to_string(),
        lc_all: None,
        lang: Some("en_US.UTF-8".to_string()),
    };
    let s = environment_section(&env);
    assert_eq!(s[0].name, os_check("linux", "x86_64").name);
    assert!(s.iter().all(|c| c.severity == Severity::Okay || c.severity == Severity::Info));
    assert_eq!(shell_check(None).severity, Severity::Warn);
    assert_eq!(locale_check(Some("C"), None).severity, Severity::Warn);
    assert_ne!(term_check("", "").severity, Severity::Okay);
}

// --- paths ---

#[test]
fn friendly_path_collapses_home() {
    assert_eq!(friendly_path("/Users/mim/.zshrc", "/Users/mim"), "~/.zshrc");
}

#[test]
fn friendly_path_passthrough_when_outside_home() {
    assert_eq!(friendly_path("/etc/zshrc", "/Users/mim"), "/etc/zshrc");
}

#[test]
fn friendly_path_empty_home_returns_full() {
    assert_eq!(friendly_path("/anywhere/foo", ""), "/anywhere/foo");
}

// --- shell integration ---

fn found(path: &str, contents: &str) -> Option<Found> {
    Some(Found { path: path.to_string(), contents: contents.to_string() })
}

#[test]
fn shell_init_detects_chevron_init_line() {
    let f = found("/h/.zshrc", "eval \"$(chevron init zsh)\"\n");
    let c = check_shell_init("/h", "zsh", ShellTarget::Zsh, &f);
    assert_eq!(c.severity, Severity::Okay);
    assert!(c.value.contains("loads chevron"));
}

#[test]
fn shell_init_warns_when_current_shell_missing_chevron() {
    let f = found("/h/.zshrc", "# nothing chevron-related\n");
    let c = check_shell_init("/h", "zsh", ShellTarget::Zsh, &f);
    assert_eq!(c.severity, Severity::Warn);
    assert!(c.hint.as_deref().unwrap_or("").contains("chevron init zsh"));
}

#[test]
fn shell_init_info_when_not_current_shell() {
    let f = found("/h/.bashrc", "# no chevron\n");
    let c = check_shell_init("/h", "zsh", ShellTarget::Bash, &f);
    assert_eq!(c.severity, Severity::Info);
}

#[test]
fn shell_init_warns_when_current_shell_has_no_init_file() {
    let c = check_shell_init("/h", "zsh", ShellTarget::Zsh, &None);
    assert_eq!(c.severity, Severity::Warn);
}

#[test]
fn starship_info_when_missing() {
    let c = check_starship("/h", &None);
    assert_eq!(c.severity, Severity::Info);
    assert!(c.value.contains("not configured"));
}

#[test]
fn starship_ok_when_references_chevron() {
    let f = found("/h/.config/starship.toml", "[custom.chevron]\ncommand = \"chevron path\"\n");
    let c = check_starship("/h", &f);
    assert_eq!(c.severity, Severity::Okay);
}

#[test]
fn tmux_ok_when_uses_chevron_tmux_title() {
    let f = found("/h/.tmux.conf", "set -g status-left '#(chevron tmux-title)'\n");
    let c = check_tmux("/h", &f);
    assert_eq!(c.severity, Severity::Okay);
}

#[test]
fn tmux_info_when_no_config() {
    let c = check_tmux("/h", &None);
    assert_eq!(c.severity, Severity::Info);
}

#[test]
fn candidates_are_tried_below_the_home() {
    assert_eq!(tmux_candidates(), [".tmux.conf", ".config/tmux/tmux.conf"]);
    assert_eq!(starship_path("/h", Some("/s.toml")), "/s.toml");
    assert_eq!(starship_path("/h", None), "/h/.config/starship.toml");
    assert_eq!(current_shell(Some("/usr/bin/fish")), "fish");
    assert_ne!(home_unset_check().severity, Severity::Okay);
}

// --- the program itself ---

#[test]
fn libgit2_check_returns_version_string() {
    let c = libgit2_check();
    assert_eq!(c.severity, Severity::Okay);
    assert_eq!(c.value.matches('.').count(), 2, "got {:?}", c.value);
}

#[test]
fn chevron_section_includes_version_path_libgit2_daemon() {
    let s = chevron_section("0.1.0", &Ok("/usr/bin/chevron".to_string()), true);
    let names: Vec<&str> = s.iter().map(|c| c.name).collect();
    assert!(names.contains(&"version"));
    assert!(names.contains(&"path"));
    assert!(names.contains(&"libgit2"));
    assert!(names.contains(&"daemon_feature"));
}

#[test]
fn an_unknown_own_path_is_told() {
    assert_ne!(chevron_path_check(&Err("gone".to_string())).severity, Severity::Okay);
    assert_ne!(daemon_feature_check(false).value, daemon_feature_check(true).value);
}

#[test]
fn the_self_test_looks_at_what_was_rendered() {
    let good = self_test_section("path", "git");
    let bad = self_test_section("", "");
    assert_eq!(good.len(), bad.len());
    assert_eq!(good[0].severity, Severity::Info);
    assert_eq!(bad[1].severity, Severity::Info);
    assert_eq!(bad[1].value, "(not in a git repository)");
}

// --- rendering ---

#[test]
fn render_text_includes_section_names_and_summary() {
    let s: Vec<Section> = vec![
        ("Environment", vec![Check::ok("a", "a", "x")]),
        ("Chevron", vec![Check::info("b", "b", "y")]),
    ];
    let out = render_text(&s, false, "0.1.0");
    assert!(out.contains("Environment"));
    assert!(out.contains("Chevron"));
    assert!(out.contains("Summary"));
    assert!(out.contains("0 critical"));
    assert!(!out.contains('\x1b'), "no-color must strip escapes");
}

#[test]
fn render_text_includes_color_escapes_when_enabled() {
    let s: Vec<Section> = vec![("Env", vec![Check::ok("a", "a", "x")])];
    let out = render_text(&s, true, "0.1.0");
    assert!(out.contains('\x1b'));
}

#[test]
fn render_text_hint_line_aligned_under_value() {
    let s: Vec<Section> = vec![("Env", vec![Check::warn("a", "a", "x", "fix it")])];
    let out = render_text(&s, false, "0.1.0");
    assert!(out.contains("hint: fix it"));
}

#[test]
fn render_json_is_valid_shape() {
    let s: Vec<Section> = vec![("Environment", vec![Check::ok("a", "a", "x")])];
    let out = render_json(&s, "0.1.0");
    assert!(out.starts_with("{\"version\":\""));
    assert!(out.contains("\"sections\":["));
    assert!(out.contains("\"summary\":{"));
    assert!(out.contains("\"name\":\"Environment\""));
    assert!(out.ends_with("}\n"));
}

#[test]
fn render_json_escapes_quotes_in_values() {
    let s: Vec<Section> = vec![("E", vec![Check::ok("a", "a", "x\"y")])];
    let out = render_json(&s, "0.1.0");
    assert!(out.contains("\"value\":\"x\\\"y\""));
}

#[test]
fn json_escape_handles_control_chars() {
    assert_eq!(json_escape("a\nb"), "a\\nb");
    assert_eq!(json_escape("a\x01b"), "a\\u0001b");
}

#[test]
fn sections_are_counted_and_searched() {
    let s: Vec<Section> = vec![
        ("A", vec![Check::ok("a", "a", "x"), Check::warn("b", "b", "y", "h")]),
        ("B", vec![Check::info("c", "c", "z"), Check::critical("d", "d", "w", "h")]),
    ];
    assert_eq!(available_names(&s), ["a", "b", "c", "d"]);
    assert_eq!(select(&s, "c").len(), 1);
    assert_eq!(select(&s, "zz").len(), 0);
    let (critical, warn, ok, info) = counts(&s);
    assert_eq!(critical + warn + ok + info, 4);
    assert_eq!((critical, warn), (1, 1));
    assert!(render_text_flat(&select(&s, "a"), false).contains("x"));
    assert!(render_json_flat(&select(&s, "a")).contains("\"x\""));
}

// --- the daemon ---

#[test]
fn daemon_probe_is_read_only_and_reports_version_drift() {
    for (binary, schema, expected) in [
        ("0.1.0", "1", Severity::Okay),
        ("old-version", "1", Severity::Warn),
        ("0.1.0", "unsupported", Severity::Critical),
    ] {
        let outcome = ProbeOutcome::Version {
            version: DaemonVersion {
                binary: binary.to_string(),
                proto: PROTO_VERSION,
                schema: schema.to_string(),
            },
            ms: "0.1".to_string(),
        };
        let check = daemon_check("/s/daemon.sock", true, &outcome, "1", "0.1.0");
        assert_eq!(check.severity, expected, "{}", check.value);
        assert!(check.value.contains("ms"));
    }
}

#[test]
fn daemon_probe_distinguishes_missing_stale_and_invalid_protocol() {
    let path = "/s/daemon.sock";
    assert_eq!(failure_check(path, &Failure::NotFound, false).severity, Severity::Info);
    assert_eq!(failure_check(path, &Failure::NotFound, true).severity, Severity::Warn);
    assert!(failure_check(path, &Failure::Refused, true).value.contains("stale socket"));
    let f = hello_accepted(&Response::Hello(PROTO_VERSION + 1)).unwrap_err();
    assert_eq!(failure_check(path, &f, true).severity, Severity::Critical);
    let f = hello_accepted(&Response::Ack).unwrap_err();
    assert!(failure_check(path, &f, true).value.contains("invalid"));
    assert!(hello_accepted(&Response::Hello(PROTO_VERSION)).is_ok());
}

#[test]
fn every_failure_of_the_probe_is_told() {
    for f in [Failure::TimedOut, Failure::Timeout, Failure::Io("boom".to_string()), Failure::Protocol] {
        let outcome = ProbeOutcome::Failed(f);
        let check = daemon_check("/s/daemon.sock", true, &outcome, "1", "0.1.0");
        assert_ne!(check.severity, Severity::Okay);
    }
    assert_ne!(daemon_disabled_check().severity, Severity::Okay);
    assert!(reply_complete("HELLO 1\n"));
    assert!(!reply_complete("HELLO 1"));
    assert_eq!(MAX_REPLY, 4096);
}

#[test]
fn inherited_disable_wins_over_config_and_is_not_an_error() {
    let check = live_check(&ShellConfig::default(), Some("0"), true);
    assert_eq!(check.severity, Severity::Info);
    assert!(check.value.starts_with("disabled"));
    assert!(check.value.contains("inherited CHEVRON_LIVE"));
    let cfg = ShellConfig {
        live: false,
        ..ShellConfig::default()
    };
    assert!(live_check(&cfg, Some("1"), true).value.starts_with("enabled"));
    assert!(live_check(&cfg, None, true).value.contains("next shell initialization"));
}

#[test]
fn the_live_prompt_is_on_by_default() {
    assert!(ShellConfig::default().live);
    assert!(live_check(&ShellConfig::default(), None, true).value.starts_with("enabled"));
}

#[test]
fn nonstandard_values_match_shell_semantics_but_warn() {
    assert_eq!(
        live_check(&ShellConfig::default(), Some("false"), true).severity,
        Severity::Warn
    );
    assert!(live_check(&ShellConfig::default(), Some(""), true)
        .value
        .starts_with("enabled"));
    assert_eq!(scope_check(Some("bogus")).severity, Severity::Warn);
    assert!(scope_check(Some("all")).hint.is_some());
}

#[test]
fn invalid_config_does_not_echo_secret_contents() {
    let (_, check) = load_shell_config("/c/config.toml", ConfigRead::Invalid);
    assert_eq!(check.severity, Severity::Warn);
    assert!(!check.value.contains("SUPER_SECRET"));
    assert!(!check.hint.unwrap().contains("SUPER_SECRET"));
    let off = ShellConfig { live: false, ..ShellConfig::default() };
    assert!(!load_shell_config("/c/config.toml", ConfigRead::Parsed(off)).0.live);
}

#[test]
fn settings_that_cannot_be_read_are_told() {
    let missing = load_shell_config("/c/config.toml", ConfigRead::Missing);
    let unreadable = load_shell_config("/c/config.toml", ConfigRead::Unreadable);
    assert_eq!(missing.0, ShellConfig::default());
    assert_eq!(missing.1.severity, Severity::Info);
    assert_eq!(unreadable.1.severity, Severity::Warn);
    assert!(is_zsh("/bin/zsh") && !is_zsh("/bin/bash"));
}

// --- start scripts ---

#[test]
fn follows_literal_sources_and_stops_at_cycles_and_commands() {
    let home = "/h";
    let mut walk = Walk::start(home, ShellTarget::Zsh);
    let mut steps = 0;
    while let Some(path) = walk.next() {
        steps += 1;
        assert!(steps < 1000);
        let contents = match path.as_str() {
            "/h/.zshrc" => "source \"$HOME/prompt.sh\"\nsource \"$(touch BAD)\"\n",
            "/h/prompt.sh" => ". ${HOME}/.zshrc\neval \"$(chevron init zsh)\"\n",
            _ => continue,
        };
        if walk.enter(path.clone()) {
            walk.add_file(path, contents.to_string());
        }
    }
    assert_eq!(walk.found.len(), 2);
    assert!(walk.found.iter().any(|f| f.contents.contains("chevron init")));
    assert_eq!(source_path("source \"$(touch BAD)\"", home), None);
    assert_eq!(source_path("source relative.sh", home), None);
}

#[test]
fn handles_nix_style_symlinked_module_directory() {
    let mut walk = Walk::start("/h", ShellTarget::Zsh);
    let mut steps = 0;
    while let Some(path) = walk.next() {
        steps += 1;
        assert!(steps < 1000);
        if path == "/h/.zsh" {
            if walk.enter("/nix/modules".to_string()) {
                walk.add_dir(&vec![Entry { path: "/h/.zsh/prompt.zsh".to_string(), is_dir: false }]);
            }
        } else if path == "/h/.zsh/prompt.zsh" && walk.enter("/nix/modules/prompt.zsh".to_string()) {
            walk.add_file(path, "eval \"$(chevron init zsh)\"".to_string());
        }
    }
    assert_eq!(walk.found.len(), 1);
    assert!(walk.found[0].path.ends_with(".zsh/prompt.zsh"));
}

#[test]
fn only_literal_paths_are_followed() {
    let home = "/h";
    assert_eq!(source_path("source $HOME/a", home).as_deref(), Some("/h/a"));
    assert_eq!(source_path(". ${HOME}/a", home).as_deref(), Some("/h/a"));
    assert_eq!(source_path("source ~/a", home).as_deref(), Some("/h/a"));
    assert_eq!(source_path("source /a/b", home).as_deref(), Some("/a/b"));
    for line in ["source /a/$HOME/b", "source $HOME/$HOME/b", "source ${HOME}/$X", "source /a/`b`", "source /$X"] {
        assert_eq!(source_path(line, home), None, "{line}");
    }
    assert_eq!(source_path("echo /a", home), None);
}

#[test]
fn nothing_is_entered_twice_and_nothing_large_is_read() {
    let mut walk = Walk::start("/h", ShellTarget::Bash);
    while let Some(path) = walk.next() {
        if walk.enter("/same".to_string()) {
            walk.add_file(path, "x".repeat(MAX_FILE_BYTES + 1));
        }
    }
    assert_eq!(walk.seen, ["/same"]);
    assert!(walk.found.is_empty());
    assert!(walk.visited >= 3);
}

#[test]
fn comments_are_no_commands() {
    assert_eq!(active_lines("# source /x\nsource /y\n").len(), 1);
    assert!(script("/h/.zsh/a.zsh"));
    assert!(!script("/h/.zsh/a.txt"));
}

// --- whole sections ---

fn live_state(daemon: Option<(String, ProbeOutcome)>, shell: &str, live: Option<&str>) -> LiveState {
    LiveState {
        path: "/c.toml".to_string(),
        read: ConfigRead::Missing,
        live: live.map(str::to_string),
        scope: None,
        shell: shell.to_string(),
        daemon,
    }
}

#[test]
fn a_daemon_is_missed_only_where_the_prompt_is_live() {
    let gone = || Some(("/s".to_string(), ProbeOutcome::Failed(Failure::NotFound)));
    let live = section(live_state(gone(), "/bin/zsh", None), "1", "0.1.0");
    let names: Vec<&str> = live.iter().map(|c| c.name).collect();
    assert_eq!(names, ["live_config", "live_prompt", "live_scope", "daemon_connection"]);
    assert_eq!(live[3].severity, Severity::Warn);
    let off = section(live_state(gone(), "/bin/zsh", Some("0")), "1", "0.1.0");
    assert_eq!(off[3].severity, Severity::Info);
    let bash = section(live_state(gone(), "/bin/bash", None), "1", "0.1.0");
    assert_eq!(bash[3].severity, Severity::Info);
    let switched_off = section(live_state(None, "/bin/zsh", None), "1", "0.1.0");
    assert_eq!(switched_off[3].value, "daemon access disabled by CHEVRON_NO_DAEMON");
}

#[test]
fn the_shell_section_needs_a_home() {
    let none = InitFiles { zsh: None, bash: None, fish: None, starship: None, tmux: None };
    let unset = shell_integration_section("", Some("/bin/zsh"), &none);
    assert_eq!(unset.len(), 1);
    assert_eq!(unset[0].name, "home");
    let found = Found { path: "/h/.zshrc".to_string(), contents: "eval chevron init zsh".to_string() };
    let files = InitFiles { zsh: Some(found), ..none };
    let checks = shell_integration_section("/h", Some("/bin/zsh"), &files);
    let names: Vec<&str> = checks.iter().map(|c| c.name).collect();
    assert_eq!(names, ["zshrc", "bashrc", "fishrc", "starship", "tmux"]);
    assert_eq!(checks[0].value, "~/.zshrc loads chevron");
}
