use chevron::config::{NetworkConfig, Thresholds, KEY_1, KEY_80, KEY_90, KEY_95};
use chevron::health::check::{exit_code, severity_to_exit, Check, Severity};
use chevron::health::checks::{
    disk, ip_address, load, memory, network, target, uptime, Measure, SystemInfo,
};
use chevron::health::macos::{
    both_streams, cache_dir, cpu_temp, disk_health, firewall, is_fresh, leading_number, parse_firewall_state,
    parse_smart_status, parse_updates, software_updates, FirewallState, TempReading, UpdateState,
    DISK_HEALTH_TTL_SECS, UPDATES_TTL_SECS,
};
use chevron::health::render::render;
use chevron::health::report::{available_names, collect, parse_args, run_named, Output, Probe};
use chevron::span::Span;

// --- check ---

#[test]
fn ok_has_no_hint() {
    let c = Check::ok("load", "System Load", "0.3");
    assert_eq!(c.severity, Severity::Okay);
    assert!(c.hint.is_none());
}

#[test]
fn warn_carries_hint() {
    let c = Check::warn("memory", "Memory", "95%", "free up memory");
    assert_eq!(c.severity, Severity::Warn);
    assert_eq!(c.hint.as_deref(), Some("free up memory"));
}

#[test]
fn critical_is_distinct_from_warn() {
    let c = Check::critical("disk", "Disk", "99%", "clean up");
    assert_eq!(c.severity, Severity::Critical);
}

// --- exit codes and flags ---

#[test]
fn exit_code_zero_when_all_ok() {
    let checks = vec![Check::ok("a", "A", "1")];
    assert_eq!(exit_code(&checks), 0);
}

#[test]
fn mod_exit_code_one_on_warn() {
    let checks = vec![Check::ok("a", "A", "1"), Check::warn("b", "B", "x", "hint")];
    assert_eq!(exit_code(&checks), 1);
}

#[test]
fn exit_code_two_on_critical_even_if_warn_present() {
    let checks = vec![
        Check::warn("a", "A", "x", "hint"),
        Check::critical("b", "B", "y", "hint"),
    ];
    assert_eq!(exit_code(&checks), 2);
}

#[test]
fn _severity_used_in_tests() {
    let _ = Severity::Okay;
}

#[test]
fn what_is_not_known_is_no_failure() {
    assert_eq!(severity_to_exit(Severity::Unknown), 0);
    assert_eq!(severity_to_exit(Severity::Info), 0);
}

fn args(s: &[&str]) -> Vec<String> {
    s.iter().map(|x| (*x).to_string()).collect()
}

#[test]
fn parse_defaults() {
    let o = parse_args(&vec![], true).unwrap();
    assert!(!o.fast);
    assert_eq!(o.output, Output::Text);
    assert!(o.check.is_none());
}

#[test]
fn parse_unknown_flag_errors() {
    let err = parse_args(&args(&["--bogus"]), true).unwrap_err();
    assert!(err.contains("unknown"), "got: {err}");
}

#[test]
fn mod_parse_check_requires_argument() {
    let err = parse_args(&args(&["--check"]), true).unwrap_err();
    assert!(err.contains("requires"), "got: {err}");
}

#[test]
fn mod_parse_check_takes_name() {
    let o = parse_args(&args(&["--check", "load"]), true).unwrap();
    assert_eq!(o.check.as_deref(), Some("load"));
}

#[test]
fn parse_value_requires_check() {
    let err = parse_args(&args(&["--value"]), true).unwrap_err();
    assert!(err.contains("requires --check"), "got: {err}");
}

#[test]
fn parse_value_then_json_lets_json_win() {
    let o = parse_args(&args(&["--check", "load", "--value", "--json"]), true).unwrap();
    assert_eq!(o.output, Output::Json);
}

#[test]
fn available_names_includes_core_six() {
    let n = available_names(false);
    for name in ["load", "memory", "disk", "uptime", "ip", "network"] {
        assert!(n.contains(&name), "missing {name} in {n:?}");
    }
}

#[test]
fn available_names_includes_macos_four_on_macos() {
    let n = available_names(true);
    for name in ["cpu_temp", "disk_health", "software_updates", "firewall"] {
        assert!(n.contains(&name), "missing {name} in {n:?}");
    }
}

#[test]
fn the_fast_report_is_the_start_of_the_full_one() {
    let full = collect(false, &vec![], true);
    let fast = collect(true, &vec![], true);
    assert!(fast.len() < full.len());
    assert_eq!(full[..fast.len()], fast[..]);
}

#[test]
fn disabled_checks_run_only_when_named() {
    let off = vec!["memory".to_string()];
    assert!(!collect(false, &off, false).contains(&Probe::Memory));
    assert_eq!(run_named("memory", false), Some(Probe::Memory));
    assert_eq!(run_named("firewall", false), None);
    assert_eq!(run_named("firewall", true), Some(Probe::Firewall));
    assert_eq!(run_named("nope", true), None);
}

// --- checks ---

fn measure(v: f64) -> Measure {
    Measure { text: format!("{v:.0}"), key: v.to_bits() as i64 }
}

fn fake(mem_used: u64, mem_total: u64, disk_used: u64, disk_total: u64) -> SystemInfo {
    let percent = |used: u64, total: u64| {
        measure(if total > 0 { used as f64 / total as f64 * 100.0 } else { 0.0 })
    };
    SystemInfo {
        load_1: "0.50".to_string(),
        load_per_core: measure(0.5 / 8.0),
        mem_total,
        mem_percent: percent(mem_used, mem_total),
        disk_total,
        disk_percent: percent(disk_used, disk_total),
        uptime_secs: 3661,
        ip_addr: String::new(),
    }
}

#[test]
fn keys_are_the_bits_of_the_thresholds() {
    assert_eq!(KEY_1, 1.0f64.to_bits() as i64);
    assert_eq!(KEY_80, 80.0f64.to_bits() as i64);
    assert_eq!(KEY_90, 90.0f64.to_bits() as i64);
    assert_eq!(KEY_95, 95.0f64.to_bits() as i64);
}

#[test]
fn load_ok_when_per_core_below_one() {
    let info = fake(0, 1, 0, 1);
    let c = load(&info, &Thresholds::default());
    assert_eq!(c.severity, Severity::Okay);
}

#[test]
fn load_warns_when_per_core_over_one() {
    let mut info = fake(0, 1, 0, 1);
    info.load_1 = "3.00".to_string();
    info.load_per_core = measure(3.0 / 2.0);
    let c = load(&info, &Thresholds::default());
    assert_eq!(c.severity, Severity::Warn);
}

#[test]
fn memory_unknown_when_total_zero() {
    let info = fake(0, 0, 0, 1);
    let c = memory(&info, &Thresholds::default());
    assert_eq!(c.severity, Severity::Unknown);
}

#[test]
fn memory_warn_at_91_pct() {
    let info = fake(91, 100, 0, 1);
    let c = memory(&info, &Thresholds::default());
    assert_eq!(c.severity, Severity::Warn);
}

#[test]
fn memory_critical_at_96_pct() {
    let info = fake(96, 100, 0, 1);
    let c = memory(&info, &Thresholds::default());
    assert_eq!(c.severity, Severity::Critical);
}

#[test]
fn disk_critical_at_96_pct() {
    let info = fake(0, 1, 96, 100);
    let c = disk(&info, &Thresholds::default());
    assert_eq!(c.severity, Severity::Critical);
}

#[test]
fn disk_ok_below_the_thresholds() {
    assert_eq!(disk(&fake(0, 1, 50, 100), &Thresholds::default()).severity, Severity::Okay);
    assert_eq!(disk(&fake(0, 1, 0, 0), &Thresholds::default()).severity, Severity::Unknown);
}

#[test]
fn ip_unknown_when_empty() {
    let info = fake(0, 1, 0, 1);
    let c = ip_address(&info);
    assert_eq!(c.severity, Severity::Unknown);
}

#[test]
fn ip_ok_when_present() {
    let mut info = fake(0, 1, 0, 1);
    info.ip_addr = "192.168.1.10".to_string();
    let c = ip_address(&info);
    assert_eq!(c.severity, Severity::Okay);
    assert_eq!(c.value, "192.168.1.10");
}

#[test]
fn uptime_formats_days_hours_minutes() {
    let info = fake(0, 1, 0, 1);
    let c = uptime(&info);
    assert!(c.value.contains("0 days"));
    assert!(c.value.contains("1 hours"));
    assert!(c.value.contains("1 minutes"));
}

#[test]
fn the_network_is_tried_once() {
    assert_eq!(network(&NetworkConfig::default(), &Ok(12)).severity, Severity::Okay);
    assert_ne!(network(&NetworkConfig::default(), &Err("refused".to_string())).severity, Severity::Okay);
    assert_eq!(target(&NetworkConfig::default()), "1.1.1.1:53");
    let other = NetworkConfig { host: "host".to_string(), port: 443, timeout_ms: 500 };
    assert_eq!(network(&other, &Ok(12)).value, "Connected (12ms to host:443)");
    assert_eq!(network(&other, &Err("refused".to_string())).value, "Disconnected (refused)");
}

#[test]
fn thresholds_can_be_set() {
    let half = 50.0f64.to_bits() as i64;
    let strict = Thresholds { memory_warn: half, disk_critical: half, cpu_temp_warn: half, load: 0, ..Thresholds::default() };
    let info = fake(60, 100, 60, 100);
    assert_eq!(memory(&info, &strict).severity, Severity::Warn);
    assert_eq!(disk(&info, &strict).severity, Severity::Critical);
    assert_eq!(load(&info, &strict).severity, Severity::Warn);
    let warm = TempReading::Output { raw: "60°C".to_string(), degrees: Some(measure(60.0)) };
    assert_eq!(cpu_temp(&warm, &strict).severity, Severity::Warn);
    assert_eq!(cpu_temp(&warm, &Thresholds::default()).severity, Severity::Okay);
    let never = Thresholds { memory_warn: i64::MAX, memory_critical: i64::MAX, ..Thresholds::default() };
    assert_eq!(memory(&fake(100, 100, 0, 1), &never).severity, Severity::Okay);
}

// --- macOS ---

#[test]
fn parse_cpu_temp_strips_unit() {
    assert_eq!(leading_number("56.3°C\n").as_deref(), Some("56.3"));
    assert_eq!(leading_number("  72.5°C").as_deref(), Some("72.5"));
}

#[test]
fn parse_cpu_temp_handles_integer() {
    assert_eq!(leading_number("88°C").as_deref(), Some("88"));
}

#[test]
fn parse_cpu_temp_returns_none_for_garbage() {
    let parsed = |raw: &str| leading_number(raw).and_then(|s| s.parse::<f64>().ok());
    assert_eq!(parsed(""), None);
    assert_eq!(parsed("not a number"), None);
    assert_eq!(parsed("56.3°C\n"), Some(56.3));
}

#[test]
fn hot_processors_are_told() {
    let at = |v: f64| TempReading::Output { raw: format!("{v}°C"), degrees: Some(measure(v)) };
    assert_eq!(cpu_temp(&at(50.0), &Thresholds::default()).severity, Severity::Okay);
    assert_eq!(cpu_temp(&at(85.0), &Thresholds::default()).severity, Severity::Warn);
    assert_eq!(cpu_temp(&at(96.0), &Thresholds::default()).severity, Severity::Critical);
    assert_eq!(cpu_temp(&TempReading::NoTool, &Thresholds::default()).severity, Severity::Unknown);
    assert_eq!(cpu_temp(&TempReading::Failed, &Thresholds::default()).severity, Severity::Unknown);
}

#[test]
fn parse_smart_verified() {
    let input = "\
   Device / Media Name:      APPLE SSD AP0512Z
   SMART Status:             Verified
   Volume Name:              ...
";
    assert_eq!(parse_smart_status(input).as_deref(), Some("Verified"));
}

#[test]
fn parse_smart_failing() {
    let input = "   SMART Status:             Failing\n";
    assert_eq!(parse_smart_status(input).as_deref(), Some("Failing"));
}

#[test]
fn parse_smart_missing_returns_none() {
    let input = "no smart line here\n";
    assert!(parse_smart_status(input).is_none());
}

#[test]
fn a_failing_disk_is_critical() {
    assert_eq!(disk_health(Some("Verified"), true).severity, Severity::Okay);
    assert_eq!(disk_health(Some("Failing"), true).severity, Severity::Critical);
    assert_eq!(disk_health(None, false).severity, Severity::Unknown);
}

#[test]
fn parse_firewall_enabled() {
    assert_eq!(
        parse_firewall_state("Firewall is enabled. (State = 1)\n"),
        FirewallState::Enabled
    );
}

#[test]
fn parse_firewall_disabled() {
    assert_eq!(
        parse_firewall_state("Firewall is disabled. (State = 0)\n"),
        FirewallState::Disabled
    );
}

#[test]
fn parse_firewall_disabled_beats_enabled_word() {
    assert_eq!(
        parse_firewall_state("Firewall is disabled."),
        FirewallState::Disabled
    );
}

#[test]
fn parse_firewall_unknown() {
    assert_eq!(parse_firewall_state(""), FirewallState::Unknown);
    assert_eq!(parse_firewall_state("garbage"), FirewallState::Unknown);
}

#[test]
fn an_open_firewall_is_told() {
    assert_eq!(firewall(Some("Firewall is enabled.")).severity, Severity::Okay);
    assert_eq!(firewall(Some("Firewall is disabled.")).severity, Severity::Warn);
    assert_eq!(firewall(None).severity, Severity::Unknown);
}

#[test]
fn parse_updates_up_to_date() {
    let raw = "Software Update Tool\n\nFinding available software\nNo new software available.\n";
    assert_eq!(parse_updates(raw), UpdateState::UpToDate);
}

#[test]
fn parse_updates_three_pending() {
    let raw = "\
Software Update Tool

Finding available software
Software Update found the following new or updated software:
* Label: Foo-1.2
   Title: Foo, Version: 1.2
* Label: Bar-2.0
   Title: Bar, Version: 2.0
* Label: Baz-3.1
   Title: Baz, Version: 3.1
";
    assert_eq!(parse_updates(raw), UpdateState::Pending(3));
}

#[test]
fn parse_updates_unknown_for_garbage() {
    assert_eq!(parse_updates(""), UpdateState::Unknown);
    assert_eq!(parse_updates("random text"), UpdateState::Unknown);
}

#[test]
fn updates_are_counted() {
    assert_eq!(both_streams("out", "err").matches("err").count(), 1);
    let c = software_updates(Some("* Label: A\n* Label: B\n"));
    assert!(c.value.contains('2'));
    assert_eq!(software_updates(None).severity, Severity::Unknown);
}

// --- the cache ---

#[test]
fn read_returns_none_when_zero_ttl() {
    let ten_ms = Span { secs: 0, nanos: 10_000_000 };
    assert!(!is_fresh(Some(ten_ms), 0));
    assert!(is_fresh(Some(ten_ms), 1));
    assert!(!is_fresh(Some(Span { secs: 1, nanos: 0 }), 1));
    assert!(!is_fresh(None, 60));
    assert_eq!(DISK_HEALTH_TTL_SECS, 3600);
    assert_eq!(UPDATES_TTL_SECS, 86_400);
}

#[test]
fn the_cache_has_a_directory_of_its_own() {
    assert_eq!(cache_dir(Some("/own"), Some("/x"), Some("/h")), "/own");
    assert_ne!(cache_dir(None, Some("/x"), Some("/h")), cache_dir(None, None, Some("/h")));
}

// --- rendering ---

#[test]
fn no_color_strips_escapes() {
    let checks = vec![Check::ok("load", "Load", "0.1")];
    let out = render(&checks, false);
    assert!(!out.contains('\x1b'));
    assert!(out.contains("Load:"));
    assert!(out.contains("0.1"));
}

#[test]
fn color_includes_escapes() {
    let checks = vec![Check::ok("load", "Load", "0.1")];
    let out = render(&checks, true);
    assert!(out.contains('\x1b'));
}

#[test]
fn warn_hint_appears_in_recommendations_box() {
    let checks = vec![Check::warn("mem", "Memory", "91%", "free up memory")];
    let out = render(&checks, false);
    assert!(out.contains("RECOMMENDATIONS"));
    assert!(out.contains("free up memory"));
}

#[test]
fn no_recommendations_box_when_all_ok() {
    let checks = vec![Check::ok("load", "Load", "0.1")];
    let out = render(&checks, false);
    assert!(!out.contains("RECOMMENDATIONS"));
}

#[test]
fn unknown_does_not_trigger_recommendations() {
    let checks = vec![Check::unknown("foo", "Foo", "unknown")];
    let out = render(&checks, false);
    assert!(!out.contains("RECOMMENDATIONS"));
}

#[test]
fn hints_without_colour_hold_no_escapes() {
    let checks = vec![
        Check::warn("mem", "Memory", "91%", "free up memory"),
        Check::critical("disk", "Disk", "99%", "clean"),
        Check::unknown("ip", "IP", "unknown"),
    ];
    assert!(!render(&checks, false).contains('\x1b'));
    assert!(render(&checks, true).contains('\x1b'));
}

/// A text without its escapes.
fn unescaped(s: &str) -> String {
    let mut out = String::new();
    let mut rest = s;
    while let Some(i) = rest.find("\x1b[") {
        out.push_str(&rest[..i]);
        let end = rest[i..].find('m').unwrap();
        rest = &rest[i + end + 1..];
    }
    out.push_str(rest);
    out
}

#[test]
fn colours_are_all_that_is_added() {
    let checks = vec![
        Check::ok("load", "Load", "0.1"),
        Check::warn("mem", "Memory", "91%", "free up memory"),
        Check::critical("disk", "Disk", "99%", "clean"),
        Check::unknown("ip", "IP", "unknown"),
    ];
    let coloured = render(&checks, true);
    assert_ne!(coloured, render(&checks, false));
    assert_eq!(unescaped(&coloured), render(&checks, false));
}
