use chevron::config::{config_path, Config, SegmentConfig};
use chevron::configure::answers::{AnswerSet, CaptureMode, ColorScheme, IconMode, Language, Preset};
use chevron::configure::presets::from_preset;
use chevron::configure::wizard::{
    answers_from_replies, ask_exit, capture_from_choice, capture_options, capture_start, collect_answers,
    detect_shell, icon_options, icon_start, icons_from_choice, language_defaults, languages_from_choice,
    parse_args, preset_from_choice, preset_options, AskEnd, FeatureReplies, Opts, Replies, Source,
};
use chevron::configure::writer::{backup_path, tmp_path, write_with_backup, Step};

fn args(s: &[&str]) -> Vec<String> {
    s.iter().map(|x| (*x).to_string()).collect()
}

// --- answers ---

#[test]
fn preset_name_round_trip() {
    for p in Preset::all() {
        assert_eq!(Preset::from_name(p.name()), Some(p));
    }
}

#[test]
fn preset_from_unknown_name_is_none() {
    assert_eq!(Preset::from_name("zzz"), None);
}

#[test]
fn default_answers_equal_chevron_out_of_box() {
    let a = AnswerSet::default();
    assert_eq!(a.icons, IconMode::NerdFont);
    assert_eq!(a.color_scheme, ColorScheme::Powerline);
    assert!(a.features.osc133);
    assert!(a.features.transient);
    assert!(!a.features.async_render);
    assert!(a.features.history);
    assert!(a.features.live);
    assert_eq!(a.features.capture, CaptureMode::Off);
    assert!(a.segment_order.is_empty());
}

#[test]
fn language_segment_name_matches_registry_keys() {
    assert_eq!(Language::Node.segment_name(), "node");
    assert_eq!(Language::Python.segment_name(), "python");
    assert_eq!(Language::Rust.segment_name(), "rust_toolchain");
}

// --- presets ---

#[test]
fn every_preset_produces_distinct_answers() {
    let answers: Vec<_> = Preset::all().iter().map(|p| from_preset(*p)).collect();
    for i in 0..answers.len() {
        for j in (i + 1)..answers.len() {
            let a = &answers[i];
            let b = &answers[j];
            let identity_a = (a.icons, a.color_scheme, a.segment_order.clone());
            let identity_b = (b.icons, b.color_scheme, b.segment_order.clone());
            assert_ne!(
                identity_a,
                identity_b,
                "presets {:?} and {:?} have identical identity",
                Preset::all()[i],
                Preset::all()[j],
            );
        }
    }
}

#[test]
fn lean_matches_chevron_defaults() {
    let a = from_preset(Preset::Lean);
    assert!(a.segment_order.is_empty(), "lean uses default order");
    assert!(a.disabled_segments.is_empty(), "lean disables nothing");
    assert_eq!(a.languages.len(), 3, "lean enables all languages");
    assert_eq!(a.icons, IconMode::NerdFont);
}

#[test]
fn pure_disables_most_segments() {
    let a = from_preset(Preset::Pure);
    assert_eq!(a.segment_order, ["path", "git", "character"]);
    assert!(
        a.languages.is_empty(),
        "pure does not show language segments"
    );
    assert_eq!(a.color_scheme, ColorScheme::Greyscale);
}

#[test]
fn minimal_is_ascii_no_color() {
    let a = from_preset(Preset::Minimal);
    assert_eq!(a.icons, IconMode::Ascii);
    assert_eq!(a.color_scheme, ColorScheme::NoColor);
    assert!(!a.features.osc133, "minimal opts out of OSC 133");
}

#[test]
fn every_preset_records_its_source() {
    for p in Preset::all() {
        let a = from_preset(p);
        assert_eq!(a.source_preset, Some(p));
    }
}

// --- the command line ---

#[test]
fn mod_parse_defaults() {
    let o = parse_args(&vec![]).unwrap();
    assert!(!o.dry_run);
    assert!(o.preset.is_none());
}

#[test]
fn parse_preset_requires_name() {
    let err = parse_args(&args(&["--preset"])).unwrap_err();
    assert!(err.contains("requires"));
}

#[test]
fn parse_preset_with_name() {
    let o = parse_args(&args(&["--preset", "lean"])).unwrap();
    assert_eq!(o.preset.as_deref(), Some("lean"));
}

#[test]
fn parse_dry_run() {
    let o = parse_args(&args(&["--dry-run"])).unwrap();
    assert!(o.dry_run);
}

#[test]
fn mod_parse_unknown_flag_errors() {
    let err = parse_args(&args(&["--bogus"])).unwrap_err();
    assert!(err.contains("unknown"));
}

#[test]
fn detect_shell_falls_back_to_zsh() {
    assert_eq!(detect_shell("/bin/weird"), "zsh");
}

#[test]
fn detect_shell_knows_three_shells() {
    assert_eq!(detect_shell("/usr/bin/bash"), "bash");
    assert_eq!(detect_shell("/usr/local/bin/fish"), "fish");
    assert_eq!(detect_shell("/bin/zsh"), "zsh");
}

// --- questions ---

#[test]
fn a_named_preset_is_not_asked_for() {
    let opts = Opts { preset: Some("pure".to_string()), dry_run: false, help: false };
    match collect_answers(&opts) {
        Source::Answers(a) => assert_eq!(a.source_preset, Some(Preset::Pure)),
        _ => panic!("expected answers"),
    }
    let opts = Opts { preset: Some("nope".to_string()), dry_run: false, help: false };
    match collect_answers(&opts) {
        Source::UnknownPreset(m) => assert!(m.contains("nope")),
        _ => panic!("expected an unknown preset"),
    }
    let opts = Opts { preset: None, dry_run: false, help: false };
    assert!(matches!(collect_answers(&opts), Source::Ask));
}

#[test]
fn the_end_of_the_questions_sets_the_exit() {
    assert_eq!(ask_exit(AskEnd::Done), None);
    assert!(ask_exit(AskEnd::Failed).is_some());
}

#[test]
fn options_read_back() {
    for (i, p) in Preset::all().iter().enumerate() {
        assert_eq!(preset_from_choice(&preset_options()[i]), *p);
    }
    for m in [IconMode::NerdFont, IconMode::Unicode, IconMode::Ascii] {
        assert_eq!(icons_from_choice(icon_options()[icon_start(m)]), m);
    }
    for m in [CaptureMode::Off, CaptureMode::PerCwd, CaptureMode::AlwaysOn] {
        assert_eq!(capture_from_choice(capture_options()[capture_start(m)]), m);
    }
}

#[test]
fn languages_are_chosen_by_their_names() {
    assert_eq!(language_defaults(&vec![Language::Rust]), [2]);
    let chosen = vec![
        Language::Python.display_name().to_string(),
        Language::Node.display_name().to_string(),
    ];
    let got = languages_from_choice(&chosen);
    assert_eq!(got.len(), 2);
    assert!(got.contains(&Language::Python) && got.contains(&Language::Node));
}

#[test]
fn replies_override_the_preset() {
    let replies = Replies {
        preset: preset_options()[0].clone(),
        icons: icon_options()[icon_start(IconMode::Ascii)].to_string(),
        features: Some(FeatureReplies {
            osc133: false,
            transient: false,
            async_render: true,
            history: false,
            live: false,
            capture: capture_options()[capture_start(CaptureMode::PerCwd)].to_string(),
        }),
        languages: vec![],
    };
    let a = answers_from_replies(&replies);
    assert_eq!(a.source_preset, Some(Preset::Lean));
    assert_eq!(a.icons, IconMode::Ascii);
    assert!(!a.features.osc133 && a.features.async_render && !a.features.history);
    assert_eq!(a.features.capture, CaptureMode::PerCwd);
    assert!(a.languages.is_empty());
}

// --- writing ---

#[test]
fn backup_path_appends_dot_bak() {
    assert_eq!(backup_path("/tmp/config.toml"), "/tmp/config.toml.bak");
}

#[test]
fn tmp_path_appends_dot_tmp() {
    assert_eq!(tmp_path("/tmp/config.toml"), "/tmp/config.toml.tmp");
}

#[test]
fn writes_to_new_path_no_backup() {
    let (_, res) = write_with_backup("/tmp/config.toml", false);
    assert!(res.backed_up.is_none());
    assert_eq!(res.written, "/tmp/config.toml");
}

#[test]
fn backs_up_existing_file_then_overwrites() {
    let (steps, res) = write_with_backup("/tmp/config.toml", true);
    let bak = res.backed_up.expect("expected a backup");
    assert_eq!(bak, "/tmp/config.toml.bak");
    assert!(matches!(steps.last(), Some(Step::Rename { .. })));
}

// --- settings ---

#[test]
fn default_config_has_empty_order() {
    let cfg = Config::default();
    assert!(cfg.segments.order.is_empty());
    assert_eq!(cfg.segment.len(), 0);
}

#[test]
fn segment_enabled_defaults_to_true() {
    let cfg = Config::default();
    assert!(cfg.segment_enabled("anything"));
}

#[test]
fn parse_segment_enabled() {
    let mut cfg = Config::default();
    cfg.segment.insert("hostname".to_string(), SegmentConfig { enabled: Some(false), ..SegmentConfig::default() });
    cfg.segment.insert("git".to_string(), SegmentConfig { enabled: Some(true), ..SegmentConfig::default() });
    assert!(!cfg.segment_enabled("hostname"));
    assert!(cfg.segment_enabled("git"));
}

#[test]
fn health_defaults_are_sane() {
    let cfg = Config::default();
    assert_eq!(cfg.health.network.host, "1.1.1.1");
    assert_eq!(cfg.health.network.port, 53);
    assert_eq!(cfg.health.network.timeout_ms, 500);
    assert!(cfg.health.disabled.is_empty());
}

#[test]
fn the_settings_are_below_the_configuration_directory() {
    assert_eq!(config_path(Some("/x.toml"), Some("/c"), Some("/h")), "/x.toml");
    assert_eq!(config_path(None, Some("/c"), Some("/h")), "/c/chevron/config.toml");
    assert_eq!(config_path(None, None, Some("/h")), "/h/.config/chevron/config.toml");
    assert_eq!(config_path(None, None, None), "./.config/chevron/config.toml");
}

#[test]
fn icon_sets_have_names() {
    assert_eq!(IconMode::NerdFont.config_name(), "nerd");
    assert_eq!(IconMode::Unicode.config_name(), "unicode");
    assert_eq!(IconMode::Ascii.config_name(), "ascii");
}
