//! Where a set of answers can start from.

use vstd::prelude::*;
use crate::config;
use crate::configure::answers;
use crate::configure::answers::{
    AnswerSet, AnswersView, CaptureMode, ColorScheme, Features, IconMode, Language, Preset,
};
use crate::text;

verus! {

/// The answers of a preset.
pub open spec fn preset_answers(p: Preset) -> AnswersView {
    match p {
        // Chevron's own look: everything on.
        Preset::Lean => AnswersView {
            icons: IconMode::NerdFont,
            color_scheme: ColorScheme::Powerline,
            features: answers::default_features(),
            languages: answers::all_languages(),
            segment_order: Seq::empty(),
            disabled_segments: Seq::empty(),
            source_preset: Some(Preset::Lean),
        },
        // Path and repository, nothing else.
        Preset::Pure => AnswersView {
            icons: IconMode::Unicode,
            color_scheme: ColorScheme::Greyscale,
            features: Features { transient: false, ..answers::default_features() },
            languages: Seq::empty(),
            segment_order: seq!["path"@, "git"@, "character"@],
            disabled_segments: seq!["venv"@, "username"@, "hostname"@, "nix_shell"@, "aws"@, "k8s"@, "node"@, "python"@, "rust_toolchain"@, "status"@, "cmd_duration"@, "jobs"@],
            source_preset: Some(Preset::Pure),
        },
        // Everything, in as many colours as there are.
        Preset::Rainbow => AnswersView {
            icons: IconMode::NerdFont,
            color_scheme: ColorScheme::Rainbow,
            features: answers::default_features(),
            languages: answers::all_languages(),
            segment_order: Seq::empty(),
            disabled_segments: Seq::empty(),
            source_preset: Some(Preset::Rainbow),
        },
        // `user@host:path`, without triangles.
        Preset::Classic => AnswersView {
            icons: IconMode::Unicode,
            color_scheme: ColorScheme::Powerline,
            features: Features { transient: false, ..answers::default_features() },
            languages: answers::all_languages(),
            segment_order: seq!["username"@, "hostname"@, "path"@, "git"@, "character"@],
            disabled_segments: seq!["venv"@, "nix_shell"@, "aws"@, "k8s"@, "status"@, "cmd_duration"@, "jobs"@],
            source_preset: Some(Preset::Classic),
        },
        // ASCII alone, for terminals that show nothing else.
        Preset::Minimal => AnswersView {
            icons: IconMode::Ascii,
            color_scheme: ColorScheme::NoColor,
            features: Features { transient: false, osc133: false, live: false, ..answers::default_features() },
            languages: Seq::empty(),
            segment_order: seq!["path"@, "character"@],
            disabled_segments: seq!["venv"@, "username"@, "hostname"@, "nix_shell"@, "aws"@, "k8s"@, "git"@, "node"@, "python"@, "rust_toolchain"@, "status"@, "cmd_duration"@, "jobs"@],
            source_preset: Some(Preset::Minimal),
        },
    }
}

fn features(osc133: bool, transient: bool, live: bool) -> (r: Features)
    ensures
        r == (Features { osc133, transient, live, ..answers::default_features() }),
{
    Features { osc133, transient, async_render: false, history: true, live, capture: CaptureMode::Off }
}

/// Chevron's own look: everything on.
fn lean() -> (r: AnswerSet)
    ensures
        r@ == preset_answers(Preset::Lean),
{
    let a: AnswerSet = AnswerSet {
        icons: IconMode::NerdFont,
        color_scheme: ColorScheme::Powerline,
        features: features(true, true, true),
        languages: vec![Language::Node, Language::Python, Language::Rust],
        segment_order: Vec::new(),
        disabled_segments: Vec::new(),
        source_preset: Some(Preset::Lean),
    };
    proof {
        let p = preset_answers(Preset::Lean);
        assert(a.languages@ =~= p.languages);
        assert(text::str_views(a.segment_order@) =~= p.segment_order);
        assert(text::str_views(a.disabled_segments@) =~= p.disabled_segments);
    }
    a
}

/// Path and repository, nothing else.
fn pure() -> (r: AnswerSet)
    ensures
        r@ == preset_answers(Preset::Pure),
{
    let a: AnswerSet = AnswerSet {
        icons: IconMode::Unicode,
        color_scheme: ColorScheme::Greyscale,
        features: features(true, false, true),
        languages: Vec::new(),
        segment_order: vec!["path", "git", "character"],
        disabled_segments: vec!["venv", "username", "hostname", "nix_shell", "aws", "k8s", "node", "python", "rust_toolchain", "status", "cmd_duration", "jobs"],
        source_preset: Some(Preset::Pure),
    };
    proof {
        let p = preset_answers(Preset::Pure);
        assert(a.languages@ =~= p.languages);
        assert(text::str_views(a.segment_order@) =~= p.segment_order);
        assert(text::str_views(a.disabled_segments@) =~= p.disabled_segments);
    }
    a
}

/// Everything, in as many colours as there are.
fn rainbow() -> (r: AnswerSet)
    ensures
        r@ == preset_answers(Preset::Rainbow),
{
    let a: AnswerSet = AnswerSet {
        icons: IconMode::NerdFont,
        color_scheme: ColorScheme::Rainbow,
        features: features(true, true, true),
        languages: vec![Language::Node, Language::Python, Language::Rust],
        segment_order: Vec::new(),
        disabled_segments: Vec::new(),
        source_preset: Some(Preset::Rainbow),
    };
    proof {
        let p = preset_answers(Preset::Rainbow);
        assert(a.languages@ =~= p.languages);
        assert(text::str_views(a.segment_order@) =~= p.segment_order);
        assert(text::str_views(a.disabled_segments@) =~= p.disabled_segments);
    }
    a
}

/// `user@host:path`, without triangles.
fn classic() -> (r: AnswerSet)
    ensures
        r@ == preset_answers(Preset::Classic),
{
    let a: AnswerSet = AnswerSet {
        icons: IconMode::Unicode,
        color_scheme: ColorScheme::Powerline,
        features: features(true, false, true),
        languages: vec![Language::Node, Language::Python, Language::Rust],
        segment_order: vec!["username", "hostname", "path", "git", "character"],
        disabled_segments: vec!["venv", "nix_shell", "aws", "k8s", "status", "cmd_duration", "jobs"],
        source_preset: Some(Preset::Classic),
    };
    proof {
        let p = preset_answers(Preset::Classic);
        assert(a.languages@ =~= p.languages);
        assert(text::str_views(a.segment_order@) =~= p.segment_order);
        assert(text::str_views(a.disabled_segments@) =~= p.disabled_segments);
    }
    a
}

/// ASCII alone, for terminals that show nothing else.
fn minimal() -> (r: AnswerSet)
    ensures
        r@ == preset_answers(Preset::Minimal),
{
    let a: AnswerSet = AnswerSet {
        icons: IconMode::Ascii,
        color_scheme: ColorScheme::NoColor,
        features: features(false, false, false),
        languages: Vec::new(),
        segment_order: vec!["path", "character"],
        disabled_segments: vec!["venv", "username", "hostname", "nix_shell", "aws", "k8s", "git", "node", "python", "rust_toolchain", "status", "cmd_duration", "jobs"],
        source_preset: Some(Preset::Minimal),
    };
    proof {
        let p = preset_answers(Preset::Minimal);
        assert(a.languages@ =~= p.languages);
        assert(text::str_views(a.segment_order@) =~= p.segment_order);
        assert(text::str_views(a.disabled_segments@) =~= p.disabled_segments);
    }
    a
}

/// The answers of a preset.
#[must_use]
pub fn from_preset(preset: Preset) -> (r: AnswerSet)
    ensures
        r@ == preset_answers(preset),
{
    match preset {
        Preset::Lean => lean(),
        Preset::Pure => pure(),
        Preset::Rainbow => rainbow(),
        Preset::Classic => classic(),
        Preset::Minimal => minimal(),
    }
}

/// The answers of a preset say which it was.
pub proof fn law_presets_record_their_source(p: Preset)
    ensures
        preset_answers(p).source_preset == Some(p),
{
}

/// Without a choice the answers are those of the lean preset, but that no preset is
/// named as their source.
pub proof fn law_defaults_are_the_lean_preset()
    ensures
        preset_answers(Preset::Lean) == (AnswersView {
            source_preset: Some(Preset::Lean),
            ..answers::default_answers()
        }),
{
    assert(preset_answers(Preset::Lean) =~= (AnswersView {
        source_preset: Some(Preset::Lean),
        ..answers::default_answers()
    }));
}

/// No two presets look the same: they differ in their icons or their colours.
pub proof fn law_presets_look_different(p: Preset, q: Preset)
    requires
        p != q,
    ensures
        preset_answers(p).icons != preset_answers(q).icons || preset_answers(p).color_scheme
            != preset_answers(q).color_scheme,
{
}

/// No preset shows a segment that it switches off.
pub proof fn law_presets_show_what_they_list(p: Preset, i: int, j: int)
    requires
        0 <= i < preset_answers(p).segment_order.len(),
        0 <= j < preset_answers(p).disabled_segments.len(),
    ensures
        preset_answers(p).segment_order[i] != preset_answers(p).disabled_segments[j],
{
    lemma_segment_names();
}

proof fn lemma_segment_names()
    ensures
        "path"@ != "git"@,
        "path"@ != "character"@,
        "path"@ != "username"@,
        "path"@ != "hostname"@,
        "path"@ != "venv"@,
        "path"@ != "nix_shell"@,
        "path"@ != "aws"@,
        "path"@ != "k8s"@,
        "path"@ != "node"@,
        "path"@ != "python"@,
        "path"@ != "rust_toolchain"@,
        "path"@ != "status"@,
        "path"@ != "cmd_duration"@,
        "path"@ != "jobs"@,
        "git"@ != "character"@,
        "git"@ != "username"@,
        "git"@ != "hostname"@,
        "git"@ != "venv"@,
        "git"@ != "nix_shell"@,
        "git"@ != "aws"@,
        "git"@ != "k8s"@,
        "git"@ != "node"@,
        "git"@ != "python"@,
        "git"@ != "rust_toolchain"@,
        "git"@ != "status"@,
        "git"@ != "cmd_duration"@,
        "git"@ != "jobs"@,
        "character"@ != "username"@,
        "character"@ != "hostname"@,
        "character"@ != "venv"@,
        "character"@ != "nix_shell"@,
        "character"@ != "aws"@,
        "character"@ != "k8s"@,
        "character"@ != "node"@,
        "character"@ != "python"@,
        "character"@ != "rust_toolchain"@,
        "character"@ != "status"@,
        "character"@ != "cmd_duration"@,
        "character"@ != "jobs"@,
        "username"@ != "hostname"@,
        "username"@ != "venv"@,
        "username"@ != "nix_shell"@,
        "username"@ != "aws"@,
        "username"@ != "k8s"@,
        "username"@ != "node"@,
        "username"@ != "python"@,
        "username"@ != "rust_toolchain"@,
        "username"@ != "status"@,
        "username"@ != "cmd_duration"@,
        "username"@ != "jobs"@,
        "hostname"@ != "venv"@,
        "hostname"@ != "nix_shell"@,
        "hostname"@ != "aws"@,
        "hostname"@ != "k8s"@,
        "hostname"@ != "node"@,
        "hostname"@ != "python"@,
        "hostname"@ != "rust_toolchain"@,
        "hostname"@ != "status"@,
        "hostname"@ != "cmd_duration"@,
        "hostname"@ != "jobs"@,
        "venv"@ != "nix_shell"@,
        "venv"@ != "aws"@,
        "venv"@ != "k8s"@,
        "venv"@ != "node"@,
        "venv"@ != "python"@,
        "venv"@ != "rust_toolchain"@,
        "venv"@ != "status"@,
        "venv"@ != "cmd_duration"@,
        "venv"@ != "jobs"@,
        "nix_shell"@ != "aws"@,
        "nix_shell"@ != "k8s"@,
        "nix_shell"@ != "node"@,
        "nix_shell"@ != "python"@,
        "nix_shell"@ != "rust_toolchain"@,
        "nix_shell"@ != "status"@,
        "nix_shell"@ != "cmd_duration"@,
        "nix_shell"@ != "jobs"@,
        "aws"@ != "k8s"@,
        "aws"@ != "node"@,
        "aws"@ != "python"@,
        "aws"@ != "rust_toolchain"@,
        "aws"@ != "status"@,
        "aws"@ != "cmd_duration"@,
        "aws"@ != "jobs"@,
        "k8s"@ != "node"@,
        "k8s"@ != "python"@,
        "k8s"@ != "rust_toolchain"@,
        "k8s"@ != "status"@,
        "k8s"@ != "cmd_duration"@,
        "k8s"@ != "jobs"@,
        "node"@ != "python"@,
        "node"@ != "rust_toolchain"@,
        "node"@ != "status"@,
        "node"@ != "cmd_duration"@,
        "node"@ != "jobs"@,
        "python"@ != "rust_toolchain"@,
        "python"@ != "status"@,
        "python"@ != "cmd_duration"@,
        "python"@ != "jobs"@,
        "rust_toolchain"@ != "status"@,
        "rust_toolchain"@ != "cmd_duration"@,
        "rust_toolchain"@ != "jobs"@,
        "status"@ != "cmd_duration"@,
        "status"@ != "jobs"@,
        "cmd_duration"@ != "jobs"@,
{
    reveal_strlit("path");
    reveal_strlit("git");
    reveal_strlit("character");
    reveal_strlit("username");
    reveal_strlit("hostname");
    reveal_strlit("venv");
    reveal_strlit("nix_shell");
    reveal_strlit("aws");
    reveal_strlit("k8s");
    reveal_strlit("node");
    reveal_strlit("python");
    reveal_strlit("rust_toolchain");
    reveal_strlit("status");
    reveal_strlit("cmd_duration");
    reveal_strlit("jobs");
    assert("path"@.len() == 4);
    assert("git"@.len() == 3);
    assert("character"@.len() == 9);
    assert("username"@.len() == 8);
    assert("hostname"@.len() == 8);
    assert("venv"@.len() == 4);
    assert("nix_shell"@.len() == 9);
    assert("aws"@.len() == 3);
    assert("k8s"@.len() == 3);
    assert("node"@.len() == 4);
    assert("python"@.len() == 6);
    assert("rust_toolchain"@.len() == 14);
    assert("status"@.len() == 6);
    assert("cmd_duration"@.len() == 12);
    assert("jobs"@.len() == 4);
    assert("path"@[0] == 'p');
    assert("venv"@[0] == 'v');
    assert("node"@[0] == 'n');
    assert("jobs"@[0] == 'j');
    assert("git"@[0] == 'g');
    assert("aws"@[0] == 'a');
    assert("k8s"@[0] == 'k');
    assert("character"@[0] == 'c');
    assert("nix_shell"@[0] == 'n');
    assert("username"@[0] == 'u');
    assert("hostname"@[0] == 'h');
    assert("python"@[0] == 'p');
    assert("status"@[0] == 's');
}

/// What the presets promise: the two full ones hide nothing and show all languages, the
/// prompt that shrinks is theirs alone, and only the minimal one does without marks and
/// live updates, colours and anything but ASCII. None captures output, and all keep a
/// history.
pub proof fn law_presets_keep_their_promise(p: Preset)
    ensures
        ({
            let a = preset_answers(p);
            let full = p is Lean || p is Rainbow;
            &&& a.disabled_segments.len() == 0 <==> full
            &&& a.segment_order.len() == 0 <==> full
            &&& a.features.transient <==> full
            &&& a.icons is NerdFont <==> full
            &&& !a.features.osc133 <==> p is Minimal
            &&& !a.features.live <==> p is Minimal
            &&& a.icons is Ascii <==> p is Minimal
            &&& a.color_scheme is NoColor <==> p is Minimal
            &&& a.color_scheme is Greyscale <==> p is Pure
            &&& a.color_scheme is Rainbow <==> p is Rainbow
            &&& a.features.history && !a.features.async_render && a.features.capture is Off
            &&& a.languages.len() == 0 <==> p is Pure || p is Minimal
            &&& !full ==> a.segment_order.last() == "character"@
        }),
{
}

/// What is switched on unless something else is said is the same whether it is asked
/// for or read from the settings.
pub proof fn law_defaults_agree()
    ensures
        answers::default_features().osc133 == config::default_shell().osc133,
        answers::default_features().transient == config::default_shell().transient,
        answers::default_features().async_render == config::default_shell().async_render,
        answers::default_features().history == config::default_shell().history,
        answers::default_features().live == config::default_shell().live,
{
}

} // verus!
