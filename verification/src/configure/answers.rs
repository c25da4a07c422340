//! What the wizard was told.

use vstd::prelude::*;
use crate::text;
use crate::text::str_eq;

verus! {

/// Where a set of answers starts from.
#[derive(Debug, Clone, Copy, PartialEq, Eq, Structural)]
pub enum Preset {
    Lean,
    Pure,
    Rainbow,
    Classic,
    Minimal,
}

/// The name of a preset.
pub open spec fn preset_name(p: Preset) -> Seq<char> {
    match p {
        Preset::Lean => "lean"@,
        Preset::Pure => "pure"@,
        Preset::Rainbow => "rainbow"@,
        Preset::Classic => "classic"@,
        Preset::Minimal => "minimal"@,
    }
}

/// A preset in a few words.
pub open spec fn preset_tagline(p: Preset) -> Seq<char> {
    match p {
        Preset::Lean => "chevron default — full powerline, all segments"@,
        Preset::Pure => "minimal — path + git only, no powerline"@,
        Preset::Rainbow => "maximal color — all segments, every color"@,
        Preset::Classic => "user@host:path style — no powerline triangles"@,
        Preset::Minimal => "ASCII-only — path + character, no colors"@,
    }
}

/// All presets, in the order in which they are offered.
pub open spec fn all_presets() -> Seq<Preset> {
    seq![Preset::Lean, Preset::Pure, Preset::Rainbow, Preset::Classic, Preset::Minimal]
}

/// The preset of that name.
pub open spec fn preset_named(s: Seq<char>) -> Option<Preset> {
    if s == "lean"@ {
        Some(Preset::Lean)
    } else if s == "pure"@ {
        Some(Preset::Pure)
    } else if s == "rainbow"@ {
        Some(Preset::Rainbow)
    } else if s == "classic"@ {
        Some(Preset::Classic)
    } else if s == "minimal"@ {
        Some(Preset::Minimal)
    } else {
        None
    }
}

impl Preset {
    pub fn name(self) -> (r: &'static str)
        ensures
            r@ == preset_name(self),
    {
        match self {
            Preset::Lean => "lean",
            Preset::Pure => "pure",
            Preset::Rainbow => "rainbow",
            Preset::Classic => "classic",
            Preset::Minimal => "minimal",
        }
    }

    pub fn tagline(self) -> (r: &'static str)
        ensures
            r@ == preset_tagline(self),
    {
        match self {
            Preset::Lean => "chevron default — full powerline, all segments",
            Preset::Pure => "minimal — path + git only, no powerline",
            Preset::Rainbow => "maximal color — all segments, every color",
            Preset::Classic => "user@host:path style — no powerline triangles",
            Preset::Minimal => "ASCII-only — path + character, no colors",
        }
    }

    /// All presets, in the order in which they are offered.
    pub fn all() -> (r: [Preset; 5])
        ensures
            r@ == all_presets(),
    {
        [Preset::Lean, Preset::Pure, Preset::Rainbow, Preset::Classic, Preset::Minimal]
    }

    /// The preset of that name.
    pub fn from_name(s: &str) -> (r: Option<Preset>)
        ensures
            r == preset_named(s@),
    {
        if str_eq(s, "lean") {
            Some(Preset::Lean)
        } else if str_eq(s, "pure") {
            Some(Preset::Pure)
        } else if str_eq(s, "rainbow") {
            Some(Preset::Rainbow)
        } else if str_eq(s, "classic") {
            Some(Preset::Classic)
        } else if str_eq(s, "minimal") {
            Some(Preset::Minimal)
        } else {
            None
        }
    }
}

proof fn lemma_preset_names()
    ensures
        "lean"@ != "pure"@,
        "lean"@ != "rainbow"@,
        "lean"@ != "classic"@,
        "lean"@ != "minimal"@,
        "pure"@ != "rainbow"@,
        "pure"@ != "classic"@,
        "pure"@ != "minimal"@,
        "rainbow"@ != "classic"@,
        "rainbow"@ != "minimal"@,
        "classic"@ != "minimal"@,
{
    reveal_strlit("lean");
    reveal_strlit("pure");
    reveal_strlit("rainbow");
    reveal_strlit("classic");
    reveal_strlit("minimal");
    assert("lean"@.len() == 4);
    assert("pure"@.len() == 4);
    assert("rainbow"@.len() == 7);
    assert("classic"@.len() == 7);
    assert("minimal"@.len() == 7);
    assert("lean"@[0] == 'l');
    assert("pure"@[0] == 'p');
    assert("rainbow"@[0] == 'r');
    assert("classic"@[0] == 'c');
    assert("minimal"@[0] == 'm');
}

/// A preset is found by its name, and by nothing else.
pub proof fn law_presets_go_by_name(p: Preset, s: Seq<char>)
    ensures
        preset_named(preset_name(p)) == Some(p),
        preset_named(s) == Some(p) <==> s == preset_name(p),
        all_presets().contains(p),
{
    lemma_preset_names();
    let all = all_presets();
    assert(all[0] == Preset::Lean && all[1] == Preset::Pure && all[2] == Preset::Rainbow && all[3]
        == Preset::Classic && all[4] == Preset::Minimal);
}

/// Which glyphs the prompt may use.
#[derive(Debug, Clone, Copy, PartialEq, Eq, Structural)]
pub enum IconMode {
    /// Those of a Nerd Font.
    NerdFont,
    /// Unicode without the glyphs of a Nerd Font.
    Unicode,
    /// ASCII alone.
    Ascii,
}

/// The word for a mode in the settings.
pub open spec fn icon_word(m: IconMode) -> Seq<char> {
    match m {
        IconMode::NerdFont => "nerd"@,
        IconMode::Unicode => "unicode"@,
        IconMode::Ascii => "ascii"@,
    }
}

impl IconMode {
    /// The word for it in the settings.
    pub fn config_name(self) -> (r: &'static str)
        ensures
            r@ == icon_word(self),
    {
        match self {
            IconMode::NerdFont => "nerd",
            IconMode::Unicode => "unicode",
            IconMode::Ascii => "ascii",
        }
    }
}

/// How the segments are coloured.
#[derive(Debug, Clone, Copy, PartialEq, Eq, Structural)]
pub enum ColorScheme {
    /// Coloured backgrounds.
    Powerline,
    /// The same in grey.
    Greyscale,
    /// As colourful as it gets.
    Rainbow,
    /// No colours.
    NoColor,
}

/// Which commands have their output kept.
#[derive(Debug, Clone, Copy, PartialEq, Eq, Structural)]
pub enum CaptureMode {
    Off,
    PerCwd,
    AlwaysOn,
}

/// What a mode sets in the environment; switched off, it sets nothing.
pub open spec fn capture_word(m: CaptureMode) -> Option<Seq<char>> {
    match m {
        CaptureMode::Off => None,
        CaptureMode::PerCwd => Some("per_cwd"@),
        CaptureMode::AlwaysOn => Some("1"@),
    }
}

impl CaptureMode {
    /// What it sets in the environment.
    pub fn env_value(self) -> (r: Option<&'static str>)
        ensures
            text::opt_str_view(r) == capture_word(self),
    {
        match self {
            CaptureMode::Off => None,
            CaptureMode::PerCwd => Some("per_cwd"),
            CaptureMode::AlwaysOn => Some("1"),
        }
    }
}

/// What the start script of the shell switches on.
#[derive(Debug, Clone, Copy, PartialEq, Eq, Structural)]
pub struct Features {
    pub osc133: bool,
    pub transient: bool,
    pub async_render: bool,
    pub history: bool,
    pub live: bool,
    pub capture: CaptureMode,
}

/// What is switched on unless something else is said.
pub open spec fn default_features() -> Features {
    Features {
        osc133: true,
        transient: true,
        async_render: false,
        history: true,
        live: true,
        capture: CaptureMode::Off,
    }
}

impl Default for Features {
    fn default() -> (r: Self)
        ensures
            r == default_features(),
    {
        Features {
            osc133: true,
            transient: true,
            async_render: false,
            history: true,
            live: true,
            capture: CaptureMode::Off,
        }
    }
}

/// A language whose tools have a segment.
#[derive(Debug, Clone, Copy, PartialEq, Eq, Structural)]
pub enum Language {
    Node,
    Python,
    Rust,
}

/// The segment of a language.
pub open spec fn language_segment(l: Language) -> Seq<char> {
    match l {
        Language::Node => "node"@,
        Language::Python => "python"@,
        Language::Rust => "rust_toolchain"@,
    }
}

/// The name of a language.
pub open spec fn language_name(l: Language) -> Seq<char> {
    match l {
        Language::Node => "Node.js"@,
        Language::Python => "Python"@,
        Language::Rust => "Rust"@,
    }
}

/// All languages, in the order in which they are offered.
pub open spec fn all_languages() -> Seq<Language> {
    seq![Language::Node, Language::Python, Language::Rust]
}

impl Language {
    /// The segment of the language.
    pub fn segment_name(self) -> (r: &'static str)
        ensures
            r@ == language_segment(self),
    {
        match self {
            Language::Node => "node",
            Language::Python => "python",
            Language::Rust => "rust_toolchain",
        }
    }

    /// The name of the language.
    pub fn display_name(self) -> (r: &'static str)
        ensures
            r@ == language_name(self),
    {
        match self {
            Language::Node => "Node.js",
            Language::Python => "Python",
            Language::Rust => "Rust",
        }
    }

    /// All languages, in the order in which they are offered.
    pub fn all() -> (r: [Language; 3])
        ensures
            r@ == all_languages(),
    {
        [Language::Node, Language::Python, Language::Rust]
    }
}

/// What the wizard was told.
#[derive(Debug, Clone, PartialEq, Eq)]
pub struct AnswerSet {
    pub icons: IconMode,
    pub color_scheme: ColorScheme,
    pub features: Features,
    pub languages: Vec<Language>,
    /// The segments in the order in which they are shown. Empty means the default
    /// order.
    pub segment_order: Vec<&'static str>,
    /// The segments that are switched off.
    pub disabled_segments: Vec<&'static str>,
    /// Where the answers started from.
    pub source_preset: Option<Preset>,
}

/// The value of a set of answers.
#[verifier::ext_equal]
pub struct AnswersView {
    pub icons: IconMode,
    pub color_scheme: ColorScheme,
    pub features: Features,
    pub languages: Seq<Language>,
    pub segment_order: Seq<Seq<char>>,
    pub disabled_segments: Seq<Seq<char>>,
    pub source_preset: Option<Preset>,
}

impl View for AnswerSet {
    type V = AnswersView;

    open spec fn view(&self) -> AnswersView {
        AnswersView {
            icons: self.icons,
            color_scheme: self.color_scheme,
            features: self.features,
            languages: self.languages@,
            segment_order: text::str_views(self.segment_order@),
            disabled_segments: text::str_views(self.disabled_segments@),
            source_preset: self.source_preset,
        }
    }
}

/// What holds where nothing was asked.
pub open spec fn default_answers() -> AnswersView {
    AnswersView {
        icons: IconMode::NerdFont,
        color_scheme: ColorScheme::Powerline,
        features: default_features(),
        languages: all_languages(),
        segment_order: Seq::empty(),
        disabled_segments: Seq::empty(),
        source_preset: None,
    }
}

impl Default for AnswerSet {
    fn default() -> (r: Self)
        ensures
            r@ == default_answers(),
    {
        let a: AnswerSet = AnswerSet {
            icons: IconMode::NerdFont,
            color_scheme: ColorScheme::Powerline,
            features: Features {
                osc133: true,
                transient: true,
                async_render: false,
                history: true,
                live: true,
                capture: CaptureMode::Off,
            },
            languages: vec![Language::Node, Language::Python, Language::Rust],
            segment_order: Vec::new(),
            disabled_segments: Vec::new(),
            source_preset: None,
        };
        proof {
            assert(a@ =~= default_answers());
        }
        a
    }
}

/// Every choice is written in a word of its own.
pub proof fn law_choices_have_their_own_words(a: IconMode, b: IconMode, l: Language, m: Language)
    ensures
        icon_word(a) == icon_word(b) ==> a == b,
        language_segment(l) == language_segment(m) ==> l == m,
        language_name(l) == language_name(m) ==> l == m,
        capture_word(CaptureMode::PerCwd) != capture_word(CaptureMode::AlwaysOn),
        capture_word(CaptureMode::Off) is None,
        capture_word(CaptureMode::PerCwd) is Some,
        capture_word(CaptureMode::AlwaysOn) is Some,
{
    reveal_strlit("nerd");
    reveal_strlit("unicode");
    reveal_strlit("ascii");
    reveal_strlit("node");
    reveal_strlit("python");
    reveal_strlit("rust_toolchain");
    reveal_strlit("Node.js");
    reveal_strlit("Python");
    reveal_strlit("Rust");
    reveal_strlit("per_cwd");
    reveal_strlit("1");
    assert(icon_word(a)[0] == icon_word(b)[0] ==> a == b);
    assert(language_segment(l)[0] == language_segment(m)[0] ==> l == m);
    assert(language_name(l)[0] == language_name(m)[0] ==> l == m);
    assert("per_cwd"@.len() != "1"@.len());
}

} // verus!
