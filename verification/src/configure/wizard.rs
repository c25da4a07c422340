//! What the wizard asks and what it makes of the replies.

use vstd::prelude::*;
use crate::configure::answers;
use crate::configure::answers::{AnswerSet, CaptureMode, Features, IconMode, Language, Preset};
use crate::configure::presets;
use crate::configure::presets::from_preset;
use crate::paths;
use crate::paths::file_name;
use crate::text;
use crate::text::{holds, joined, owned, starts_with_str, str_eq};

verus! {

// ── The command line ────────────────────────────────────────────────────────

/// What the command line asks for.
#[derive(Debug)]
pub struct Opts {
    /// The preset to apply without asking anything.
    pub preset: Option<String>,
    pub dry_run: bool,
    pub help: bool,
}

/// The value of `Opts`.
pub struct OptsView {
    pub preset: Option<Seq<char>>,
    pub dry_run: bool,
    pub help: bool,
}

impl View for Opts {
    type V = OptsView;

    open spec fn view(&self) -> OptsView {
        OptsView { preset: text::opt_view(self.preset), dry_run: self.dry_run, help: self.help }
    }
}

/// What is asked for before any argument is read.
pub open spec fn no_args() -> OptsView {
    OptsView { preset: None, dry_run: false, help: false }
}

/// All the arguments, from left to right: a later one overrides an earlier one,
/// and the first that cannot be read ends it.
pub open spec fn read_args(o: OptsView, args: Seq<Seq<char>>) -> Result<OptsView, Seq<char>>
    decreases args.len(),
{
    if args.len() == 0 {
        Ok(o)
    } else if args[0] == "--dry-run"@ {
        read_args(OptsView { dry_run: true, ..o }, args.skip(1))
    } else if args[0] == "--preset"@ {
        if args.len() == 1 {
            Err("--preset requires a name"@)
        } else {
            read_args(OptsView { preset: Some(args[1]), ..o }, args.skip(2))
        }
    } else if args[0] == "-h"@ || args[0] == "--help"@ {
        read_args(OptsView { help: true, ..o }, args.skip(1))
    } else {
        Err("unknown argument '"@ + args[0] + "'"@)
    }
}

/// Whether an outcome has the given value.
pub open spec fn parsed(r: Result<Opts, String>, s: Result<OptsView, Seq<char>>) -> bool {
    match (r, s) {
        (Ok(a), Ok(b)) => a@ == b,
        (Err(a), Err(b)) => a@ == b,
        _ => false,
    }
}

/// What the arguments ask for.
pub fn parse_args(args: &Vec<String>) -> (r: Result<Opts, String>)
    ensures
        parsed(r, read_args(no_args(), text::views(args@))),
{
    let mut o: Opts = Opts { preset: None, dry_run: false, help: false };
    let mut i: usize = 0;
    let ghost all = text::views(args@);
    proof {
        assert(all.skip(0) =~= all);
    }
    while i < args.len()
        invariant
            all == text::views(args@),
            i <= args@.len(),
            read_args(no_args(), all) == read_args(o@, all.skip(i as int)),
        decreases args@.len() - i,
    {
        let arg: &str = args[i].as_str();
        let ghost rest = all.skip(i as int);
        proof {
            assert(rest[0] == arg@);
            assert(rest.skip(1) =~= all.skip(i as int + 1));
            if i + 1 < args@.len() {
                assert(rest[1] == args@[i as int + 1]@);
                assert(rest.skip(2) =~= all.skip(i as int + 2));
            }
        }
        if str_eq(arg, "--dry-run") {
            o.dry_run = true;
        } else if str_eq(arg, "--preset") {
            i += 1;
            if i >= args.len() {
                return Err(owned("--preset requires a name"));
            }
            o.preset = Some(owned(args[i].as_str()));
        } else if str_eq(arg, "-h") || str_eq(arg, "--help") {
            o.help = true;
        } else {
            let mut e: String = joined("unknown argument '", arg);
            e.push_str("'");
            return Err(e);
        }
        i += 1;
    }
    Ok(o)
}

/// The shell that a snippet is written for: the one in use where there is a
/// snippet for it, else zsh.
pub open spec fn shell_of(shell: Seq<char>) -> Seq<char> {
    match paths::file_name_of(shell) {
        Some(name) if name == "bash"@ || name == "fish"@ || name == "zsh"@ => name,
        _ => "zsh"@,
    }
}

/// The shell that a snippet is written for, from `SHELL`.
pub fn detect_shell(shell: &str) -> (r: String)
    ensures
        r@ == shell_of(shell@),
{
    if let Some(name) = file_name(shell) {
        if str_eq(name.as_str(), "bash") || str_eq(name.as_str(), "fish") || str_eq(name.as_str(), "zsh") {
            return name;
        }
    }
    owned("zsh")
}

// ── Where the answers come from ─────────────────────────────────────────────

/// Where the answers come from.
#[derive(Debug)]
pub enum Source {
    /// A preset, without a question.
    Answers(AnswerSet),
    /// The questions.
    Ask,
    /// The preset that was named is not known: what to say.
    UnknownPreset(String),
}

/// What is said of a preset that is not known.
pub open spec fn unknown_preset_of(name: Seq<char>) -> Seq<char> {
    "unknown preset '"@ + name + "'. Available: "@ + text::join_of(
        seq!["lean"@, "pure"@, "rainbow"@, "classic"@, "minimal"@],
        ", "@,
    )
}

/// The names of all presets.
fn preset_names() -> (r: Vec<&'static str>)
    ensures
        text::str_views(r@) == seq!["lean"@, "pure"@, "rainbow"@, "classic"@, "minimal"@],
{
    let v: Vec<&'static str> = vec![
        Preset::Lean.name(),
        Preset::Pure.name(),
        Preset::Rainbow.name(),
        Preset::Classic.name(),
        Preset::Minimal.name(),
    ];
    proof {
        assert(text::str_views(v@) =~= seq!["lean"@, "pure"@, "rainbow"@, "classic"@, "minimal"@]);
    }
    v
}

/// Where the answers come from.
pub fn collect_answers(opts: &Opts) -> (r: Source)
    ensures
        match opts@.preset {
            None => r is Ask,
            Some(name) => match answers::preset_named(name) {
                Some(p) => r matches Source::Answers(a) && a@ == presets::preset_answers(p),
                None => r matches Source::UnknownPreset(e) && e@ == unknown_preset_of(name),
            },
        },
{
    match &opts.preset {
        None => Source::Ask,
        Some(name) => match Preset::from_name(name.as_str()) {
            Some(p) => Source::Answers(from_preset(p)),
            None => {
                let mut e: String = joined("unknown preset '", name.as_str());
                e.push_str("'. Available: ");
                let names: Vec<&'static str> = preset_names();
                e.push_str(crate::text::join_strs(&names, ", ").as_str());
                Source::UnknownPreset(e)
            },
        },
    }
}

/// How asking the questions ended.
#[derive(Debug, Clone, Copy, PartialEq, Eq, Structural)]
pub enum AskEnd {
    /// All were answered.
    Done,
    /// The first was answered with no.
    Declined,
    /// One was cancelled or interrupted.
    Cancelled,
    /// They could not be asked.
    Failed,
}

/// The exit code where the questions gave no answers; a cancelled one has that of
/// an interrupt.
pub fn ask_exit(end: AskEnd) -> (r: Option<i32>)
    ensures
        r == (match end {
            AskEnd::Done => None,
            AskEnd::Declined => Some(0i32),
            AskEnd::Cancelled => Some(130i32),
            AskEnd::Failed => Some(1i32),
        }),
{
    match end {
        AskEnd::Done => None,
        AskEnd::Declined => Some(0),
        AskEnd::Cancelled => Some(130),
        AskEnd::Failed => Some(1),
    }
}

// ── The questions ───────────────────────────────────────────────────────────

/// How a preset is offered.
pub open spec fn preset_label(p: Preset) -> Seq<char> {
    answers::preset_name(p) + " — "@ + answers::preset_tagline(p)
}

/// How a preset is offered.
pub fn preset_option(p: Preset) -> (r: String)
    ensures
        r@ == preset_label(p),
{
    let mut s: String = joined(p.name(), " — ");
    s.push_str(p.tagline());
    s
}

/// How all presets are offered.
pub fn preset_options() -> (r: Vec<String>)
    ensures
        text::views(r@) == Seq::new(5, |i: int| preset_label(answers::all_presets()[i])),
{
    let v: Vec<String> = vec![
        preset_option(Preset::Lean),
        preset_option(Preset::Pure),
        preset_option(Preset::Rainbow),
        preset_option(Preset::Classic),
        preset_option(Preset::Minimal),
    ];
    proof {
        assert(text::views(v@) =~= Seq::new(5, |i: int| preset_label(answers::all_presets()[i])));
    }
    v
}

/// The first preset that is offered as `choice`; the default where none is.
pub open spec fn chosen_preset(choice: Seq<char>) -> Preset {
    if choice == preset_label(Preset::Lean) {
        Preset::Lean
    } else if choice == preset_label(Preset::Pure) {
        Preset::Pure
    } else if choice == preset_label(Preset::Rainbow) {
        Preset::Rainbow
    } else if choice == preset_label(Preset::Classic) {
        Preset::Classic
    } else if choice == preset_label(Preset::Minimal) {
        Preset::Minimal
    } else {
        Preset::Lean
    }
}

/// The preset that was picked.
pub fn preset_from_choice(choice: &str) -> (r: Preset)
    ensures
        r == chosen_preset(choice@),
{
    let all: [Preset; 5] = Preset::all();
    let mut i: usize = 0;
    while i < 5
        invariant
            all@ == answers::all_presets(),
            i <= 5,
            forall|j: int| 0 <= j < i ==> choice@ != preset_label(#[trigger] all@[j]),
        decreases 5 - i,
    {
        let label: String = preset_option(all[i]);
        if str_eq(label.as_str(), choice) {
            proof {
                let a = all@;
                assert(a[0] == Preset::Lean && a[1] == Preset::Pure && a[2] == Preset::Rainbow && a[3]
                    == Preset::Classic && a[4] == Preset::Minimal);
            }
            return all[i];
        }
        i += 1;
    }
    proof {
        let a = all@;
        assert(a[0] == Preset::Lean && a[1] == Preset::Pure && a[2] == Preset::Rainbow && a[3]
            == Preset::Classic && a[4] == Preset::Minimal);
    }
    Preset::Lean
}

/// How the icons are offered.
pub fn icon_options() -> (r: Vec<&'static str>)
    ensures
        r@.len() == 3,
        r@[0]@ == "Nerd Font (recommended — requires a Nerd-Font terminal)"@,
        r@[1]@ == "Unicode (no Nerd Font glyphs)"@,
        r@[2]@ == "ASCII (pasteable / safe for any terminal)"@,
{
    vec![
        "Nerd Font (recommended — requires a Nerd-Font terminal)",
        "Unicode (no Nerd Font glyphs)",
        "ASCII (pasteable / safe for any terminal)",
    ]
}

/// Where the mode in force stands among those offered.
pub open spec fn icon_index(m: IconMode) -> nat {
    match m {
        IconMode::NerdFont => 0,
        IconMode::Unicode => 1,
        IconMode::Ascii => 2,
    }
}

/// Where the mode in force stands among those offered.
pub fn icon_start(m: IconMode) -> (r: usize)
    ensures
        r == icon_index(m),
{
    match m {
        IconMode::NerdFont => 0,
        IconMode::Unicode => 1,
        IconMode::Ascii => 2,
    }
}

/// The mode that was picked.
pub open spec fn chosen_icons(choice: Seq<char>) -> IconMode {
    if text::starts_with_of(choice, "Nerd"@) {
        IconMode::NerdFont
    } else if text::starts_with_of(choice, "Unicode"@) {
        IconMode::Unicode
    } else {
        IconMode::Ascii
    }
}

/// The mode that was picked.
pub fn icons_from_choice(choice: &str) -> (r: IconMode)
    ensures
        r == chosen_icons(choice@),
{
    if starts_with_str(choice, "Nerd") {
        IconMode::NerdFont
    } else if starts_with_str(choice, "Unicode") {
        IconMode::Unicode
    } else {
        IconMode::Ascii
    }
}

/// How the capture modes are offered.
pub fn capture_options() -> (r: Vec<&'static str>)
    ensures
        r@.len() == 3,
        r@[0]@ == "Off"@,
        r@[1]@ == "Per-directory (opt-in)"@,
        r@[2]@ == "Always-on"@,
{
    vec!["Off", "Per-directory (opt-in)", "Always-on"]
}

/// Where the mode in force stands among those offered.
pub open spec fn capture_index(m: CaptureMode) -> nat {
    match m {
        CaptureMode::Off => 0,
        CaptureMode::PerCwd => 1,
        CaptureMode::AlwaysOn => 2,
    }
}

/// Where the mode in force stands among those offered.
pub fn capture_start(m: CaptureMode) -> (r: usize)
    ensures
        r == capture_index(m),
{
    match m {
        CaptureMode::Off => 0,
        CaptureMode::PerCwd => 1,
        CaptureMode::AlwaysOn => 2,
    }
}

/// The mode that was picked.
pub open spec fn chosen_capture(choice: Seq<char>) -> CaptureMode {
    if choice == "Per-directory (opt-in)"@ {
        CaptureMode::PerCwd
    } else if choice == "Always-on"@ {
        CaptureMode::AlwaysOn
    } else {
        CaptureMode::Off
    }
}

/// The mode that was picked.
pub fn capture_from_choice(choice: &str) -> (r: CaptureMode)
    ensures
        r == chosen_capture(choice@),
{
    if str_eq(choice, "Per-directory (opt-in)") {
        CaptureMode::PerCwd
    } else if str_eq(choice, "Always-on") {
        CaptureMode::AlwaysOn
    } else {
        CaptureMode::Off
    }
}

/// Picking the entry that a mode starts at picks that mode again.
pub proof fn law_defaults_are_kept(icons: IconMode, capture: CaptureMode)
    ensures
        chosen_icons(
            match icons {
                IconMode::NerdFont => "Nerd Font (recommended — requires a Nerd-Font terminal)"@,
                IconMode::Unicode => "Unicode (no Nerd Font glyphs)"@,
                IconMode::Ascii => "ASCII (pasteable / safe for any terminal)"@,
            },
        ) == icons,
        chosen_capture(
            match capture {
                CaptureMode::Off => "Off"@,
                CaptureMode::PerCwd => "Per-directory (opt-in)"@,
                CaptureMode::AlwaysOn => "Always-on"@,
            },
        ) == capture,
{
    reveal_strlit("Nerd Font (recommended — requires a Nerd-Font terminal)");
    reveal_strlit("Unicode (no Nerd Font glyphs)");
    reveal_strlit("ASCII (pasteable / safe for any terminal)");
    reveal_strlit("Nerd");
    reveal_strlit("Unicode");
    reveal_strlit("Off");
    reveal_strlit("Per-directory (opt-in)");
    reveal_strlit("Always-on");
    let nerd = "Nerd Font (recommended — requires a Nerd-Font terminal)"@;
    let unicode = "Unicode (no Nerd Font glyphs)"@;
    let ascii = "ASCII (pasteable / safe for any terminal)"@;
    assert(nerd.subrange(0, 4) =~= "Nerd"@);
    assert(unicode.subrange(0, 7) =~= "Unicode"@);
    assert("Nerd"@[0] == 'N' && "Unicode"@[0] == 'U');
    assert(unicode[0] == 'U' && ascii[0] == 'A');
    assert(unicode.subrange(0, 4)[0] == 'U');
    assert(ascii.subrange(0, 4)[0] == 'A');
    assert(ascii.subrange(0, 7)[0] == 'A');
    assert("Off"@.len() == 3 && "Per-directory (opt-in)"@.len() == 22 && "Always-on"@.len() == 9);
}

/// Whether the languages hold one.
pub fn knows(languages: &Vec<Language>, l: Language) -> (r: bool)
    ensures
        r == languages@.contains(l),
{
    let mut i: usize = 0;
    while i < languages.len()
        invariant
            i <= languages@.len(),
            forall|j: int| 0 <= j < i ==> languages@[j] != l,
        decreases languages@.len() - i,
    {
        if languages[i] == l {
            return true;
        }
        i += 1;
    }
    false
}

/// The positions, among all languages, of those in force.
pub open spec fn language_indexes(current: Seq<Language>) -> Seq<usize> {
    let a = if current.contains(Language::Node) {
        seq![0usize]
    } else {
        Seq::empty()
    };
    let b = if current.contains(Language::Python) {
        a.push(1)
    } else {
        a
    };
    if current.contains(Language::Rust) {
        b.push(2)
    } else {
        b
    }
}

/// The positions, among all languages, of those in force.
pub fn language_defaults(current: &Vec<Language>) -> (r: Vec<usize>)
    ensures
        r@ == language_indexes(current@),
{
    let mut v: Vec<usize> = Vec::new();
    if knows(current, Language::Node) {
        v.push(0);
    }
    if knows(current, Language::Python) {
        v.push(1);
    }
    if knows(current, Language::Rust) {
        v.push(2);
    }
    v
}

/// The languages whose names were picked, in the order in which they are offered.
pub open spec fn chosen_languages(chosen: Seq<Seq<char>>) -> Seq<Language> {
    answers::all_languages().filter(|l: Language| chosen.contains(answers::language_name(l)))
}

/// The languages whose names were picked, in the order in which they are offered.
pub fn languages_from_choice(chosen: &Vec<String>) -> (r: Vec<Language>)
    ensures
        r@ == chosen_languages(text::views(chosen@)),
{
    let all: [Language; 3] = Language::all();
    let mut out: Vec<Language> = Vec::new();
    let mut i: usize = 0;
    let ghost keep = |l: Language| text::views(chosen@).contains(answers::language_name(l));
    proof {
        assert(all@.take(0).filter(keep) =~= Seq::empty()) by {
            reveal(Seq::filter);
        }
    }
    while i < 3
        invariant
            all@ == answers::all_languages(),
            keep == (|l: Language| text::views(chosen@).contains(answers::language_name(l))),
            i <= 3,
            out@ == all@.take(i as int).filter(keep),
        decreases 3 - i,
    {
        proof {
            reveal(Seq::filter);
            assert(all@.take(i as int + 1).drop_last() =~= all@.take(i as int));
        }
        if holds(chosen, all[i].display_name()) {
            out.push(all[i]);
        }
        i += 1;
    }
    proof {
        assert(all@.take(3) =~= all@);
    }
    out
}

/// The replies to the questions after the first.
#[derive(Debug)]
pub struct Replies {
    /// The preset that was picked.
    pub preset: String,
    /// The icons that were picked.
    pub icons: String,
    /// What is switched on, where that was asked.
    pub features: Option<FeatureReplies>,
    /// The languages that were picked.
    pub languages: Vec<String>,
}

/// The replies to the questions on what is switched on.
#[derive(Debug)]
pub struct FeatureReplies {
    pub osc133: bool,
    pub transient: bool,
    pub async_render: bool,
    pub history: bool,
    pub live: bool,
    /// The capture mode that was picked.
    pub capture: String,
}

/// What is switched on after the replies.
pub open spec fn features_after(f: FeatureReplies) -> Features {
    Features {
        osc133: f.osc133,
        transient: f.transient,
        async_render: f.async_render,
        history: f.history,
        live: f.live,
        capture: chosen_capture(f.capture@),
    }
}

/// The answers: those of the preset, with what the later replies say in their
/// place.
pub fn answers_from_replies(replies: &Replies) -> (r: AnswerSet)
    ensures
        ({
            let start = presets::preset_answers(chosen_preset(replies.preset@));
            r@ =~= answers::AnswersView {
                icons: chosen_icons(replies.icons@),
                features: match replies.features {
                    Some(f) => features_after(f),
                    None => start.features,
                },
                languages: chosen_languages(text::views(replies.languages@)),
                ..start
            }
        }),
{
    let mut a: AnswerSet = from_preset(preset_from_choice(replies.preset.as_str()));
    a.icons = icons_from_choice(replies.icons.as_str());
    if let Some(f) = &replies.features {
        a.features = Features {
            osc133: f.osc133,
            transient: f.transient,
            async_render: f.async_render,
            history: f.history,
            live: f.live,
            capture: capture_from_choice(f.capture.as_str()),
        };
    }
    a.languages = languages_from_choice(&replies.languages);
    a
}

/// Whatever is offered can be chosen: the label of a preset, picked from the list, is
/// that preset.
pub proof fn law_label_chooses_its_preset(p: Preset)
    ensures
        chosen_preset(preset_label(p)) == p,
{
    reveal_strlit(" — ");
    reveal_strlit("lean");
    reveal_strlit("pure");
    reveal_strlit("rainbow");
    reveal_strlit("classic");
    reveal_strlit("minimal");
    assert(preset_label(Preset::Lean)[0] == 'l');
    assert(preset_label(Preset::Pure)[0] == 'p');
    assert(preset_label(Preset::Rainbow)[0] == 'r');
    assert(preset_label(Preset::Classic)[0] == 'c');
    assert(preset_label(Preset::Minimal)[0] == 'm');
}

/// Each reply to the wizard sets the feature it is about.
pub proof fn law_replies_set_their_feature(f: FeatureReplies)
    ensures
        features_after(f).osc133 == f.osc133,
        features_after(f).transient == f.transient,
        features_after(f).async_render == f.async_render,
        features_after(f).history == f.history,
        features_after(f).live == f.live,
        features_after(f).capture is PerCwd <==> f.capture@ == "Per-directory (opt-in)"@,
        features_after(f).capture is AlwaysOn <==> f.capture@ == "Always-on"@,
{
    reveal_strlit("Per-directory (opt-in)");
    reveal_strlit("Always-on");
    assert("Per-directory (opt-in)"@[0] != "Always-on"@[0]);
}

/// Each argument sets what its name says, and nothing else.
pub proof fn law_arguments_set_what_they_say(o: OptsView, name: Seq<char>, rest: Seq<Seq<char>>)
    ensures
        read_args(o, seq!["--dry-run"@] + rest) == read_args(OptsView { dry_run: true, ..o }, rest),
        read_args(o, seq!["--preset"@, name] + rest) == read_args(OptsView { preset: Some(name), ..o }, rest),
        read_args(o, seq!["--preset"@]) is Err,
        read_args(o, seq!["--help"@] + rest) == read_args(OptsView { help: true, ..o }, rest),
        read_args(o, seq!["-h"@] + rest) == read_args(OptsView { help: true, ..o }, rest),
{
    reveal_strlit("--dry-run");
    reveal_strlit("--preset");
    reveal_strlit("--help");
    reveal_strlit("-h");
    assert("--dry-run"@.len() == 9 && "--preset"@.len() == 8 && "--help"@.len() == 6 && "-h"@.len() == 2);
    assert((seq!["--dry-run"@] + rest).skip(1) =~= rest);
    assert((seq!["--preset"@, name] + rest).skip(2) =~= rest);
    assert((seq!["--preset"@, name] + rest)[1] == name);
    assert((seq!["--help"@] + rest).skip(1) =~= rest);
    assert((seq!["-h"@] + rest).skip(1) =~= rest);
}

/// The languages in force are the ones that are ticked at first, each at its own place
/// in the list.
pub proof fn law_languages_in_force_are_ticked(current: Seq<Language>)
    ensures
        language_indexes(current).contains(0) <==> current.contains(Language::Node),
        language_indexes(current).contains(1) <==> current.contains(Language::Python),
        language_indexes(current).contains(2) <==> current.contains(Language::Rust),
        answers::all_languages()[0] == Language::Node,
        answers::all_languages()[1] == Language::Python,
        answers::all_languages()[2] == Language::Rust,
{
    let n = current.contains(Language::Node);
    let p = current.contains(Language::Python);
    let r = current.contains(Language::Rust);
    let is = language_indexes(current);
    if n {
        assert(is[0] == 0);
    }
    if p {
        assert(is[if n {
            1
        } else {
            0
        }] == 1);
    }
    if r {
        assert(is[is.len() - 1] == 2);
    }
}

/// The wizard goes on only where every question was answered; to decline is a success,
/// to interrupt it is what a shell reports for an interrupt, and not to be able to ask
/// is a failure.
pub proof fn law_wizard_goes_on_when_answered(end: AskEnd, r: Option<i32>)
    requires
        call_ensures(ask_exit, (end,), r),
    ensures
        r is None <==> end is Done,
        r == Some(0i32) <==> end is Declined,
        r == Some(130i32) <==> end is Cancelled,
        end is Failed ==> r is Some && r != Some(0i32) && r != Some(130i32),
{
}

/// The shell is known by the name of its program, wherever that stands; a shell that
/// there is no snippet for gets the one for zsh.
pub proof fn law_shell_goes_by_its_program(dir: Seq<char>, name: Seq<char>)
    requires
        paths::is_part(name),
    ensures
        name == "bash"@ || name == "fish"@ || name == "zsh"@ ==> shell_of(dir + seq!['/'] + name) == name,
        name != "bash"@ && name != "fish"@ ==> shell_of(dir + seq!['/'] + name) == "zsh"@,
        shell_of(name) == shell_of(dir + seq!['/'] + name),
{
    paths::law_file_name_is_the_last_part(dir, name);
}

/// The choice that is marked at first is the one that keeps what is in force.
pub proof fn law_choice_in_force_is_marked(
    icons: IconMode,
    capture: CaptureMode,
    icons_offered: Vec<&'static str>,
    capture_offered: Vec<&'static str>,
    icons_at: usize,
    capture_at: usize,
)
    requires
        call_ensures(icon_options, (), icons_offered),
        call_ensures(capture_options, (), capture_offered),
        call_ensures(icon_start, (icons,), icons_at),
        call_ensures(capture_start, (capture,), capture_at),
    ensures
        icons_at < icons_offered@.len(),
        chosen_icons(icons_offered@[icons_at as int]@) == icons,
        capture_at < capture_offered@.len(),
        chosen_capture(capture_offered@[capture_at as int]@) == capture,
{
    law_defaults_are_kept(icons, capture);
}

} // verus!
