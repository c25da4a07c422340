//! The settings, and where they are kept.

use vstd::prelude::*;
use crate::paths;
use crate::paths::join_path;
use crate::table::Table;
use crate::text;
use crate::text::owned;

verus! {

/// The order of the segments.
#[derive(Debug)]
pub struct SegmentsConfig {
    /// The names of the segments. Empty means the default order.
    pub order: Vec<String>,
}

/// The settings of one segment; what is not set has its default.
#[derive(Debug)]
pub struct SegmentConfig {
    /// Whether it is shown.
    pub enabled: Option<bool>,
    /// Its foreground, as a colour of the palette.
    pub fg: Option<u8>,
    /// Its background, as a colour of the palette.
    pub bg: Option<u8>,
    /// The command that a custom segment runs.
    pub command: Option<String>,
    /// How long that command's output is kept, in seconds.
    pub cache_secs: Option<u64>,
    /// How long that command may take, in milliseconds.
    pub timeout_ms: Option<u64>,
    /// Whether a path inside a repository is shown from the repository on.
    pub repo_relative: Option<bool>,
}

/// The value of one segment's settings.
pub struct SegmentView {
    pub enabled: Option<bool>,
    pub fg: Option<u8>,
    pub bg: Option<u8>,
    pub command: Option<Seq<char>>,
    pub cache_secs: Option<u64>,
    pub timeout_ms: Option<u64>,
    pub repo_relative: Option<bool>,
}

impl View for SegmentConfig {
    type V = SegmentView;

    open spec fn view(&self) -> SegmentView {
        SegmentView {
            enabled: self.enabled,
            fg: self.fg,
            bg: self.bg,
            command: text::opt_view(self.command),
            cache_secs: self.cache_secs,
            timeout_ms: self.timeout_ms,
            repo_relative: self.repo_relative,
        }
    }
}

impl Default for SegmentsConfig {
    fn default() -> (r: Self)
        ensures
            r.order@.len() == 0,
    {
        SegmentsConfig { order: Vec::new() }
    }
}

impl Default for SegmentConfig {
    fn default() -> (r: Self)
        ensures
            r@ == (SegmentView {
                enabled: None,
                fg: None,
                bg: None,
                command: None,
                cache_secs: None,
                timeout_ms: None,
                repo_relative: None,
            }),
    {
        SegmentConfig {
            enabled: None,
            fg: None,
            bg: None,
            command: None,
            cache_secs: None,
            timeout_ms: None,
            repo_relative: None,
        }
    }
}

/// What the start script of a shell switches on.
#[derive(Debug, Clone, Copy, PartialEq, Eq, Structural)]
pub struct ShellConfig {
    /// Whether prompts and output are marked for the terminal.
    pub osc133: bool,
    /// Whether the previous prompt is collapsed.
    pub transient: bool,
    /// From how long on the time of a command is shown, in milliseconds.
    pub transient_duration_ms: u64,
    /// Whether the prompt is rendered in the background.
    pub async_render: bool,
    /// Whether commands are recorded.
    pub history: bool,
    /// Whether the prompt follows changes of files.
    pub live: bool,
}

/// What the start script switches on where nothing is set.
pub open spec fn default_shell() -> ShellConfig {
    ShellConfig {
        osc133: true,
        transient: true,
        transient_duration_ms: 2000,
        async_render: false,
        history: true,
        live: true,
    }
}

impl Default for ShellConfig {
    fn default() -> (r: Self)
        ensures
            r == default_shell(),
    {
        ShellConfig {
            osc133: true,
            transient: true,
            transient_duration_ms: 2000,
            async_render: false,
            history: true,
            live: true,
        }
    }
}

/// What the network check connects to.
#[derive(Debug, Clone)]
pub struct NetworkConfig {
    pub host: String,
    pub port: u16,
    pub timeout_ms: u64,
}

impl Default for NetworkConfig {
    fn default() -> (r: Self)
        ensures
            r.host@ == "1.1.1.1"@,
            r.port == 53,
            r.timeout_ms == 500,
    {
        NetworkConfig { host: owned("1.1.1.1"), port: 53, timeout_ms: 500 }
    }
}

/// The key of the number one: its bit pattern in double precision. Of two keys
/// the greater one belongs to the greater number; a negative number has the
/// negated key of its magnitude.
pub const KEY_1: i64 = 0x3FF0000000000000;

/// The key of the number eighty.
pub const KEY_80: i64 = 0x4054000000000000;

/// The key of the number ninety.
pub const KEY_90: i64 = 0x4056800000000000;

/// The key of the number ninety-five.
pub const KEY_95: i64 = 0x4057C00000000000;

/// Above which readings a check warns, and above which it calls the reading
/// critical, each as the key of the number. What is no number at all has the
/// greatest key: nothing is above it.
#[derive(Debug, Clone, Copy, PartialEq, Eq, Structural)]
pub struct Thresholds {
    /// The load for each core.
    pub load: i64,
    /// The memory in use, in per cent.
    pub memory_warn: i64,
    pub memory_critical: i64,
    /// The disk space in use, in per cent.
    pub disk_warn: i64,
    pub disk_critical: i64,
    /// The temperature of the CPU, in degrees Celsius.
    pub cpu_temp_warn: i64,
    pub cpu_temp_critical: i64,
}

/// The thresholds where nothing is set.
pub open spec fn default_thresholds() -> Thresholds {
    Thresholds {
        load: KEY_1,
        memory_warn: KEY_90,
        memory_critical: KEY_95,
        disk_warn: KEY_90,
        disk_critical: KEY_95,
        cpu_temp_warn: KEY_80,
        cpu_temp_critical: KEY_90,
    }
}

impl Default for Thresholds {
    fn default() -> (r: Self)
        ensures
            r == default_thresholds(),
    {
        Thresholds {
            load: KEY_1,
            memory_warn: KEY_90,
            memory_critical: KEY_95,
            disk_warn: KEY_90,
            disk_critical: KEY_95,
            cpu_temp_warn: KEY_80,
            cpu_temp_critical: KEY_90,
        }
    }
}

/// What the report on the machine's health reads.
#[derive(Debug, Clone)]
pub struct HealthConfig {
    pub thresholds: Thresholds,
    pub network: NetworkConfig,
    /// Checks that the full report leaves out.
    pub disabled: Vec<String>,
}

impl Default for HealthConfig {
    fn default() -> (r: Self)
        ensures
            r.thresholds == default_thresholds(),
            r.network.host@ == "1.1.1.1"@,
            r.network.port == 53,
            r.network.timeout_ms == 500,
            r.disabled@.len() == 0,
    {
        HealthConfig {
            thresholds: Thresholds::default(),
            network: NetworkConfig::default(),
            disabled: Vec::new(),
        }
    }
}

// ── Settings by segment ─────────────────────────────────────────────────────

/// All settings that the prompt reads.
#[derive(Debug)]
pub struct Config {
    pub segments: SegmentsConfig,
    /// The settings of single segments, by name.
    pub segment: Table<SegmentConfig>,
    pub shell: ShellConfig,
    pub health: HealthConfig,
}

/// Whether a segment is shown: unless it is switched off.
pub open spec fn enabled_of(segment: Map<Seq<char>, SegmentConfig>, name: Seq<char>) -> bool {
    if segment.dom().contains(name) {
        match segment[name].enabled {
            Some(on) => on,
            None => true,
        }
    } else {
        true
    }
}

impl Config {
    /// No segment's settings occur twice.
    pub open spec fn wf(&self) -> bool {
        self.segment.wf()
    }

    /// Whether a segment is shown: unless it is switched off.
    #[must_use]
    pub fn segment_enabled(&self, name: &str) -> (r: bool)
        ensures
            r == enabled_of(self.segment@, name@),
    {
        match self.segment.get(name) {
            Some(s) => match s.enabled {
                Some(on) => on,
                None => true,
            },
            None => true,
        }
    }
}

impl Default for Config {
    fn default() -> (r: Self)
        ensures
            r.wf(),
            r.segments.order@.len() == 0,
            r.segment@ == Map::<Seq<char>, SegmentConfig>::empty(),
            r.shell == default_shell(),
            r.health.thresholds == default_thresholds(),
            r.health.network.host@ == "1.1.1.1"@,
            r.health.network.port == 53,
            r.health.network.timeout_ms == 500,
            r.health.disabled@.len() == 0,
    {
        Config {
            segments: SegmentsConfig { order: Vec::new() },
            segment: Table::new(),
            shell: ShellConfig {
                osc133: true,
                transient: true,
                transient_duration_ms: 2000,
                async_render: false,
                history: true,
                live: true,
            },
            health: HealthConfig::default(),
        }
    }
}

// ── Where the settings are ──────────────────────────────────────────────────

/// Where the settings are: the file that `CHEVRON_CONFIG` names, else a file
/// below the user's configuration directory.
pub open spec fn config_path_of(
    own: Option<Seq<char>>,
    xdg: Option<Seq<char>>,
    home: Option<Seq<char>>,
) -> Seq<char> {
    match own {
        Some(path) => path,
        None => {
            let base = match xdg {
                Some(dir) => dir,
                None => paths::join_of_paths(
                    match home {
                        Some(h) => h,
                        None => "."@,
                    },
                    ".config"@,
                ),
            };
            paths::join_of_paths(paths::join_of_paths(base, "chevron"@), "config.toml"@)
        },
    }
}

/// Where the settings are, from `CHEVRON_CONFIG`, `XDG_CONFIG_HOME` and `HOME`.
pub fn config_path(own: Option<&str>, xdg: Option<&str>, home: Option<&str>) -> (r: String)
    ensures
        r@ == config_path_of(text::opt_str_view(own), text::opt_str_view(xdg), text::opt_str_view(home)),
{
    match own {
        Some(path) => owned(path),
        None => {
            let base: String = match xdg {
                Some(dir) => owned(dir),
                None => join_path(
                    match home {
                        Some(h) => h,
                        None => ".",
                    },
                    ".config",
                ),
            };
            join_path(join_path(base.as_str(), "chevron").as_str(), "config.toml")
        },
    }
}

// ── Laws ────────────────────────────────────────────────────────────────────

/// Whether a key is that of a whole number between `unit`, a power of two, and twice
/// that: the exponent above, the fraction below.
pub open spec fn stands_for(key: i64, n: int, unit: int, exponent: int) -> bool {
    &&& key as int / 0x10_0000_0000_0000 == 1023 + exponent
    &&& (0x10_0000_0000_0000 + key as int % 0x10_0000_0000_0000) * unit == n * 0x10_0000_0000_0000
}

/// By default the load is too high above one for each core, memory and disk warn above
/// 90 per cent and are critical above 95, and the processor warns above 80 degrees and
/// is critical above 90.
pub proof fn law_default_thresholds()
    ensures
        stands_for(default_thresholds().load, 1, 1, 0),
        stands_for(default_thresholds().memory_warn, 90, 64, 6),
        stands_for(default_thresholds().memory_critical, 95, 64, 6),
        stands_for(default_thresholds().disk_warn, 90, 64, 6),
        stands_for(default_thresholds().disk_critical, 95, 64, 6),
        stands_for(default_thresholds().cpu_temp_warn, 80, 64, 6),
        stands_for(default_thresholds().cpu_temp_critical, 90, 64, 6),
        default_thresholds().memory_warn < default_thresholds().memory_critical,
        default_thresholds().disk_warn < default_thresholds().disk_critical,
        default_thresholds().cpu_temp_warn < default_thresholds().cpu_temp_critical,
{
}

/// A segment is shown unless it is switched off by name.
pub proof fn law_segments_are_on(segment: Map<Seq<char>, SegmentConfig>, name: Seq<char>)
    ensures
        !enabled_of(segment, name) <==> segment.dom().contains(name) && segment[name].enabled == Some(false),
{
}

/// A file that is named is taken as it is; else it is the one below the settings of the
/// user.
pub proof fn law_named_settings_come_first(own: Option<Seq<char>>, xdg: Option<Seq<char>>, home: Option<Seq<char>>)
    ensures
        own matches Some(p) ==> config_path_of(own, xdg, home) == p,
        own is None && xdg is Some ==> config_path_of(own, xdg, home) == config_path_of(None, xdg, None),
{
}

/// Where no file is named, the settings are among those of the user, by their usual
/// place below the home directory or by the one that is named for all settings.
pub proof fn law_settings_have_a_usual_place(dir: Seq<char>)
    requires
        dir.len() > 0,
        dir.last() != '/',
    ensures
        config_path_of(None, None, Some(dir)) == dir + "/.config/chevron/config.toml"@,
        config_path_of(None, Some(dir), None) == dir + "/chevron/config.toml"@,
        config_path_of(None, None, None) == "./.config/chevron/config.toml"@,
{
    reveal_strlit("/");
    reveal_strlit(".");
    reveal_strlit(".config");
    reveal_strlit("chevron");
    reveal_strlit("config.toml");
    reveal_strlit("/.config/chevron/config.toml");
    reveal_strlit("./.config/chevron/config.toml");
    reveal_strlit("/chevron/config.toml");
    lemma_settings_below(dir);
    lemma_settings_below(dir + "/"@ + ".config"@);
    lemma_settings_below("."@ + "/"@ + ".config"@);
    assert(dir + "/"@ + ".config"@ + "/"@ + "chevron"@ + "/"@ + "config.toml"@ =~= dir
        + "/.config/chevron/config.toml"@);
    assert("."@ + "/"@ + ".config"@ + "/"@ + "chevron"@ + "/"@ + "config.toml"@ =~= "./.config/chevron/config.toml"@);
    assert(dir + "/"@ + "chevron"@ + "/"@ + "config.toml"@ =~= dir + "/chevron/config.toml"@);
}

proof fn lemma_settings_below(base: Seq<char>)
    requires
        base.len() > 0,
        base.last() != '/',
    ensures
        paths::join_of_paths(paths::join_of_paths(base, "chevron"@), "config.toml"@) == base + "/"@ + "chevron"@ + "/"@
            + "config.toml"@,
{
    reveal_strlit("chevron");
    reveal_strlit("config.toml");
    let p = paths::join_of_paths(base, "chevron"@);
    assert(p == base + "/"@ + "chevron"@);
    assert(p.last() == 'n');
}

} // verus!
