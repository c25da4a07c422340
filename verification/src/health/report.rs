//! Which checks a report holds, and how the command line asks for them.

use vstd::prelude::*;
use crate::text;
use crate::text::{holds, joined, owned, str_eq};

verus! {

// ── The command line ────────────────────────────────────────────────────────

/// What a report is written as.
#[derive(Debug, Clone, Copy, PartialEq, Eq, Structural)]
pub enum Output {
    Text,
    Json,
    Value,
}

/// What the command line asks for.
#[derive(Debug)]
pub struct Opts {
    pub fast: bool,
    pub color: bool,
    pub output: Output,
    /// The one check to run.
    pub check: Option<String>,
    pub help: bool,
}

/// The value of `Opts`.
pub struct OptsView {
    pub fast: bool,
    pub color: bool,
    pub output: Output,
    pub check: Option<Seq<char>>,
    pub help: bool,
}

impl View for Opts {
    type V = OptsView;

    open spec fn view(&self) -> OptsView {
        OptsView {
            fast: self.fast,
            color: self.color,
            output: self.output,
            check: text::opt_view(self.check),
            help: self.help,
        }
    }
}

/// What is asked for before any argument is read.
pub open spec fn no_args(color: bool) -> OptsView {
    OptsView { fast: false, color, output: Output::Text, check: None, help: false }
}

/// One argument: what it changes, and whether it takes the next one with it.
pub open spec fn read_flag(
    o: OptsView,
    arg: Seq<char>,
    next: Option<Seq<char>>,
    with_value: bool,
) -> Result<(OptsView, nat), Seq<char>> {
    if arg == "--fast"@ {
        Ok((OptsView { fast: true, ..o }, 1))
    } else if arg == "--no-color"@ {
        Ok((OptsView { color: false, ..o }, 1))
    } else if arg == "--json"@ {
        Ok((OptsView { output: Output::Json, ..o }, 1))
    } else if with_value && arg == "--value"@ {
        Ok((OptsView { output: Output::Value, ..o }, 1))
    } else if arg == "--check"@ {
        match next {
            Some(name) => Ok((OptsView { check: Some(name), ..o }, 2)),
            None => Err("--check requires a check name"@),
        }
    } else if arg == "-h"@ || arg == "--help"@ {
        Ok((OptsView { help: true, ..o }, 1))
    } else {
        Err("unknown argument '"@ + arg + "'"@)
    }
}

/// All the arguments, from left to right: a later one overrides an earlier one,
/// and the first that cannot be read ends it.
pub open spec fn read_flags(o: OptsView, args: Seq<Seq<char>>, with_value: bool) -> Result<
    OptsView,
    Seq<char>,
>
    decreases args.len(),
{
    if args.len() == 0 {
        Ok(o)
    } else {
        let next = if args.len() > 1 {
            Some(args[1])
        } else {
            None
        };
        match read_flag(o, args[0], next, with_value) {
            Err(e) => Err(e),
            Ok((p, n)) => if n == 2 {
                read_flags(p, args.skip(2), with_value)
            } else {
                read_flags(p, args.skip(1), with_value)
            },
        }
    }
}

/// What the arguments of a report ask for. A bare value is one check's.
pub open spec fn parse_args_of(args: Seq<Seq<char>>, color: bool) -> Result<OptsView, Seq<char>> {
    match read_flags(no_args(color), args, true) {
        Err(e) => Err(e),
        Ok(o) => if o.output == Output::Value && o.check is None {
            Err("--value requires --check <name>"@)
        } else {
            Ok(o)
        },
    }
}

/// Whether an outcome has the given value.
pub open spec fn parsed(r: Result<Opts, String>, s: Result<OptsView, Seq<char>>) -> bool {
    match (r, s) {
        (Ok(a), Ok(b)) => a@ == b,
        (Err(a), Err(b)) => a@ == b,
        _ => false,
    }
}

/// Reads all the arguments. `with_value` tells whether `--value` is one.
pub fn parse_flags(args: &Vec<String>, color: bool, with_value: bool) -> (r: Result<Opts, String>)
    ensures
        parsed(r, read_flags(no_args(color), text::views(args@), with_value)),
{
    let mut o: Opts = Opts { fast: false, color, output: Output::Text, check: None, help: false };
    let mut i: usize = 0;
    let ghost all = text::views(args@);
    proof {
        assert(all.skip(0) =~= all);
    }
    while i < args.len()
        invariant
            all == text::views(args@),
            i <= args@.len(),
            read_flags(no_args(color), all, with_value) == read_flags(
                o@,
                all.skip(i as int),
                with_value,
            ),
        decreases args@.len() - i,
    {
        let arg: &str = args[i].as_str();
        let ghost rest = all.skip(i as int);
        proof {
            assert(rest[0] == arg@);
            assert(rest.skip(1) =~= all.skip(i as int + 1));
            if i + 1 < args@.len() {
                assert(rest[1] == args@[i as int + 1]@);
                assert(rest.skip(2) =~= all.skip(i as int + 2));
            }
        }
        if str_eq(arg, "--fast") {
            o.fast = true;
        } else if str_eq(arg, "--no-color") {
            o.color = false;
        } else if str_eq(arg, "--json") {
            o.output = Output::Json;
        } else if with_value && str_eq(arg, "--value") {
            o.output = Output::Value;
        } else if str_eq(arg, "--check") {
            i += 1;
            if i >= args.len() {
                return Err(owned("--check requires a check name"));
            }
            o.check = Some(owned(args[i].as_str()));
        } else if str_eq(arg, "-h") || str_eq(arg, "--help") {
            o.help = true;
        } else {
            let mut e: String = joined("unknown argument '", arg);
            e.push_str("'");
            return Err(e);
        }
        i += 1;
    }
    Ok(o)
}

/// What the arguments of a report ask for. `color` tells whether the terminal
/// shows colours.
pub fn parse_args(args: &Vec<String>, color: bool) -> (r: Result<Opts, String>)
    ensures
        parsed(r, parse_args_of(text::views(args@), color)),
{
    match parse_flags(args, color, true) {
        Err(e) => Err(e),
        Ok(o) => {
            if o.output == Output::Value && o.check.is_none() {
                Err(owned("--value requires --check <name>"))
            } else {
                Ok(o)
            }
        },
    }
}

// ── The checks ──────────────────────────────────────────────────────────────

/// A thing to look at.
#[derive(Debug, Clone, Copy, PartialEq, Eq, Structural)]
pub enum Probe {
    Load,
    Memory,
    Disk,
    Uptime,
    Ip,
    Network,
    CpuTemp,
    DiskHealth,
    SoftwareUpdates,
    Firewall,
}

/// The name of a check.
pub open spec fn probe_name(p: Probe) -> Seq<char> {
    match p {
        Probe::Load => "load"@,
        Probe::Memory => "memory"@,
        Probe::Disk => "disk"@,
        Probe::Uptime => "uptime"@,
        Probe::Ip => "ip"@,
        Probe::Network => "network"@,
        Probe::CpuTemp => "cpu_temp"@,
        Probe::DiskHealth => "disk_health"@,
        Probe::SoftwareUpdates => "software_updates"@,
        Probe::Firewall => "firewall"@,
    }
}

impl Probe {
    /// The name of the check.
    pub fn name(self) -> (r: &'static str)
        ensures
            r@ == probe_name(self),
    {
        match self {
            Probe::Load => "load",
            Probe::Memory => "memory",
            Probe::Disk => "disk",
            Probe::Uptime => "uptime",
            Probe::Ip => "ip",
            Probe::Network => "network",
            Probe::CpuTemp => "cpu_temp",
            Probe::DiskHealth => "disk_health",
            Probe::SoftwareUpdates => "software_updates",
            Probe::Firewall => "firewall",
        }
    }
}

/// The checks that take no time.
pub open spec fn quick_probes() -> Seq<Probe> {
    seq![Probe::Load, Probe::Memory, Probe::Disk]
}

/// All checks, in the order of the report; the last four are macOS's.
pub open spec fn all_probes(macos: bool) -> Seq<Probe> {
    let common = quick_probes() + seq![Probe::Uptime, Probe::Ip, Probe::Network];
    if macos {
        common + seq![Probe::CpuTemp, Probe::DiskHealth, Probe::SoftwareUpdates, Probe::Firewall]
    } else {
        common
    }
}

/// All checks, in the order of the report.
fn probes(fast: bool, macos: bool) -> (r: Vec<Probe>)
    ensures
        r@ == (if fast {
            quick_probes()
        } else {
            all_probes(macos)
        }),
{
    let mut v: Vec<Probe> = vec![Probe::Load, Probe::Memory, Probe::Disk];
    if !fast {
        v.push(Probe::Uptime);
        v.push(Probe::Ip);
        v.push(Probe::Network);
        if macos {
            v.push(Probe::CpuTemp);
            v.push(Probe::DiskHealth);
            v.push(Probe::SoftwareUpdates);
            v.push(Probe::Firewall);
        }
    }
    v
}

/// Those of some checks that are not switched off.
pub open spec fn enabled_of(ps: Seq<Probe>, disabled: Seq<Seq<char>>) -> Seq<Probe> {
    ps.filter(|p: Probe| !disabled.contains(probe_name(p)))
}

/// The checks of a report, in order: the quick ones alone where `fast` is set,
/// without those that are switched off.
pub fn collect(fast: bool, disabled: &Vec<String>, macos: bool) -> (r: Vec<Probe>)
    ensures
        r@ == enabled_of(
            if fast {
                quick_probes()
            } else {
                all_probes(macos)
            },
            text::views(disabled@),
        ),
{
    let ps: Vec<Probe> = probes(fast, macos);
    let mut out: Vec<Probe> = Vec::new();
    let mut i: usize = 0;
    let ghost keep = |p: Probe| !text::views(disabled@).contains(probe_name(p));
    proof {
        assert(ps@.take(0).filter(keep) =~= Seq::empty()) by {
            reveal(Seq::filter);
        }
    }
    while i < ps.len()
        invariant
            keep == (|p: Probe| !text::views(disabled@).contains(probe_name(p))),
            i <= ps@.len(),
            out@ == ps@.take(i as int).filter(keep),
        decreases ps@.len() - i,
    {
        proof {
            reveal(Seq::filter);
            assert(ps@.take(i as int + 1).drop_last() =~= ps@.take(i as int));
        }
        if !holds(disabled, ps[i].name()) {
            out.push(ps[i]);
        }
        i += 1;
    }
    proof {
        assert(ps@.take(i as int) =~= ps@);
    }
    out
}

/// The names of all checks.
pub open spec fn probe_names(ps: Seq<Probe>) -> Seq<Seq<char>> {
    Seq::new(ps.len(), |i: int| probe_name(ps[i]))
}

/// The names of all checks, in the order of the report.
pub fn available_names(macos: bool) -> (r: Vec<&'static str>)
    ensures
        text::str_views(r@) == probe_names(all_probes(macos)),
{
    let ps: Vec<Probe> = probes(false, macos);
    let mut out: Vec<&'static str> = Vec::new();
    let mut i: usize = 0;
    while i < ps.len()
        invariant
            i <= ps@.len(),
            out@.len() == i,
            forall|j: int| 0 <= j < i ==> (#[trigger] out@[j])@ == probe_name(ps@[j]),
        decreases ps@.len() - i,
    {
        out.push(ps[i].name());
        i += 1;
    }
    proof {
        assert(text::str_views(out@) =~= probe_names(ps@));
    }
    out
}

/// Whether `r` is the check of that name.
pub open spec fn named_of(name: Seq<char>, macos: bool, r: Option<Probe>) -> bool {
    match r {
        Some(p) => all_probes(macos).contains(p) && probe_name(p) == name,
        None => !probe_names(all_probes(macos)).contains(name),
    }
}

/// The check of that name; there is none where it is not among the names.
pub fn run_named(name: &str, macos: bool) -> (r: Option<Probe>)
    ensures
        named_of(name@, macos, r),
{
    let ps: Vec<Probe> = probes(false, macos);
    let mut i: usize = 0;
    while i < ps.len()
        invariant
            ps@ == all_probes(macos),
            i <= ps@.len(),
            forall|j: int| 0 <= j < i ==> probe_name(#[trigger] ps@[j]) != name@,
        decreases ps@.len() - i,
    {
        if str_eq(ps[i].name(), name) {
            return Some(ps[i]);
        }
        i += 1;
    }
    proof {
        assert forall|j: int| 0 <= j < probe_names(ps@).len() implies #[trigger] probe_names(ps@)[j]
            != name@ by {
            assert(probe_name(ps@[j]) != name@);
        }
    }
    None
}

/// A fast report is the start of a full one: it holds the same checks, in the same
/// order, as far as it goes.
pub proof fn law_fast_is_a_prefix(disabled: Seq<Seq<char>>, macos: bool)
    ensures
        enabled_of(quick_probes(), disabled).is_prefix_of(enabled_of(all_probes(macos), disabled)),
{
    let keep = |p: Probe| !disabled.contains(probe_name(p));
    let rest = all_probes(macos).skip(3);
    assert(all_probes(macos) =~= quick_probes() + rest);
    Seq::filter_distributes_over_add(quick_probes(), rest, keep);
    let a = quick_probes().filter(keep);
    assert((a + rest.filter(keep)).subrange(0, a.len() as int) =~= a);
}

/// What is kept was there before, and is kept exactly where it passes.
proof fn lemma_filter_holds(ps: Seq<Probe>, keep: spec_fn(Probe) -> bool, p: Probe)
    ensures
        ps.filter(keep).contains(p) <==> ps.contains(p) && keep(p),
    decreases ps.len(),
{
    reveal(Seq::filter);
    if ps.len() > 0 {
        let rest = ps.drop_last();
        lemma_filter_holds(rest, keep, p);
        let sub = rest.filter(keep);
        assert(ps =~= rest.push(ps.last()));
        if ps.contains(p) && !rest.contains(p) {
            let i = choose|i: int| 0 <= i < ps.len() && ps[i] == p;
            if i < ps.len() - 1 {
                assert(rest[i] == p);
            }
        }
        if rest.contains(p) {
            let i = choose|i: int| 0 <= i < rest.len() && rest[i] == p;
            assert(ps[i] == p);
        }
        if keep(ps.last()) {
            let all = sub.push(ps.last());
            assert(ps.filter(keep) == all);
            if sub.contains(p) {
                let i = choose|i: int| 0 <= i < sub.len() && sub[i] == p;
                assert(all[i] == p);
            }
            if ps.last() == p {
                assert(all[all.len() - 1] == p);
                assert(ps[ps.len() - 1] == p);
            }
            if all.contains(p) {
                let i = choose|i: int| 0 <= i < all.len() && all[i] == p;
                if i < sub.len() {
                    assert(sub[i] == p);
                }
            }
        }
    }
}

/// A report holds a check exactly where it is one of its platform's and is not
/// switched off.
pub proof fn law_disabled_checks_are_left_out(disabled: Seq<Seq<char>>, macos: bool, p: Probe)
    ensures
        enabled_of(all_probes(macos), disabled).contains(p) <==> all_probes(macos).contains(p)
            && !disabled.contains(probe_name(p)),
{
    let keep = |q: Probe| !disabled.contains(probe_name(q));
    lemma_filter_holds(all_probes(macos), keep, p);
}

/// Each flag sets what its name says, and nothing else; what follows is read as if it
/// stood alone.
pub proof fn law_flags_set_what_they_say(o: OptsView, name: Seq<char>, rest: Seq<Seq<char>>, with_value: bool)
    ensures
        read_flags(o, seq!["--fast"@] + rest, with_value) == read_flags(
            OptsView { fast: true, ..o },
            rest,
            with_value,
        ),
        read_flags(o, seq!["--no-color"@] + rest, with_value) == read_flags(
            OptsView { color: false, ..o },
            rest,
            with_value,
        ),
        read_flags(o, seq!["--json"@] + rest, with_value) == read_flags(
            OptsView { output: Output::Json, ..o },
            rest,
            with_value,
        ),
        read_flags(o, seq!["--value"@] + rest, true) == read_flags(
            OptsView { output: Output::Value, ..o },
            rest,
            true,
        ),
        read_flags(o, seq!["--value"@] + rest, false) is Err,
        read_flags(o, seq!["--check"@, name] + rest, with_value) == read_flags(
            OptsView { check: Some(name), ..o },
            rest,
            with_value,
        ),
        read_flags(o, seq!["--check"@], with_value) is Err,
        read_flags(o, seq!["--help"@] + rest, with_value) == read_flags(
            OptsView { help: true, ..o },
            rest,
            with_value,
        ),
        read_flags(o, seq!["-h"@] + rest, with_value) == read_flags(
            OptsView { help: true, ..o },
            rest,
            with_value,
        ),
{
    reveal_strlit("--fast");
    reveal_strlit("--no-color");
    reveal_strlit("--json");
    reveal_strlit("--value");
    reveal_strlit("--check");
    reveal_strlit("--help");
    reveal_strlit("-h");
    assert("--fast"@.len() == 6 && "--json"@.len() == 6 && "--help"@.len() == 6);
    assert("--value"@.len() == 7 && "--check"@.len() == 7 && "-h"@.len() == 2 && "--no-color"@.len() == 10);
    assert("--fast"@[2] != "--json"@[2]);
    assert("--fast"@[2] != "--help"@[2]);
    assert("--json"@[2] != "--help"@[2]);
    assert("--value"@[2] != "--check"@[2]);
    assert((seq!["--fast"@] + rest).skip(1) =~= rest);
    assert((seq!["--no-color"@] + rest).skip(1) =~= rest);
    assert((seq!["--json"@] + rest).skip(1) =~= rest);
    assert((seq!["--value"@] + rest).skip(1) =~= rest);
    assert((seq!["--help"@] + rest).skip(1) =~= rest);
    assert((seq!["-h"@] + rest).skip(1) =~= rest);
    let two = seq!["--check"@, name] + rest;
    assert(two.skip(2) =~= rest);
    assert(two[0] == "--check"@ && two[1] == name);
}

/// A single value needs the check that it is of; the other forms do not.
pub proof fn law_value_needs_a_check(args: Seq<Seq<char>>, color: bool)
    ensures
        parse_args_of(args, color) matches Ok(o) ==> (o.output == Output::Value ==> o.check is Some)
            && read_flags(no_args(color), args, true) == Ok::<OptsView, Seq<char>>(o),
        read_flags(no_args(color), args, true) matches Ok(o) ==> (parse_args_of(args, color) is Err <==> o.output
            == Output::Value && o.check is None),
{
}

/// Every check is known by one name only.
pub proof fn law_check_names_differ(a: Probe, b: Probe)
    ensures
        probe_name(a) == probe_name(b) ==> a == b,
{
    reveal_strlit("load");
    reveal_strlit("memory");
    reveal_strlit("disk");
    reveal_strlit("uptime");
    reveal_strlit("ip");
    reveal_strlit("network");
    reveal_strlit("cpu_temp");
    reveal_strlit("disk_health");
    reveal_strlit("software_updates");
    reveal_strlit("firewall");
    assert("load"@.len() == 4 && "disk"@.len() == 4 && "memory"@.len() == 6 && "uptime"@.len() == 6);
    assert("ip"@.len() == 2 && "network"@.len() == 7 && "cpu_temp"@.len() == 8 && "firewall"@.len() == 8);
    assert("disk_health"@.len() == 11 && "software_updates"@.len() == 16);
    assert("load"@[0] != "disk"@[0]);
    assert("memory"@[0] != "uptime"@[0]);
    assert("cpu_temp"@[0] != "firewall"@[0]);
}

/// Without macOS its own checks are not made, and all others are made on every system.
pub proof fn law_macos_adds_its_checks(p: Probe)
    ensures
        all_probes(true).contains(p),
        all_probes(false).contains(p) <==> !(p is CpuTemp || p is DiskHealth || p is SoftwareUpdates || p is Firewall),
{
    let all = all_probes(true);
    assert(all[0] == Probe::Load && all[1] == Probe::Memory && all[2] == Probe::Disk && all[3] == Probe::Uptime);
    assert(all[4] == Probe::Ip && all[5] == Probe::Network && all[6] == Probe::CpuTemp);
    assert(all[7] == Probe::DiskHealth && all[8] == Probe::SoftwareUpdates && all[9] == Probe::Firewall);
    let some = all_probes(false);
    assert(some[0] == Probe::Load && some[1] == Probe::Memory && some[2] == Probe::Disk);
    assert(some[3] == Probe::Uptime && some[4] == Probe::Ip && some[5] == Probe::Network);
}

/// A check is found by its name exactly where it is made on this system.
pub proof fn law_check_is_found_by_its_name(p: Probe, macos: bool, r: Option<Probe>)
    requires
        named_of(probe_name(p), macos, r),
    ensures
        all_probes(macos).contains(p) ==> r == Some(p),
        !all_probes(macos).contains(p) ==> r is None,
{
    if let Some(q) = r {
        law_check_names_differ(p, q);
    } else if all_probes(macos).contains(p) {
        let i = all_probes(macos).index_of(p);
        assert(probe_names(all_probes(macos))[i] == probe_name(p));
    }
}

} // verus!
