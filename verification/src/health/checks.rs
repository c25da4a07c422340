//! What each check says of a reading of the machine.

use vstd::prelude::*;
use crate::config::{NetworkConfig, Thresholds};
use crate::decimal;
use crate::decimal::{dec_u64, push_u64};
use crate::health::check;
use crate::health::check::{Check, CheckView};
use crate::text;
use crate::text::owned;

verus! {

/// A reading that is a fraction: how it is written, and the key by which it is
/// held against the thresholds. What is no number at all has the least key: it
/// is above no threshold.
#[derive(Debug, Clone)]
pub struct Measure {
    pub text: String,
    pub key: i64,
}

/// A reading of the machine.
#[derive(Debug, Clone)]
pub struct SystemInfo {
    /// The load over the last minute, with two decimals.
    pub load_1: String,
    /// That load for each core, with two decimals.
    pub load_per_core: Measure,
    pub mem_total: u64,
    /// The memory in use in per cent, with one decimal.
    pub mem_percent: Measure,
    pub disk_total: u64,
    /// The disk space in use in per cent, with one decimal.
    pub disk_percent: Measure,
    pub uptime_secs: u64,
    /// The address of this machine, or nothing.
    pub ip_addr: String,
}

/// What the load says.
pub open spec fn load_of(info: SystemInfo, thresholds: Thresholds) -> CheckView {
    let value = info.load_1@ + " ("@ + info.load_per_core.text@ + " per core)"@;
    if info.load_per_core.key > thresholds.load {
        check::warn_of("load"@, "System Load"@, value, "system is under sustained load"@)
    } else {
        check::ok_of("load"@, "System Load"@, value)
    }
}

/// What the load says: whether there is too much of it for each core.
pub fn load(info: &SystemInfo, thresholds: &Thresholds) -> (r: Check)
    ensures
        r@ == load_of(*info, *thresholds),
{
    let mut value: String = owned(info.load_1.as_str());
    value.push_str(" (");
    value.push_str(info.load_per_core.text.as_str());
    value.push_str(" per core)");
    if info.load_per_core.key > thresholds.load {
        Check::warn("load", "System Load", value.as_str(), "system is under sustained load")
    } else {
        Check::ok("load", "System Load", value.as_str())
    }
}

/// What the memory in use says.
pub open spec fn memory_of(info: SystemInfo, thresholds: Thresholds) -> CheckView {
    let value = info.mem_percent.text@ + "%"@;
    if info.mem_total == 0 {
        check::unknown_of("memory"@, "Memory Usage"@, "unknown"@)
    } else if info.mem_percent.key > thresholds.memory_critical {
        check::critical_of(
            "memory"@,
            "Memory Usage"@,
            value,
            "free memory: close apps or restart heavy processes"@,
        )
    } else if info.mem_percent.key > thresholds.memory_warn {
        check::warn_of("memory"@, "Memory Usage"@, value, "memory pressure rising"@)
    } else {
        check::ok_of("memory"@, "Memory Usage"@, value)
    }
}

/// What the memory in use says.
pub fn memory(info: &SystemInfo, thresholds: &Thresholds) -> (r: Check)
    ensures
        r@ == memory_of(*info, *thresholds),
{
    if info.mem_total == 0 {
        return Check::unknown("memory", "Memory Usage", "unknown");
    }
    let mut value: String = owned(info.mem_percent.text.as_str());
    value.push_str("%");
    if info.mem_percent.key > thresholds.memory_critical {
        Check::critical(
            "memory",
            "Memory Usage",
            value.as_str(),
            "free memory: close apps or restart heavy processes",
        )
    } else if info.mem_percent.key > thresholds.memory_warn {
        Check::warn("memory", "Memory Usage", value.as_str(), "memory pressure rising")
    } else {
        Check::ok("memory", "Memory Usage", value.as_str())
    }
}

/// What the disk space in use says.
pub open spec fn disk_of(info: SystemInfo, thresholds: Thresholds) -> CheckView {
    let value = info.disk_percent.text@ + "%"@;
    if info.disk_total == 0 {
        check::unknown_of("disk"@, "Disk Usage"@, "unknown"@)
    } else if info.disk_percent.key > thresholds.disk_critical {
        check::critical_of(
            "disk"@,
            "Disk Usage"@,
            value,
            "free disk space: clean caches or move data"@,
        )
    } else if info.disk_percent.key > thresholds.disk_warn {
        check::warn_of("disk"@, "Disk Usage"@, value, "disk space getting low"@)
    } else {
        check::ok_of("disk"@, "Disk Usage"@, value)
    }
}

/// What the disk space in use says.
pub fn disk(info: &SystemInfo, thresholds: &Thresholds) -> (r: Check)
    ensures
        r@ == disk_of(*info, *thresholds),
{
    if info.disk_total == 0 {
        return Check::unknown("disk", "Disk Usage", "unknown");
    }
    let mut value: String = owned(info.disk_percent.text.as_str());
    value.push_str("%");
    if info.disk_percent.key > thresholds.disk_critical {
        Check::critical("disk", "Disk Usage", value.as_str(), "free disk space: clean caches or move data")
    } else if info.disk_percent.key > thresholds.disk_warn {
        Check::warn("disk", "Disk Usage", value.as_str(), "disk space getting low")
    } else {
        Check::ok("disk", "Disk Usage", value.as_str())
    }
}

/// What the address says.
pub open spec fn ip_address_of(info: SystemInfo) -> CheckView {
    if info.ip_addr@.len() == 0 {
        check::unknown_of("ip"@, "IP Address"@, "unknown"@)
    } else {
        check::ok_of("ip"@, "IP Address"@, info.ip_addr@)
    }
}

/// What the address says.
pub fn ip_address(info: &SystemInfo) -> (r: Check)
    ensures
        r@ == ip_address_of(*info),
{
    if info.ip_addr.as_str().is_empty() {
        Check::unknown("ip", "IP Address", "unknown")
    } else {
        Check::ok("ip", "IP Address", info.ip_addr.as_str())
    }
}

/// A time in days, hours and minutes; what is left of a minute is dropped.
pub open spec fn uptime_text(secs: nat) -> Seq<char> {
    decimal::dec_digits(secs / 86_400) + " days, "@ + decimal::dec_digits((secs % 86_400) / 3_600)
        + " hours, "@ + decimal::dec_digits((secs % 3_600) / 60) + " minutes"@
}

/// What the time since the start of the machine says.
pub open spec fn uptime_of(info: SystemInfo) -> CheckView {
    if info.uptime_secs == 0 {
        check::unknown_of("uptime"@, "System Uptime"@, "unknown"@)
    } else {
        check::ok_of("uptime"@, "System Uptime"@, uptime_text(info.uptime_secs as nat))
    }
}

/// What the time since the start of the machine says.
pub fn uptime(info: &SystemInfo) -> (r: Check)
    ensures
        r@ == uptime_of(*info),
{
    let secs: u64 = info.uptime_secs;
    if secs == 0 {
        return Check::unknown("uptime", "System Uptime", "unknown");
    }
    let mut value: String = dec_u64(secs / 86_400);
    value.push_str(" days, ");
    push_u64(&mut value, (secs % 86_400) / 3_600);
    value.push_str(" hours, ");
    push_u64(&mut value, (secs % 3_600) / 60);
    value.push_str(" minutes");
    Check::ok("uptime", "System Uptime", value.as_str())
}

/// What the network check connects to: a host and a port.
pub open spec fn target_of(place: NetworkConfig) -> Seq<char> {
    place.host@ + ":"@ + decimal::dec_digits(place.port as nat)
}

/// What the network check connects to.
pub fn target(place: &NetworkConfig) -> (r: String)
    ensures
        r@ == target_of(*place),
{
    let mut out: String = owned(place.host.as_str());
    out.push_str(":");
    push_u64(&mut out, place.port as u64);
    out
}

/// What an attempt to connect says: the milliseconds it took, or why it failed.
pub open spec fn network_of(place: NetworkConfig, outcome: Result<u64, String>) -> CheckView {
    match outcome {
        Ok(ms) => check::ok_of(
            "network"@,
            "Network Status"@,
            "Connected ("@ + decimal::dec_digits(ms as nat) + "ms to "@ + target_of(place) + ")"@,
        ),
        Err(reason) => check::critical_of(
            "network"@,
            "Network Status"@,
            "Disconnected ("@ + reason@ + ")"@,
            "check network connection"@,
        ),
    }
}

/// What an attempt to connect to the target says.
pub fn network(place: &NetworkConfig, outcome: &Result<u64, String>) -> (r: Check)
    ensures
        r@ == network_of(*place, *outcome),
{
    match outcome {
        Ok(ms) => {
            let mut value: String = owned("Connected (");
            push_u64(&mut value, *ms);
            value.push_str("ms to ");
            value.push_str(target(place).as_str());
            value.push_str(")");
            Check::ok("network", "Network Status", value.as_str())
        },
        Err(reason) => {
            let mut value: String = owned("Disconnected (");
            value.push_str(reason.as_str());
            value.push_str(")");
            Check::critical("network", "Network Status", value.as_str(), "check network connection")
        },
    }
}

// ── Laws ────────────────────────────────────────────────────────────────────

/// How bad a reading above or below its limits is: 0 for none of it, 1 above the
/// limit to warn at, 2 above the critical one.
pub open spec fn degree(s: check::Severity) -> int {
    match s {
        check::Severity::Critical => 2,
        check::Severity::Warn => 1,
        _ => 0,
    }
}

/// The disk check follows the space in use: unknown where there is no disk, else
/// critical just above the critical limit, a warning just above the limit to warn at
/// and not above the critical one, and fine just above neither. It shows the space in
/// use, and says what to do just where something is wrong.
pub proof fn law_disk_follows_the_reading(info: SystemInfo, thresholds: Thresholds)
    ensures
        ({
            let key = info.disk_percent.key;
            let c = disk_of(info, thresholds);
            &&& c.severity is Unknown <==> info.disk_total == 0
            &&& info.disk_total != 0 ==> {
                &&& c.severity is Critical <==> key > thresholds.disk_critical
                &&& c.severity is Warn <==> key > thresholds.disk_warn && key <= thresholds.disk_critical
                &&& c.severity is Okay <==> key <= thresholds.disk_warn && key <= thresholds.disk_critical
                &&& c.value == info.disk_percent.text@.push('%')
            }
            &&& c.hint is Some <==> c.severity is Warn || c.severity is Critical
            &&& c.name == "disk"@
        }),
{
    reveal_strlit("%");
    assert("%"@ =~= seq!['%']);
    assert(info.disk_percent.text@ + "%"@ =~= info.disk_percent.text@.push('%'));
}

/// The fuller the disk, the worse the check: its severity never falls as the space in
/// use rises.
pub proof fn law_disk_never_improves(less: SystemInfo, more: SystemInfo, thresholds: Thresholds)
    requires
        less.disk_total != 0,
        more.disk_total != 0,
        less.disk_percent.key <= more.disk_percent.key,
    ensures
        degree(disk_of(less, thresholds).severity) <= degree(disk_of(more, thresholds).severity),
{
}

/// The memory check follows the memory in use, as the disk check follows the space.
pub proof fn law_memory_follows_the_reading(info: SystemInfo, thresholds: Thresholds)
    ensures
        ({
            let key = info.mem_percent.key;
            let c = memory_of(info, thresholds);
            &&& c.severity is Unknown <==> info.mem_total == 0
            &&& info.mem_total != 0 ==> {
                &&& c.severity is Critical <==> key > thresholds.memory_critical
                &&& c.severity is Warn <==> key > thresholds.memory_warn && key
                    <= thresholds.memory_critical
                &&& c.severity is Okay <==> key <= thresholds.memory_warn && key
                    <= thresholds.memory_critical
                &&& c.value == info.mem_percent.text@.push('%')
            }
            &&& c.hint is Some <==> c.severity is Warn || c.severity is Critical
            &&& c.name == "memory"@
        }),
{
    reveal_strlit("%");
    assert("%"@ =~= seq!['%']);
    assert(info.mem_percent.text@ + "%"@ =~= info.mem_percent.text@.push('%'));
}

/// The more memory is in use, the worse the check.
pub proof fn law_memory_never_improves(less: SystemInfo, more: SystemInfo, thresholds: Thresholds)
    requires
        less.mem_total != 0,
        more.mem_total != 0,
        less.mem_percent.key <= more.mem_percent.key,
    ensures
        degree(memory_of(less, thresholds).severity) <= degree(memory_of(more, thresholds).severity),
{
}

/// The load is a warning just where each core has more than its limit, and is never
/// worse than that. The load itself is shown first, and the load of a core after it.
pub proof fn law_load_follows_the_reading(info: SystemInfo, thresholds: Thresholds)
    ensures
        ({
            let c = load_of(info, thresholds);
            &&& c.severity is Warn <==> info.load_per_core.key > thresholds.load
            &&& c.severity is Okay <==> info.load_per_core.key <= thresholds.load
            &&& c.hint is Some <==> c.severity is Warn
            &&& info.load_1@.is_prefix_of(c.value)
            &&& c.value.skip((info.load_1@.len() + 2) as int).take(
                info.load_per_core.text@.len() as int,
            ) == info.load_per_core.text@
            &&& c.name == "load"@
        }),
{
    reveal_strlit(" (");
    let c = load_of(info, thresholds);
    assert(info.load_1@ =~= c.value.take(info.load_1@.len() as int));
    assert(c.value.skip((info.load_1@.len() + 2) as int).take(info.load_per_core.text@.len() as int)
        =~= info.load_per_core.text@);
}

/// The machine's address is shown as it is; only where there is none is it unknown.
pub proof fn law_address_is_shown(info: SystemInfo)
    ensures
        info.ip_addr@.len() > 0 ==> ip_address_of(info).value == info.ip_addr@,
        ip_address_of(info).severity is Okay <==> info.ip_addr@.len() > 0,
        ip_address_of(info).severity is Unknown <==> info.ip_addr@.len() == 0,
        ip_address_of(info).hint is None,
{
}

/// The days, hours and minutes shown make up the time since the start, but for less
/// than a minute: there are fewer than 24 hours and fewer than 60 minutes among them.
pub proof fn law_uptime_adds_up(secs: nat)
    ensures
        exists|d: nat, h: nat, m: nat|
            #![trigger decimal::dec_digits(d), decimal::dec_digits(h), decimal::dec_digits(m)]
            h < 24 && m < 60 && d * 86_400 + h * 3_600 + m * 60 <= secs < d * 86_400 + h * 3_600 + m * 60
                + 60 && uptime_text(secs) == decimal::dec_digits(d) + " days, "@ + decimal::dec_digits(h)
                + " hours, "@ + decimal::dec_digits(m) + " minutes"@,
{
    let d = secs / 86_400;
    let h = (secs % 86_400) / 3_600;
    let m = (secs % 3_600) / 60;
    assert((secs % 86_400) % 3_600 == secs % 3_600) by (nonlinear_arith);
    assert(uptime_text(secs) == decimal::dec_digits(d) + " days, "@ + decimal::dec_digits(h)
        + " hours, "@ + decimal::dec_digits(m) + " minutes"@);
}

/// The time since the start is fine wherever it is known.
pub proof fn law_uptime_is_never_bad(info: SystemInfo)
    ensures
        uptime_of(info).severity is Unknown <==> info.uptime_secs == 0,
        uptime_of(info).severity is Okay <==> info.uptime_secs > 0,
        info.uptime_secs > 0 ==> uptime_of(info).value == uptime_text(info.uptime_secs as nat),
{
}

/// A connection that was made is fine, and the host, the port and the milliseconds
/// it took are shown; one that was not made is critical, and the reason is shown.
pub proof fn law_network_follows_the_attempt(place: NetworkConfig, outcome: Result<u64, String>)
    ensures
        ({
            let c = network_of(place, outcome);
            &&& c.severity is Okay <==> outcome is Ok
            &&& c.severity is Critical <==> outcome is Err
            &&& c.hint is Some <==> outcome is Err
            &&& outcome matches Ok(ms) ==> text::contains_of(c.value, place.host@) && text::contains_of(
                c.value,
                decimal::dec_digits(place.port as nat),
            ) && text::contains_of(c.value, decimal::dec_digits(ms as nat))
            &&& outcome matches Err(reason) ==> text::contains_of(c.value, reason@)
        }),
{
    let c = network_of(place, outcome);
    match outcome {
        Ok(ms) => {
            let a = "Connected ("@;
            let n = decimal::dec_digits(ms as nat);
            let b = "ms to "@;
            let p = decimal::dec_digits(place.port as nat);
            let at = a.len() + n.len() + b.len();
            let sep = ":"@.len();
            assert(text::occurs_at(c.value, place.host@, at as int)) by {
                assert(c.value.subrange(at as int, (at + place.host@.len()) as int) =~= place.host@);
            }
            let end = at + place.host@.len() + sep;
            assert(text::occurs_at(c.value, p, end as int)) by {
                assert(c.value.subrange(end as int, (end + p.len()) as int) =~= p);
            }
            assert(text::occurs_at(c.value, n, a.len() as int)) by {
                assert(c.value.subrange(a.len() as int, (a.len() + n.len()) as int) =~= n);
            }
        },
        Err(reason) => {
            let a = "Disconnected ("@;
            assert(text::occurs_at(c.value, reason@, a.len() as int)) by {
                assert(c.value.subrange(a.len() as int, (a.len() + reason@.len()) as int) =~= reason@);
            }
        },
    }
}

} // verus!
