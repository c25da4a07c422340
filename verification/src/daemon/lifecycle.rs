//! How long the daemon runs, and how it is stopped and asked after.

use vstd::prelude::*;
use crate::decimal;
use crate::decimal::{dec_u64, parse_unsigned, push_u64};
use crate::text;
use crate::text::{joined, owned, trim_str};

verus! {

/// How long the daemon waits for work unless something else is said, in
/// milliseconds.
pub const DEFAULT_IDLE_TIMEOUT_MS: u64 = 1_800_000;

/// How long the daemon waits for work, in milliseconds; 0 is for ever.
pub open spec fn idle_timeout_of(value: Option<Seq<char>>) -> nat {
    match value {
        Some(v) => match decimal::parse_unsigned_of(v, u64::MAX as nat) {
            Some(n) => n,
            None => DEFAULT_IDLE_TIMEOUT_MS as nat,
        },
        None => DEFAULT_IDLE_TIMEOUT_MS as nat,
    }
}

/// How long the daemon waits for work, from `CHEVRON_DAEMON_IDLE_TIMEOUT_MS`.
pub fn idle_timeout(value: Option<&str>) -> (r: u64)
    ensures
        r == idle_timeout_of(text::opt_str_view(value)),
{
    match value {
        Some(v) => match parse_unsigned(v, 18_446_744_073_709_551_615) {
            Some(n) => n,
            None => DEFAULT_IDLE_TIMEOUT_MS,
        },
        None => DEFAULT_IDLE_TIMEOUT_MS,
    }
}

/// How often the watchdog looks, in microseconds: four times in the time that the
/// daemon waits, but neither more often than every 50 milliseconds nor less often
/// than every minute.
pub open spec fn tick_of(timeout_ms: nat) -> nat {
    let quarter = timeout_ms * 250;
    if timeout_ms == 0 || quarter > 60_000_000 {
        60_000_000
    } else if quarter < 50_000 {
        50_000
    } else {
        quarter
    }
}

/// How often the watchdog looks, in microseconds.
pub fn tick_us(timeout_ms: u64) -> (r: u64)
    ensures
        r == tick_of(timeout_ms as nat),
{
    if timeout_ms == 0 || timeout_ms > 240_000 {
        60_000_000
    } else if timeout_ms < 200 {
        50_000
    } else {
        timeout_ms * 250
    }
}

/// Whether the daemon has nothing left to do: no one listens for events, and no one
/// has asked for longer than it waits.
pub open spec fn is_idle(timeout_ms: nat, relays: nat, now_ms: nat, last_ms: nat) -> bool {
    timeout_ms > 0 && relays == 0 && now_ms - last_ms > timeout_ms
}

/// Whether the daemon has nothing left to do.
pub fn should_retire(timeout_ms: u64, relays: usize, now_ms: u64, last_ms: u64) -> (r: bool)
    ensures
        r == is_idle(timeout_ms as nat, relays as nat, now_ms as nat, last_ms as nat),
{
    timeout_ms > 0 && relays == 0 && now_ms >= last_ms && now_ms - last_ms > timeout_ms
}

/// A daemon that someone listens to is never idle, and neither is one that waits for
/// ever.
pub proof fn law_attached_daemon_stays(timeout_ms: nat, relays: nat, now_ms: nat, last_ms: nat)
    ensures
        relays > 0 || timeout_ms == 0 ==> !is_idle(timeout_ms, relays, now_ms, last_ms),
{
}

// ── The file that names the process ─────────────────────────────────────────

/// What the file holds.
pub fn pid_text(pid: u32) -> (r: String)
    ensures
        r@ == decimal::dec_digits(pid as nat),
{
    dec_u64(pid as u64)
}

/// The process that the file names.
pub open spec fn pid_of(contents: Seq<char>) -> Option<nat> {
    decimal::parse_unsigned_of(text::trim_of(contents), u32::MAX as nat)
}

/// The process that the file names.
pub fn read_pidfile(contents: &str) -> (r: Option<u32>)
    ensures
        match r {
            Some(pid) => pid_of(contents@) == Some(pid as nat),
            None => pid_of(contents@) is None,
        },
{
    let t: String = trim_str(contents);
    match parse_unsigned(t.as_str(), 4_294_967_295) {
        Some(n) => Some(n as u32),
        None => None,
    }
}

/// The file names the process that was written to it.
pub proof fn law_pidfile_reads_back(pid: nat)
    requires
        pid <= u32::MAX,
    ensures
        pid_of(decimal::dec_digits(pid)) == Some(pid),
{
    decimal::lemma_dec_digits(pid);
    decimal::law_parse_unsigned_reads_back(pid, u32::MAX as nat);
    text::lemma_trim_solid(decimal::dec_digits(pid));
}

/// Whether a number can be that of a process.
pub fn pid_in_range(pid: u32) -> (r: bool)
    ensures
        r == (pid <= i32::MAX),
{
    pid <= 2_147_483_647
}

/// What to do to stop the daemon.
#[derive(Debug)]
pub enum StopPlan {
    /// There is nothing to stop: what to say.
    Nothing(String),
    /// The file names a process that is gone: what to say, and remove the file.
    Stale(String),
    /// Tell this process to stop.
    Signal(u32),
}

/// What to do to stop the daemon that `pid` names.
pub open spec fn stop_of(pid: Option<u32>, alive: bool, path: Seq<char>, r: StopPlan) -> bool {
    match pid {
        None => r matches StopPlan::Nothing(m) && m@ == "chevrond: not running (no pidfile at "@ + path
            + ")"@,
        Some(p) => if p > i32::MAX {
            r matches StopPlan::Nothing(m) && m@ == "chevrond: pidfile contains out-of-range pid "@
                + decimal::dec_digits(p as nat)
        } else if !alive {
            r matches StopPlan::Stale(m) && m@ == "chevrond: pid "@ + decimal::dec_digits(p as nat)
                + " is not alive; removing stale pidfile"@
        } else {
            r == StopPlan::Signal(p)
        },
    }
}

/// What to do to stop the daemon. `pid` is what the file at `path` names.
pub fn stop_plan(pid: Option<u32>, alive: bool, path: &str) -> (r: StopPlan)
    ensures
        stop_of(pid, alive, path@, r),
{
    match pid {
        None => {
            let mut m: String = joined("chevrond: not running (no pidfile at ", path);
            m.push_str(")");
            StopPlan::Nothing(m)
        },
        Some(p) => {
            if !pid_in_range(p) {
                let mut m: String = owned("chevrond: pidfile contains out-of-range pid ");
                push_u64(&mut m, p as u64);
                StopPlan::Nothing(m)
            } else if !alive {
                let mut m: String = owned("chevrond: pid ");
                push_u64(&mut m, p as u64);
                m.push_str(" is not alive; removing stale pidfile");
                StopPlan::Stale(m)
            } else {
                StopPlan::Signal(p)
            }
        },
    }
}

/// What is said where the daemon does not stop in time.
pub fn stop_timeout_text(pid: u32) -> (r: String)
    ensures
        r@ == "chevrond: timed out waiting for pid "@ + decimal::dec_digits(pid as nat) + " to exit"@,
{
    let mut m: String = owned("chevrond: timed out waiting for pid ");
    push_u64(&mut m, pid as u64);
    m.push_str(" to exit");
    m
}

/// What is said of the daemon, and the exit code.
pub open spec fn status_of(pid: Option<u32>, alive: bool) -> (Seq<char>, int) {
    match pid {
        None => ("chevrond: not running"@, 1),
        Some(p) => if alive {
            ("chevrond: running (pid "@ + decimal::dec_digits(p as nat) + ")"@, 0)
        } else {
            ("chevrond: not running (stale pidfile, pid "@ + decimal::dec_digits(p as nat) + ")"@, 1)
        },
    }
}

/// What is said of the daemon, and the exit code.
pub fn status_text(pid: Option<u32>, alive: bool) -> (r: (String, i32))
    ensures
        ((r.0)@, r.1 as int) == status_of(pid, alive),
{
    match pid {
        None => (owned("chevrond: not running"), 1),
        Some(p) => {
            let mut m: String = owned(
                if alive {
                    "chevrond: running (pid "
                } else {
                    "chevrond: not running (stale pidfile, pid "
                },
            );
            push_u64(&mut m, p as u64);
            m.push_str(")");
            if alive {
                (m, 0)
            } else {
                (m, 1)
            }
        },
    }
}

/// The daemon waits as long as it is told, in milliseconds, and half an hour where
/// nothing or no number is said.
pub proof fn law_idle_timeout_is_what_is_said(n: u64, word: Seq<char>)
    requires
        decimal::parse_unsigned_of(word, u64::MAX as nat) is None,
    ensures
        idle_timeout_of(Some(decimal::dec_digits(n as nat))) == n,
        idle_timeout_of(None) == 30 * 60 * 1_000,
        idle_timeout_of(Some(word)) == 30 * 60 * 1_000,
{
    decimal::law_parse_unsigned_reads_back(n as nat, u64::MAX as nat);
}

/// The watchdog looks at least four times in the time that the daemon waits, where that
/// is a fifth of a second or more, at least once a minute, and at most twenty times a
/// second.
pub proof fn law_watchdog_looks_in_time(timeout_ms: nat)
    ensures
        50_000 <= tick_of(timeout_ms) <= 60_000_000,
        timeout_ms >= 200 ==> 4 * tick_of(timeout_ms) <= timeout_ms * 1_000,
        200 <= timeout_ms <= 240_000 ==> 4 * tick_of(timeout_ms) == timeout_ms * 1_000,
{
}

/// The daemon leaves only after it has waited longer than it was told to without
/// anyone asking or listening; told to wait for ever, it never leaves.
pub proof fn law_idle_daemon_leaves(timeout_ms: nat, relays: nat, now_ms: nat, last_ms: nat, later_ms: nat)
    ensures
        is_idle(0, relays, now_ms, last_ms) == false,
        relays > 0 ==> !is_idle(timeout_ms, relays, now_ms, last_ms),
        now_ms <= last_ms + timeout_ms ==> !is_idle(timeout_ms, relays, now_ms, last_ms),
        timeout_ms > 0 && relays == 0 && now_ms > last_ms + timeout_ms ==> is_idle(
            timeout_ms,
            relays,
            now_ms,
            last_ms,
        ),
        is_idle(timeout_ms, relays, now_ms, last_ms) && later_ms >= now_ms ==> is_idle(
            timeout_ms,
            relays,
            later_ms,
            last_ms,
        ),
{
}

/// Only a process that is alive, by a number that the system can have, is told to stop;
/// the status is a success just where it runs.
pub proof fn law_only_a_live_daemon_is_stopped(pid: Option<u32>, alive: bool, path: Seq<char>, r: StopPlan)
    requires
        stop_of(pid, alive, path, r),
    ensures
        r matches StopPlan::Signal(p) ==> pid == Some(p) && alive && p <= 0x7fff_ffff,
        r is Stale ==> pid is Some && !alive,
        pid is None ==> r is Nothing,
        pid is Some && alive && pid->0 <= 0x7fff_ffff ==> r == StopPlan::Signal(pid->0),
        status_of(pid, alive).1 == 0 <==> pid is Some && alive,
        pid is Some ==> text::contains_of(status_of(pid, alive).0, decimal::dec_digits(pid->0 as nat)),
{
    if let Some(p) = pid {
        let said = status_of(pid, alive).0;
        let d = decimal::dec_digits(p as nat);
        let at = (if alive {
            "chevrond: running (pid "@
        } else {
            "chevrond: not running (stale pidfile, pid "@
        }).len() as int;
        assert(said.subrange(at, at + d.len()) =~= d);
        assert(text::occurs_at(said, d, at));
    }
}

} // verus!
