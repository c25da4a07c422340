//! Keeping the output of a command.

use vstd::prelude::*;
use crate::daemon::proto::{CmdEndEvent, Request};
use crate::decimal;
use crate::decimal::parse_unsigned;
use crate::paths;
use crate::paths::join_path;
use crate::text;
use crate::text::{joined, owned, str_eq};

verus! {

/// How many megabytes of output are kept unless something else is said.
pub const DEFAULT_MAX_CAPTURE_MB: u64 = 10;

/// How a call that runs nothing exits: with 1 where no command was given, with 0
/// where help was asked for. `None` where there is a command to run.
pub fn usage_exit(args: &Vec<String>) -> (r: Option<i32>)
    ensures
        r == (if args@.len() == 0 {
            Some(1i32)
        } else if args@[0]@ == "--help"@ {
            Some(0i32)
        } else {
            None
        }),
{
    if args.len() == 0 {
        Some(1)
    } else if str_eq(args[0].as_str(), "--help") {
        Some(0)
    } else {
        None
    }
}

/// How many bytes of output are kept.
pub open spec fn limit_of(megabytes: Option<Seq<char>>) -> nat {
    let mb = match megabytes {
        Some(s) => match decimal::parse_unsigned_of(s, u64::MAX as nat) {
            Some(n) => n,
            None => DEFAULT_MAX_CAPTURE_MB as nat,
        },
        None => DEFAULT_MAX_CAPTURE_MB as nat,
    };
    if mb * 1_048_576 <= u64::MAX {
        mb * 1_048_576
    } else {
        u64::MAX as nat
    }
}

/// How many bytes of output are kept, from `CHEVRON_CAPTURE_MAX_MB`.
pub fn capture_limit(megabytes: Option<&str>) -> (r: u64)
    ensures
        r == limit_of(text::opt_str_view(megabytes)),
{
    let mb: u64 = match megabytes {
        Some(s) => match parse_unsigned(s, 18_446_744_073_709_551_615) {
            Some(n) => n,
            None => DEFAULT_MAX_CAPTURE_MB,
        },
        None => DEFAULT_MAX_CAPTURE_MB,
    };
    if mb > 17_592_186_044_415 {
        18_446_744_073_709_551_615
    } else {
        mb * 1_048_576
    }
}

/// The directory of the outputs, below that of the daemon's files.
pub fn outputs_dir(socket_dir: &str) -> (r: String)
    ensures
        r@ == paths::join_of_paths(socket_dir@, "outputs"@),
{
    join_path(socket_dir, "outputs")
}

/// The file for the output of a command.
pub fn output_path(outputs: &str, id: &str) -> (r: String)
    ensures
        r@ == paths::join_of_paths(outputs@, id@ + ".log"@),
{
    join_path(outputs, joined(id, ".log").as_str())
}

// ── What is kept ────────────────────────────────────────────────────────────

/// How much has been kept, and whether some was not.
#[derive(Debug, Clone, Copy, PartialEq, Eq, Structural)]
pub struct Tally {
    pub written: u64,
    pub truncated: bool,
}

/// How much of the next `n` bytes is kept, where `written` have been.
pub open spec fn room_for(written: nat, max: nat, n: nat) -> nat {
    if written >= max {
        0
    } else if n <= max - written {
        n
    } else {
        (max - written) as nat
    }
}

/// The tally after `n` more bytes.
pub open spec fn tally_after(t: Tally, max: u64, n: nat) -> Tally {
    let k = room_for(t.written as nat, max as nat, n);
    Tally { written: (t.written + k) as u64, truncated: t.truncated || k < n }
}

impl Tally {
    /// Nothing has come yet.
    pub fn new() -> (r: Tally)
        ensures
            r == (Tally { written: 0, truncated: false }),
    {
        Tally { written: 0, truncated: false }
    }

    /// `n` more bytes have come: how many of them, from the first on, are kept.
    pub fn take(&mut self, n: usize, max: u64) -> (r: usize)
        requires
            old(self).written <= max,
        ensures
            r == room_for(old(self).written as nat, max as nat, n as nat),
            *final(self) == tally_after(*old(self), max, n as nat),
            final(self).written <= max,
    {
        if self.written < max {
            let room: u64 = max - self.written;
            if n as u64 <= room {
                self.written = self.written + n as u64;
                n
            } else {
                self.written = max;
                self.truncated = true;
                room as usize
            }
        } else {
            if n > 0 {
                self.truncated = true;
            }
            0
        }
    }
}

/// The tally after some pieces of output.
pub open spec fn tally_of(pieces: Seq<nat>, max: u64) -> Tally
    decreases pieces.len(),
{
    if pieces.len() == 0 {
        Tally { written: 0, truncated: false }
    } else {
        tally_after(tally_of(pieces.drop_last(), max), max, pieces.last())
    }
}

/// How much output came in all.
pub open spec fn total(pieces: Seq<nat>) -> nat
    decreases pieces.len(),
{
    if pieces.len() == 0 {
        0
    } else {
        total(pieces.drop_last()) + pieces.last()
    }
}

/// However the output comes in pieces, as much of it is kept as there is room for,
/// and it is reported as cut exactly where some was not kept.
pub proof fn law_output_is_kept_up_to_the_limit(pieces: Seq<nat>, max: u64)
    ensures
        tally_of(pieces, max).written == (if total(pieces) <= max {
            total(pieces)
        } else {
            max as nat
        }),
        tally_of(pieces, max).truncated <==> total(pieces) > max,
    decreases pieces.len(),
{
    if pieces.len() > 0 {
        law_output_is_kept_up_to_the_limit(pieces.drop_last(), max);
    }
}

// ── The event ───────────────────────────────────────────────────────────────

/// How long a command took, by the clock; nothing where the clock went back.
pub open spec fn elapsed_ms(started: int, now: int) -> nat {
    if now <= started {
        0
    } else if now - started > i64::MAX {
        i64::MAX as nat
    } else {
        (now - started) as nat
    }
}

/// The event that a command has ended, whose output was captured.
pub fn end_request(id: &str, started_ms: i64, now_ms: i64, exit_status: i32, bytes: i64, truncated: bool) -> (r:
    Request)
    ensures
        r matches Request::CmdEnd(e) && e.id@ == id@ && e.finished_at_ms == now_ms && e.duration_ms
            == elapsed_ms(started_ms as int, now_ms as int) && e.exit_status == exit_status
            && e.output_bytes == Some(bytes) && e.output_truncated == Some(truncated),
{
    let duration_ms: u64 = if now_ms <= started_ms {
        0
    } else if started_ms < 0 && now_ms > 9_223_372_036_854_775_807 + started_ms {
        9_223_372_036_854_775_807
    } else {
        (now_ms - started_ms) as u64
    };
    Request::CmdEnd(
        CmdEndEvent {
            id: owned(id),
            finished_at_ms: now_ms,
            duration_ms,
            exit_status,
            output_bytes: Some(bytes),
            output_truncated: Some(truncated),
        },
    )
}

/// A number of bytes as it is reported.
pub fn reported_bytes(written: u64) -> (r: i64)
    ensures
        r == (if written <= i64::MAX {
            written as int
        } else {
            i64::MAX as int
        }),
{
    if written <= 9_223_372_036_854_775_807 {
        written as i64
    } else {
        9_223_372_036_854_775_807
    }
}

/// The limit is so many megabytes of 1024 times 1024 bytes, ten where nothing or no
/// number is said, as far as it can be counted.
pub proof fn law_limit_in_megabytes(n: u64, word: Seq<char>)
    requires
        decimal::parse_unsigned_of(word, u64::MAX as nat) is None,
    ensures
        n * 1_024 * 1_024 <= u64::MAX ==> limit_of(Some(decimal::dec_digits(n as nat))) == n * 1_024 * 1_024,
        n * 1_024 * 1_024 > u64::MAX ==> limit_of(Some(decimal::dec_digits(n as nat))) == u64::MAX,
        limit_of(None) == 10 * 1_024 * 1_024,
        limit_of(Some(word)) == limit_of(None),
{
    decimal::law_parse_unsigned_reads_back(n as nat, u64::MAX as nat);
}

/// What fits is kept and no more: all of a piece while there is room, then as much as
/// is left, then nothing.
pub proof fn law_room_is_never_exceeded(written: nat, max: nat, n: nat)
    requires
        written <= max,
    ensures
        written + room_for(written, max, n) <= max,
        room_for(written, max, n) <= n,
        room_for(written, max, n) < n ==> written + room_for(written, max, n) == max,
{
}

/// The time a command took is from its start to its end, and never negative.
pub proof fn law_elapsed_time(started: i64, now: i64)
    ensures
        started <= now && now - started <= i64::MAX ==> elapsed_ms(started as int, now as int) == now - started,
        now < started ==> elapsed_ms(started as int, now as int) == 0,
{
}

/// The event of a captured end carries what it was made of, each in its own place, and
/// the time from the start to now.
pub proof fn law_captured_end_carries_its_parts(
    id: &str,
    started_ms: i64,
    now_ms: i64,
    exit_status: i32,
    bytes: i64,
    truncated: bool,
    r: Request,
)
    requires
        call_ensures(end_request, (id, started_ms, now_ms, exit_status, bytes, truncated), r),
    ensures
        r matches Request::CmdEnd(e) && e.id@ == id@ && e.exit_status == exit_status && e.finished_at_ms
            == now_ms && e.output_bytes == Some(bytes) && e.output_truncated == Some(truncated) && (0 <= now_ms
            - started_ms <= i64::MAX ==> e.finished_at_ms - e.duration_ms == started_ms),
{
}

/// Each command has a file of its own for its output, below the directory for all of
/// them.
pub proof fn law_outputs_have_their_own_files(outputs: &str, a: &str, b: &str, p: String, q: String)
    requires
        call_ensures(output_path, (outputs, a), p),
        call_ensures(output_path, (outputs, b), q),
        a@ != b@,
        a@.len() > 0 && a@[0] != '/',
        b@.len() > 0 && b@[0] != '/',
    ensures
        p@ != q@,
        text::starts_with_of(p@, outputs@),
{
    let x = a@ + ".log"@;
    let y = b@ + ".log"@;
    assert(x[0] == a@[0] && y[0] == b@[0]);
    assert(p@.subrange(0, outputs@.len() as int) =~= outputs@);
    if p@ == q@ {
        let n = p@.len() - x.len();
        if x.len() == y.len() {
            assert(p@.skip(n) =~= x);
            assert(q@.skip(n) =~= y);
            assert(x.take(a@.len() as int) =~= a@);
            assert(y.take(b@.len() as int) =~= b@);
        }
        assert(p@.len() - x.len() == q@.len() - y.len());
    }
}

/// A count of bytes is reported as it is, as far as it can be.
pub proof fn law_bytes_are_reported(written: u64, r: i64)
    requires
        call_ensures(reported_bytes, (written,), r),
    ensures
        written <= i64::MAX ==> r == written,
        r >= 0,
{
}

/// Only a call without a command runs nothing: it fails where there is none, and
/// succeeds where help was asked for.
pub proof fn law_help_succeeds_and_nothing_fails(args: &Vec<String>, r: Option<i32>)
    requires
        call_ensures(usage_exit, (args,), r),
    ensures
        args@.len() == 0 <==> r == Some(1i32),
        args@.len() > 0 && args@[0]@ == "--help"@ <==> r == Some(0i32),
        r is None <==> args@.len() > 0 && args@[0]@ != "--help"@,
{
}

} // verus!
