//! What the hooks of a shell tell the daemon of commands.

use vstd::prelude::*;
use crate::daemon::proto;
use crate::daemon::proto::{CmdEndEvent, CmdStartEvent, Request};
use crate::decimal;
use crate::decimal::{parse_signed, parse_unsigned};
use crate::text;
use crate::text::{owned, str_eq, string_from_utf8};

verus! {

/// Whether a character is one of Crockford's base 32.
pub open spec fn is_crockford(c: char) -> bool {
    ('0' <= c && c <= '9') || ('A' <= c && c <= 'Z' && c != 'I' && c != 'L' && c != 'O' && c != 'U')
}

/// Whether a text has the form of a ULID.
pub open spec fn is_ulid(s: Seq<char>) -> bool {
    s.len() == 26 && forall|i: int| 0 <= i < s.len() ==> is_crockford(#[trigger] s[i])
}

/// `ulid::Ulid::new`, written with `to_string`: 26 characters of Crockford's base 32.
/// Which they are depends on the time and on chance, and is not stated.
#[verifier::external_body]
fn fresh_ulid() -> (r: String)
    ensures
        is_ulid(r@),
{
    ulid::Ulid::new().to_string()
}

/// A new id.
pub fn new_ulid() -> (r: String)
    ensures
        is_ulid(r@),
{
    fresh_ulid()
}

/// What the command line asks for.
#[derive(Debug)]
pub enum EventCall {
    /// Print a new id.
    NewSession,
    /// A command has started.
    Start { session_id: String, cwd: String, cmd: String },
    /// An empty line was entered.
    EmptyStart,
    /// A command has ended.
    End { id: String, exit_status: i32, duration_ms: u64 },
    /// It cannot be read: what to say.
    Usage(&'static str),
}

/// The value of what the command line asks for.
pub enum EventCallView {
    NewSession,
    Start { session_id: Seq<char>, cwd: Seq<char>, cmd: Seq<char> },
    EmptyStart,
    End { id: Seq<char>, exit_status: int, duration_ms: nat },
    Usage(Seq<char>),
}

impl View for EventCall {
    type V = EventCallView;

    open spec fn view(&self) -> EventCallView {
        match self {
            EventCall::NewSession => EventCallView::NewSession,
            EventCall::Start { session_id, cwd, cmd } => EventCallView::Start {
                session_id: session_id@,
                cwd: cwd@,
                cmd: cmd@,
            },
            EventCall::EmptyStart => EventCallView::EmptyStart,
            EventCall::End { id, exit_status, duration_ms } => EventCallView::End {
                id: id@,
                exit_status: *exit_status as int,
                duration_ms: *duration_ms as nat,
            },
            EventCall::Usage(s) => EventCallView::Usage(s@),
        }
    }
}

/// A number from an argument; 0 where it is missing or is none.
pub open spec fn exit_arg(args: Seq<Seq<char>>) -> int {
    if args.len() > 2 {
        match decimal::parse_signed_of(args[2], i32::MIN as int, i32::MAX as int) {
            Some(n) => n,
            None => 0,
        }
    } else {
        0
    }
}

/// A time from an argument; 0 where it is missing or is none.
pub open spec fn duration_arg(args: Seq<Seq<char>>) -> nat {
    if args.len() > 3 {
        match decimal::parse_unsigned_of(args[3], u64::MAX as nat) {
            Some(n) => n,
            None => 0,
        }
    } else {
        0
    }
}

/// What the arguments ask for. The words of a command are joined by spaces; where that
/// leaves nothing, no command has started.
pub open spec fn event_call_of(args: Seq<Seq<char>>) -> EventCallView {
    if args.len() > 0 && args[0] == "new-session"@ {
        EventCallView::NewSession
    } else if args.len() > 0 && args[0] == "cmd-start"@ {
        if args.len() < 3 {
            EventCallView::Usage("Usage: chevron event cmd-start <session-id> <cwd> <cmd...>"@)
        } else if text::join_of(args.skip(3), " "@).len() == 0 {
            EventCallView::EmptyStart
        } else {
            EventCallView::Start {
                session_id: args[1],
                cwd: args[2],
                cmd: text::join_of(args.skip(3), " "@),
            }
        }
    } else if args.len() > 0 && args[0] == "cmd-end"@ {
        if args.len() < 2 {
            EventCallView::Usage("Usage: chevron event cmd-end <id> <exit> <duration-ms>"@)
        } else {
            EventCallView::End {
                id: args[1],
                exit_status: exit_arg(args),
                duration_ms: duration_arg(args),
            }
        }
    } else {
        EventCallView::Usage("Usage: chevron event <new-session|cmd-start|cmd-end>"@)
    }
}

/// The strings from a place on, with `sep` between any two.
pub fn join_from(parts: &Vec<String>, from: usize, sep: &str) -> (r: String)
    requires
        from <= parts@.len(),
    ensures
        r@ == text::join_of(text::views(parts@).skip(from as int), sep@),
{
    let ghost pv = text::views(parts@).skip(from as int);
    let mut out: String = String::new();
    let mut i: usize = from;
    while i < parts.len()
        invariant
            pv == text::views(parts@).skip(from as int),
            from <= i <= parts@.len(),
            out@ == text::join_of(pv.take(i - from), sep@),
        decreases parts@.len() - i,
    {
        if i > from {
            out.push_str(sep);
        }
        out.push_str(parts[i].as_str());
        proof {
            let t = pv.take(i - from + 1);
            assert(t.drop_last() =~= pv.take(i - from));
            assert(t.last() == parts@[i as int]@);
            if i == from {
                assert(out@ =~= t[0]);
            }
        }
        i += 1;
    }
    proof {
        assert(pv.take(i - from) =~= pv);
    }
    out
}

/// What the arguments ask for.
pub fn parse_event_args(args: &Vec<String>) -> (r: EventCall)
    ensures
        r@ == event_call_of(text::views(args@)),
{
    let ghost av = text::views(args@);
    if args.len() == 0 {
        return EventCall::Usage("Usage: chevron event <new-session|cmd-start|cmd-end>");
    }
    proof {
        assert(av[0] == args@[0]@);
        assert forall|i: int| 0 <= i < av.len() implies #[trigger] av[i] == args@[i]@ by {}
    }
    let name: &str = args[0].as_str();
    if str_eq(name, "new-session") {
        EventCall::NewSession
    } else if str_eq(name, "cmd-start") {
        if args.len() < 3 {
            return EventCall::Usage("Usage: chevron event cmd-start <session-id> <cwd> <cmd...>");
        }
        let cmd: String = join_from(args, 3, " ");
        if cmd.as_str().is_empty() {
            return EventCall::EmptyStart;
        }
        EventCall::Start { session_id: owned(args[1].as_str()), cwd: owned(args[2].as_str()), cmd }
    } else if str_eq(name, "cmd-end") {
        if args.len() < 2 {
            return EventCall::Usage("Usage: chevron event cmd-end <id> <exit> <duration-ms>");
        }
        let exit_status: i32 = if args.len() > 2 {
            match parse_signed(args[2].as_str(), -2_147_483_648, 2_147_483_647) {
                Some(n) => n as i32,
                None => 0,
            }
        } else {
            0
        };
        let duration_ms: u64 = if args.len() > 3 {
            match parse_unsigned(args[3].as_str(), 18_446_744_073_709_551_615) {
                Some(n) => n,
                None => 0,
            }
        } else {
            0
        };
        EventCall::End { id: owned(args[1].as_str()), exit_status, duration_ms }
    } else {
        EventCall::Usage("Usage: chevron event <new-session|cmd-start|cmd-end>")
    }
}

/// The exit code of a call: all but one that cannot be read succeed, whether or not
/// a daemon took the event.
pub fn event_exit(call: &EventCall) -> (r: i32)
    ensures
        r == (if call is Usage {
            1i32
        } else {
            0
        }),
{
    match call {
        EventCall::Usage(_) => 1,
        _ => 0,
    }
}

/// The event that a command has started.
pub fn start_request(id: &str, session_id: &str, hostname: &str, cwd: &str, cmd: &str, now_ms: i64) -> (r:
    Request)
    ensures
        r matches Request::CmdStart(e) && e.id@ == id@ && e.session_id@ == session_id@ && e.hostname@
            == hostname@ && e.cwd@ == cwd@ && e.cmd@ == cmd@ && e.started_at_ms == now_ms,
{
    Request::CmdStart(
        CmdStartEvent {
            id: owned(id),
            session_id: owned(session_id),
            hostname: owned(hostname),
            cwd: owned(cwd),
            cmd: owned(cmd),
            started_at_ms: now_ms,
        },
    )
}

/// The event that a command has ended, whose output was not captured.
pub fn end_request(id: &str, exit_status: i32, duration_ms: u64, now_ms: i64) -> (r: Request)
    ensures
        r matches Request::CmdEnd(e) && e.id@ == id@ && e.finished_at_ms == now_ms && e.duration_ms
            == duration_ms && e.exit_status == exit_status && e.output_bytes is None && e.output_truncated is None,
{
    Request::CmdEnd(
        CmdEndEvent {
            id: owned(id),
            finished_at_ms: now_ms,
            duration_ms,
            exit_status,
            output_bytes: None,
            output_truncated: None,
        },
    )
}

/// The milliseconds since the Unix epoch; 0 before it.
pub fn unix_ms(since_epoch: Option<u64>) -> (r: i64)
    ensures
        r == (match since_epoch {
            Some(ms) => if ms <= i64::MAX {
                ms as int
            } else {
                i64::MAX as int
            },
            None => 0,
        }),
{
    match since_epoch {
        Some(ms) => {
            if ms <= 9_223_372_036_854_775_807 {
                ms as i64
            } else {
                9_223_372_036_854_775_807
            }
        },
        None => 0,
    }
}

/// Where the first zero stands among some bytes, or how many there are.
pub open spec fn zero_at(b: Seq<u8>) -> nat
    decreases b.len(),
{
    if b.len() == 0 || b[0] == 0 {
        0
    } else {
        1 + zero_at(b.skip(1))
    }
}

/// The name of this machine, from what the system filled a buffer with: up to the
/// first zero, where that is UTF-8 and not empty.
pub open spec fn hostname_of(filled: Option<Seq<u8>>) -> Seq<char> {
    match filled {
        Some(b) => {
            let name = b.take(zero_at(b) as int);
            if vstd::utf8::valid_utf8(name) && vstd::utf8::decode_utf8(name).len() > 0 {
                vstd::utf8::decode_utf8(name)
            } else {
                "unknown"@
            }
        },
        None => "unknown"@,
    }
}

/// The name of this machine, from what the system filled a buffer with; `None` where
/// it could not.
pub fn hostname(filled: Option<&Vec<u8>>) -> (r: String)
    ensures
        r@ == hostname_of(
            match filled {
                Some(b) => Some(b@),
                None => None,
            },
        ),
{
    let b: &Vec<u8> = match filled {
        Some(b) => b,
        None => {
            return owned("unknown");
        },
    };
    let mut name: Vec<u8> = Vec::new();
    let mut i: usize = 0;
    proof {
        assert(b@.skip(0) =~= b@);
    }
    while i < b.len() && b[i] != 0
        invariant
            i <= b@.len(),
            name@ == b@.take(i as int),
            zero_at(b@) == i + zero_at(b@.skip(i as int)),
        decreases b@.len() - i,
    {
        proof {
            assert(b@.skip(i as int).skip(1) =~= b@.skip(i as int + 1));
        }
        name.push(b[i]);
        proof {
            assert(name@ =~= b@.take(i as int + 1));
        }
        i += 1;
    }
    match string_from_utf8(name) {
        Some(s) => {
            if s.as_str().is_empty() {
                owned("unknown")
            } else {
                s
            }
        },
        None => owned("unknown"),
    }
}

/// Whatever the system fills in, the machine has a name.
pub proof fn law_machine_has_a_name(filled: Option<Seq<u8>>)
    ensures
        hostname_of(filled).len() > 0,
{
    reveal_strlit("unknown");
}

/// No event tells of a command without text.
pub proof fn law_empty_command_is_no_event(args: Seq<Seq<char>>)
    ensures
        event_call_of(args) matches EventCallView::Start { session_id, cwd, cmd } ==> cmd.len() > 0,
{
}

/// The end of a command is told as it is reported: for every id, exit status and
/// length of time, the arguments that carry them are read as the end of that
/// command with that status and that time.
pub proof fn law_end_is_told_as_reported(id: Seq<char>, status: i32, ms: u64)
    ensures
        event_call_of(
            seq!["cmd-end"@, id, decimal::dec_int(status as int), decimal::dec_digits(ms as nat)],
        ) == (EventCallView::End { id, exit_status: status as int, duration_ms: ms as nat }),
{
    reveal_strlit("new-session");
    reveal_strlit("cmd-start");
    reveal_strlit("cmd-end");
    assert("cmd-end"@[0] != "new-session"@[0]);
    assert("cmd-end"@[4] != "cmd-start"@[4]);
    decimal::law_parse_signed_reads_back(status as int, i32::MIN as int, i32::MAX as int);
    decimal::law_parse_unsigned_reads_back(ms as nat, u64::MAX as nat);
}

/// Two ends that differ in id, status or time are told apart.
pub proof fn law_ends_are_told_apart(
    a: Seq<char>,
    b: Seq<char>,
    status_a: i32,
    status_b: i32,
    ms_a: u64,
    ms_b: u64,
)
    requires
        event_call_of(
            seq!["cmd-end"@, a, decimal::dec_int(status_a as int), decimal::dec_digits(ms_a as nat)],
        ) == event_call_of(
            seq!["cmd-end"@, b, decimal::dec_int(status_b as int), decimal::dec_digits(ms_b as nat)],
        ),
    ensures
        a == b,
        status_a == status_b,
        ms_a == ms_b,
{
    law_end_is_told_as_reported(a, status_a, ms_a);
    law_end_is_told_as_reported(b, status_b, ms_b);
}

/// An end whose status or time is missing or is no number is told with 0 in its
/// place, and the other of the two is not touched by that.
pub proof fn law_unread_numbers_are_zero(id: Seq<char>, word: Seq<char>, status: i32, ms: u64)
    requires
        decimal::parse_signed_of(word, i32::MIN as int, i32::MAX as int) is None,
        decimal::parse_unsigned_of(word, u64::MAX as nat) is None,
    ensures
        event_call_of(seq!["cmd-end"@, id]) == (EventCallView::End {
            id,
            exit_status: 0,
            duration_ms: 0,
        }),
        event_call_of(seq!["cmd-end"@, id, decimal::dec_int(status as int)]) == (EventCallView::End {
            id,
            exit_status: status as int,
            duration_ms: 0,
        }),
        event_call_of(seq!["cmd-end"@, id, word, decimal::dec_digits(ms as nat)]) == (
        EventCallView::End { id, exit_status: 0, duration_ms: ms as nat }),
        event_call_of(seq!["cmd-end"@, id, decimal::dec_int(status as int), word]) == (
        EventCallView::End { id, exit_status: status as int, duration_ms: 0 }),
{
    reveal_strlit("new-session");
    reveal_strlit("cmd-start");
    reveal_strlit("cmd-end");
    assert("cmd-end"@[0] != "new-session"@[0]);
    assert("cmd-end"@[4] != "cmd-start"@[4]);
    decimal::law_parse_signed_reads_back(status as int, i32::MIN as int, i32::MAX as int);
    decimal::law_parse_unsigned_reads_back(ms as nat, u64::MAX as nat);
}

/// The start of a command is told as it is reported: the first argument is its
/// session, the second its directory, and all the others, in their order and with
/// one space between any two, are its text.
pub proof fn law_start_is_told_as_reported(
    session_id: Seq<char>,
    cwd: Seq<char>,
    words: Seq<Seq<char>>,
    word: Seq<char>,
)
    requires
        word.len() > 0,
    ensures
        event_call_of(seq!["cmd-start"@, session_id, cwd, word]) == (EventCallView::Start {
            session_id,
            cwd,
            cmd: word,
        }),
        words.len() > 0 ==> event_call_of((seq!["cmd-start"@, session_id, cwd] + words).push(word)) == (
        EventCallView::Start { session_id, cwd, cmd: text::join_of(words, " "@).push(' ') + word }),
        event_call_of(seq!["cmd-start"@, session_id, cwd]) == EventCallView::EmptyStart,
{
    reveal_strlit("new-session");
    reveal_strlit("cmd-start");
    reveal_strlit(" ");
    assert("cmd-start"@[0] != "new-session"@[0]);
    let one = seq!["cmd-start"@, session_id, cwd, word];
    assert(one.skip(3) =~= seq![word]);
    assert(seq![word].drop_last() =~= Seq::empty());
    assert(text::join_of(one.skip(3), " "@) =~= word);
    let many = (seq!["cmd-start"@, session_id, cwd] + words).push(word);
    assert(many[0] == "cmd-start"@);
    assert(many[1] == session_id);
    assert(many[2] == cwd);
    assert(many.skip(3) =~= words.push(word));
    assert(words.push(word).drop_last() =~= words);
    if words.len() > 0 {
        assert(text::join_of(words.push(word), " "@) =~= text::join_of(words, " "@).push(' ') + word);
    }
    let none = seq!["cmd-start"@, session_id, cwd];
    assert(none.skip(3) =~= Seq::<Seq<char>>::empty());
    assert(text::join_of(none.skip(3), " "@).len() == 0);
}

/// What each word of the command line asks for: the three calls are told apart by
/// their first argument alone, and any other is answered with how to call.
pub proof fn law_first_word_decides(args: Seq<Seq<char>>)
    ensures
        event_call_of(args) is NewSession <==> args.len() > 0 && args[0] == "new-session"@,
        (event_call_of(args) is Start || event_call_of(args) is EmptyStart) <==> args.len() >= 3 && args[0]
            == "cmd-start"@,
        event_call_of(args) is End <==> args.len() >= 2 && args[0] == "cmd-end"@,
{
    reveal_strlit("new-session");
    reveal_strlit("cmd-start");
    reveal_strlit("cmd-end");
    assert("cmd-start"@[0] != "new-session"@[0]);
    assert("cmd-end"@[0] != "new-session"@[0]);
    assert("cmd-end"@[4] != "cmd-start"@[4]);
}

/// The event of a start carries what it was made of, each in its own place, and the
/// moment of the call.
pub proof fn law_start_event_carries_its_parts(
    id: &str,
    session_id: &str,
    hostname: &str,
    cwd: &str,
    cmd: &str,
    now_ms: i64,
    r: Request,
)
    requires
        call_ensures(start_request, (id, session_id, hostname, cwd, cmd, now_ms), r),
    ensures
        r@ == proto::RequestView::CmdStart(
            proto::CmdStartView {
                id: id@,
                session_id: session_id@,
                hostname: hostname@,
                cwd: cwd@,
                cmd: cmd@,
                started_at_ms: now_ms,
            },
        ),
{
}

/// The event of an end carries what it was made of, each in its own place, and nothing
/// about output.
pub proof fn law_end_event_carries_its_parts(id: &str, exit_status: i32, duration_ms: u64, now_ms: i64, r: Request)
    requires
        call_ensures(end_request, (id, exit_status, duration_ms, now_ms), r),
    ensures
        r@ == proto::RequestView::CmdEnd(
            proto::CmdEndView {
                id: id@,
                finished_at_ms: now_ms,
                duration_ms,
                exit_status,
                output_bytes: None,
                output_truncated: None,
            },
        ),
{
}

/// A call fails just where it cannot be read.
pub proof fn law_only_what_cannot_be_read_fails(call: &EventCall, r: i32)
    requires
        call_ensures(event_exit, (call,), r),
    ensures
        r == 0 <==> !(call is Usage),
{
}

/// The clock is read as it is, as far as it can be counted, and is never negative.
pub proof fn law_clock_is_read_as_it_is(ms: u64, known: i64, unknown: i64)
    requires
        call_ensures(unix_ms, (Some(ms),), known),
        call_ensures(unix_ms, (None::<u64>,), unknown),
    ensures
        ms <= i64::MAX ==> known == ms,
        known >= 0,
        unknown == 0,
{
}

proof fn lemma_zero_at(name: Seq<u8>, rest: Seq<u8>)
    requires
        forall|i: int| 0 <= i < name.len() ==> #[trigger] name[i] != 0,
        rest.len() == 0 || rest[0] == 0,
    ensures
        zero_at(name + rest) == name.len(),
    decreases name.len(),
{
    let all = name + rest;
    if name.len() == 0 {
        assert(all =~= rest);
    } else {
        let more = name.skip(1);
        assert(all[0] == name[0]);
        assert forall|i: int| 0 <= i < more.len() implies #[trigger] more[i] != 0 by {
            assert(more[i] == name[i + 1]);
        }
        lemma_zero_at(more, rest);
        assert(all.skip(1) =~= more + rest);
    }
}

/// The name of the machine is what stands before the first zero, whatever follows it,
/// and all of the bytes where there is none; what is no text is no name.
pub proof fn law_name_ends_at_the_first_zero(name: Seq<u8>, rest: Seq<u8>)
    requires
        forall|i: int| 0 <= i < name.len() ==> #[trigger] name[i] != 0,
        rest.len() == 0 || rest[0] == 0,
    ensures
        vstd::utf8::valid_utf8(name) && vstd::utf8::decode_utf8(name).len() > 0 ==> hostname_of(Some(name + rest))
            == vstd::utf8::decode_utf8(name),
        !vstd::utf8::valid_utf8(name) ==> hostname_of(Some(name + rest)) == "unknown"@,
        hostname_of(Some(name + rest)) == hostname_of(Some(name)),
        hostname_of(None) == "unknown"@,
{
    lemma_zero_at(name, rest);
    lemma_zero_at(name, Seq::empty());
    assert(name + Seq::<u8>::empty() =~= name);
    assert((name + rest).take(name.len() as int) =~= name);
    assert(name.take(name.len() as int) =~= name);
}

} // verus!
