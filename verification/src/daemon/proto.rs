//! Wire protocol of the daemon: lines of text over a Unix socket.
//!
//! Each message is one line ended by `\n`; the parser accepts a trailing `\r`.
//!
//! ```text
//! Requests (client → server):
//!   HELLO <version>
//!   STATUS <path>
//!   CMD_START id=<ulid> session=<ulid> host=<host> cwd=<path> started_at=<ms> cmd=<cmd>
//!   CMD_END id=<ulid> finished_at=<ms> duration_ms=<u64> exit=<i32>
//!   SUBSCRIBE [cwd=<path>]
//!   QUIT
//!
//! Responses (server → client):
//!   HELLO <version>
//!   OK key=value key=value ...
//!   ACK
//!   NONE
//!   EVENT type=<topic> [cwd=<path>] [id=<ulid>]
//!   PING <unix-ms>
//!   ERR <reason>
//! ```
//!
//! Numbers and flags are written plain. String fields are percent-encoded, see
//! [`percent`](crate::daemon::percent). Encoders emit a fixed field order; the
//! parser takes any order, ignores unknown keys, and lets the last of several
//! values of one key win.

use vstd::prelude::*;
use crate::text;
use crate::decimal;
use crate::daemon::percent;
use crate::daemon::percent::{percent_decode, percent_encode};
use crate::decimal::{parse_signed, parse_unsigned, push_i64, push_u64};
use crate::segments::{OpState, RepoStatus, RepoStatusView};
use crate::text::{chars_of, split_once_char, split_tokens, str_eq, string_of_range, trim_str};

verus! {

/// The protocol version this build speaks.
pub const PROTO_VERSION: u32 = 1;

// ── Messages ────────────────────────────────────────────────────────────────

/// A command has started. Ids are minted by the client, so that the shell hook
/// need not wait for the daemon.
#[derive(Debug, Clone, PartialEq, Eq)]
pub struct CmdStartEvent {
    pub id: String,
    pub session_id: String,
    pub hostname: String,
    pub cwd: String,
    pub cmd: String,
    /// Milliseconds since the Unix epoch.
    pub started_at_ms: i64,
}

/// A command has ended. `id` is that of its [`CmdStartEvent`].
///
/// The two capture fields are set for a command that ran under capture: the
/// bytes written to its capture file, and whether that file hit the size cap.
#[derive(Debug, Clone, PartialEq, Eq)]
pub struct CmdEndEvent {
    pub id: String,
    pub finished_at_ms: i64,
    pub duration_ms: u64,
    pub exit_status: i32,
    pub output_bytes: Option<i64>,
    pub output_truncated: Option<bool>,
}

/// A subscription to the daemon's events, narrowed to one working directory
/// where `cwd` is given.
#[derive(Debug, Clone, PartialEq, Eq)]
pub struct SubscribeSpec {
    pub cwd: Option<String>,
}

/// An event that the daemon pushes: `git` with a working directory, or `cmd`
/// with the id of a command. Further topics need no new protocol version.
#[derive(Debug, Clone, PartialEq, Eq)]
pub struct EventPayload {
    pub topic: String,
    pub cwd: Option<String>,
    pub id: Option<String>,
}

#[derive(Debug, Clone, PartialEq, Eq)]
pub enum Request {
    Hello(u32),
    Status(String),
    CmdStart(CmdStartEvent),
    CmdEnd(CmdEndEvent),
    Subscribe(SubscribeSpec),
    Quit,
}

#[derive(Debug, Clone, PartialEq, Eq)]
pub enum Response {
    Hello(u32),
    /// `None` where no repository was found at the path asked for.
    Status(Option<RepoStatus>),
    /// The answer to a message that asks for nothing back.
    Ack,
    /// An event, sent to a subscriber.
    Event(EventPayload),
    /// A heartbeat for a subscriber: milliseconds since the Unix epoch.
    Ping(i64),
    /// The request failed, and why.
    Error(String),
}

#[derive(Debug, Clone, PartialEq, Eq)]
pub enum ProtoError {
    /// An empty line: the peer likely closed mid-stream.
    Empty,
    /// An opcode that this build does not know.
    UnknownOpcode(String),
    /// A known opcode with a malformed payload, and what is wrong with it.
    Malformed(&'static str),
}

impl Default for SubscribeSpec {
    fn default() -> (r: Self)
        ensures
            r.cwd is None,
    {
        SubscribeSpec { cwd: None }
    }
}

impl ProtoError {
    /// The error in words.
    pub fn to_text(&self) -> (r: String)
        ensures
            r@ == match self {
                ProtoError::Empty => "empty line"@,
                ProtoError::UnknownOpcode(op) => "unknown opcode: "@ + op@,
                ProtoError::Malformed(reason) => "malformed message: "@ + reason@,
            },
    {
        match self {
            ProtoError::Empty => "empty line".to_owned(),
            ProtoError::UnknownOpcode(op) => {
                let mut out: String = "unknown opcode: ".to_owned();
                out.push_str(op.as_str());
                out
            },
            ProtoError::Malformed(reason) => {
                let mut out: String = "malformed message: ".to_owned();
                out.push_str(reason);
                out
            },
        }
    }
}

// ── Their values ────────────────────────────────────────────────────────────

pub struct CmdStartView {
    pub id: Seq<char>,
    pub session_id: Seq<char>,
    pub hostname: Seq<char>,
    pub cwd: Seq<char>,
    pub cmd: Seq<char>,
    pub started_at_ms: i64,
}

pub struct CmdEndView {
    pub id: Seq<char>,
    pub finished_at_ms: i64,
    pub duration_ms: u64,
    pub exit_status: i32,
    pub output_bytes: Option<i64>,
    pub output_truncated: Option<bool>,
}

pub struct EventView {
    pub topic: Seq<char>,
    pub cwd: Option<Seq<char>>,
    pub id: Option<Seq<char>>,
}

pub enum RequestView {
    Hello(u32),
    Status(Seq<char>),
    CmdStart(CmdStartView),
    CmdEnd(CmdEndView),
    Subscribe(Option<Seq<char>>),
    Quit,
}

pub enum ResponseView {
    Hello(u32),
    Status(Option<RepoStatusView>),
    Ack,
    Event(EventView),
    Ping(i64),
    Error(Seq<char>),
}

pub enum ProtoErrorView {
    Empty,
    UnknownOpcode(Seq<char>),
    Malformed(Seq<char>),
}

impl View for CmdStartEvent {
    type V = CmdStartView;

    open spec fn view(&self) -> CmdStartView {
        CmdStartView {
            id: self.id@,
            session_id: self.session_id@,
            hostname: self.hostname@,
            cwd: self.cwd@,
            cmd: self.cmd@,
            started_at_ms: self.started_at_ms,
        }
    }
}

impl View for CmdEndEvent {
    type V = CmdEndView;

    open spec fn view(&self) -> CmdEndView {
        CmdEndView {
            id: self.id@,
            finished_at_ms: self.finished_at_ms,
            duration_ms: self.duration_ms,
            exit_status: self.exit_status,
            output_bytes: self.output_bytes,
            output_truncated: self.output_truncated,
        }
    }
}

impl View for SubscribeSpec {
    type V = Option<Seq<char>>;

    open spec fn view(&self) -> Option<Seq<char>> {
        text::opt_view(self.cwd)
    }
}

impl View for EventPayload {
    type V = EventView;

    open spec fn view(&self) -> EventView {
        EventView { topic: self.topic@, cwd: text::opt_view(self.cwd), id: text::opt_view(self.id) }
    }
}

impl View for Request {
    type V = RequestView;

    open spec fn view(&self) -> RequestView {
        match self {
            Request::Hello(v) => RequestView::Hello(*v),
            Request::Status(p) => RequestView::Status(p@),
            Request::CmdStart(e) => RequestView::CmdStart(e@),
            Request::CmdEnd(e) => RequestView::CmdEnd(e@),
            Request::Subscribe(s) => RequestView::Subscribe(s@),
            Request::Quit => RequestView::Quit,
        }
    }
}

impl View for Response {
    type V = ResponseView;

    open spec fn view(&self) -> ResponseView {
        match self {
            Response::Hello(v) => ResponseView::Hello(*v),
            Response::Status(None) => ResponseView::Status(None),
            Response::Status(Some(s)) => ResponseView::Status(Some(s@)),
            Response::Ack => ResponseView::Ack,
            Response::Event(e) => ResponseView::Event(e@),
            Response::Ping(ts) => ResponseView::Ping(*ts),
            Response::Error(reason) => ResponseView::Error(reason@),
        }
    }
}

impl View for ProtoError {
    type V = ProtoErrorView;

    open spec fn view(&self) -> ProtoErrorView {
        match self {
            ProtoError::Empty => ProtoErrorView::Empty,
            ProtoError::UnknownOpcode(op) => ProtoErrorView::UnknownOpcode(op@),
            ProtoError::Malformed(reason) => ProtoErrorView::Malformed(reason@),
        }
    }
}

// ── Lines of keys and values ────────────────────────────────────────────────

/// One ` key=value` of a line.
pub open spec fn kv(key: Seq<char>, val: Seq<char>) -> Seq<char> {
    seq![' '] + key + seq!['='] + val
}

/// The ` key=value` pairs of a line, one after the other.
pub open spec fn kv_line(ps: Seq<(Seq<char>, Seq<char>)>) -> Seq<char>
    decreases ps.len(),
{
    if ps.len() == 0 {
        Seq::empty()
    } else {
        kv_line(ps.drop_last()) + kv(ps.last().0, ps.last().1)
    }
}

pub open spec fn flag_text(b: bool) -> Seq<char> {
    if b {
        "true"@
    } else {
        "false"@
    }
}

/// The token for an operation state.
pub open spec fn op_state_text(s: OpState) -> Seq<char> {
    match s {
        OpState::Rebasing => "rebasing"@,
        OpState::Merging => "merging"@,
        OpState::CherryPick => "cherry"@,
        OpState::Bisect => "bisect"@,
    }
}

/// The pairs of a `CMD_START` line.
pub open spec fn cmd_start_pairs(e: CmdStartView) -> Seq<(Seq<char>, Seq<char>)> {
    seq![
        ("id"@, percent::percent_encoded(e.id)),
        ("session"@, percent::percent_encoded(e.session_id)),
        ("host"@, percent::percent_encoded(e.hostname)),
        ("cwd"@, percent::percent_encoded(e.cwd)),
        ("started_at"@, decimal::dec_int(e.started_at_ms as int)),
        ("cmd"@, percent::percent_encoded(e.cmd)),
    ]
}

/// The pairs of a `CMD_END` line; the capture keys only where they are set.
pub open spec fn cmd_end_pairs(e: CmdEndView) -> Seq<(Seq<char>, Seq<char>)> {
    let base = seq![
        ("id"@, percent::percent_encoded(e.id)),
        ("finished_at"@, decimal::dec_int(e.finished_at_ms as int)),
        ("duration_ms"@, decimal::dec_digits(e.duration_ms as nat)),
        ("exit"@, decimal::dec_int(e.exit_status as int)),
    ];
    let sized = match e.output_bytes {
        Some(n) => base.push(("output_bytes"@, decimal::dec_int(n as int))),
        None => base,
    };
    match e.output_truncated {
        Some(t) => sized.push(("output_truncated"@, flag_text(t))),
        None => sized,
    }
}

/// The pairs of a `SUBSCRIBE` line.
pub open spec fn subscribe_pairs(cwd: Option<Seq<char>>) -> Seq<(Seq<char>, Seq<char>)> {
    match cwd {
        Some(p) => seq![("cwd"@, percent::percent_encoded(p))],
        None => Seq::empty(),
    }
}

/// The pairs of an `EVENT` line.
pub open spec fn event_pairs(e: EventView) -> Seq<(Seq<char>, Seq<char>)> {
    let base = seq![("type"@, percent::percent_encoded(e.topic))];
    let placed = match e.cwd {
        Some(p) => base.push(("cwd"@, percent::percent_encoded(p))),
        None => base,
    };
    match e.id {
        Some(i) => placed.push(("id"@, percent::percent_encoded(i))),
        None => placed,
    }
}

/// The pairs of an `OK` line; `state` only where an operation is under way.
pub open spec fn status_pairs(s: RepoStatusView) -> Seq<(Seq<char>, Seq<char>)> {
    let base = seq![
        ("repo_name"@, percent::percent_encoded(s.repo_name)),
        ("branch"@, percent::percent_encoded(s.branch)),
        ("detached"@, flag_text(s.detached)),
    ];
    let stated = match s.state {
        Some(o) => base.push(("state"@, op_state_text(o))),
        None => base,
    };
    stated + seq![
        ("staged"@, decimal::dec_digits(s.staged as nat)),
        ("modified"@, decimal::dec_digits(s.modified as nat)),
        ("untracked"@, decimal::dec_digits(s.untracked as nat)),
        ("conflicted"@, decimal::dec_digits(s.conflicted as nat)),
        ("ahead"@, decimal::dec_digits(s.ahead as nat)),
        ("behind"@, decimal::dec_digits(s.behind as nat)),
        ("stashed"@, decimal::dec_digits(s.stashed as nat)),
    ]
}

/// The line for a request, without its `\n`.
pub open spec fn request_line(r: RequestView) -> Seq<char> {
    match r {
        RequestView::Hello(v) => "HELLO "@ + decimal::dec_digits(v as nat),
        RequestView::Status(p) => "STATUS "@ + percent::percent_encoded(p),
        RequestView::CmdStart(e) => "CMD_START"@ + kv_line(cmd_start_pairs(e)),
        RequestView::CmdEnd(e) => "CMD_END"@ + kv_line(cmd_end_pairs(e)),
        RequestView::Subscribe(c) => "SUBSCRIBE"@ + kv_line(subscribe_pairs(c)),
        RequestView::Quit => "QUIT"@,
    }
}

/// The line for a response, without its `\n`.
pub open spec fn response_line(r: ResponseView) -> Seq<char> {
    match r {
        ResponseView::Hello(v) => "HELLO "@ + decimal::dec_digits(v as nat),
        ResponseView::Status(None) => "NONE"@,
        ResponseView::Status(Some(s)) => "OK"@ + kv_line(status_pairs(s)),
        ResponseView::Ack => "ACK"@,
        ResponseView::Event(e) => "EVENT"@ + kv_line(event_pairs(e)),
        ResponseView::Ping(ts) => "PING "@ + decimal::dec_int(ts as int),
        ResponseView::Error(reason) => "ERR "@ + percent::percent_encoded(reason),
    }
}

// ── Encoding ────────────────────────────────────────────────────────────────

/// Appending one pair to `head` and a run of pairs.
proof fn lemma_kv_push(head: Seq<char>, ps: Seq<(Seq<char>, Seq<char>)>, p: (Seq<char>, Seq<char>))
    ensures
        head + kv_line(ps) + kv(p.0, p.1) == head + kv_line(ps.push(p)),
{
    assert(ps.push(p).drop_last() =~= ps);
    assert(head + kv_line(ps) + kv(p.0, p.1) =~= head + (kv_line(ps) + kv(p.0, p.1)));
}

pub fn write_kv_raw(out: &mut String, key: &str, val: &str)
    ensures
        final(out)@ == old(out)@ + kv(key@, val@),
{
    out.push(' ');
    out.push_str(key);
    out.push('=');
    out.push_str(val);
    proof {
        assert(out@ =~= old(out)@ + kv(key@, val@));
    }
}

pub fn write_kv_str(out: &mut String, key: &str, val: &str)
    ensures
        final(out)@ == old(out)@ + kv(key@, percent::percent_encoded(val@)),
{
    let enc: String = percent_encode(val);
    write_kv_raw(out, key, enc.as_str());
}

pub fn write_kv_bool(out: &mut String, key: &str, val: bool)
    ensures
        final(out)@ == old(out)@ + kv(key@, flag_text(val)),
{
    write_kv_raw(
        out,
        key,
        if val {
            "true"
        } else {
            "false"
        },
    );
}

pub fn write_kv_u32(out: &mut String, key: &str, val: u32)
    ensures
        final(out)@ == old(out)@ + kv(key@, decimal::dec_digits(val as nat)),
{
    write_kv_u64(out, key, val as u64);
}

pub fn write_kv_u64(out: &mut String, key: &str, val: u64)
    ensures
        final(out)@ == old(out)@ + kv(key@, decimal::dec_digits(val as nat)),
{
    out.push(' ');
    out.push_str(key);
    out.push('=');
    push_u64(out, val);
    proof {
        assert(out@ =~= old(out)@ + kv(key@, decimal::dec_digits(val as nat)));
    }
}

pub fn write_kv_num(out: &mut String, key: &str, val: i64)
    ensures
        final(out)@ == old(out)@ + kv(key@, decimal::dec_int(val as int)),
{
    out.push(' ');
    out.push_str(key);
    out.push('=');
    push_i64(out, val);
    proof {
        assert(out@ =~= old(out)@ + kv(key@, decimal::dec_int(val as int)));
    }
}

/// The token for an operation state.
pub fn op_state_token(s: OpState) -> (r: &'static str)
    ensures
        r@ == op_state_text(s),
{
    match s {
        OpState::Rebasing => "rebasing",
        OpState::Merging => "merging",
        OpState::CherryPick => "cherry",
        OpState::Bisect => "bisect",
    }
}

/// The line for `req`, without its `\n`.
#[must_use]
pub fn encode_request(req: &Request) -> (r: String)
    ensures
        r@ == request_line(req@),
{
    match req {
        Request::Hello(v) => {
            let mut out: String = "HELLO ".to_owned();
            push_u64(&mut out, *v as u64);
            out
        },
        Request::Status(p) => {
            let mut out: String = "STATUS ".to_owned();
            out.push_str(percent_encode(p.as_str()).as_str());
            out
        },
        Request::CmdStart(e) => encode_cmd_start(e),
        Request::CmdEnd(e) => encode_cmd_end(e),
        Request::Subscribe(s) => encode_subscribe(s),
        Request::Quit => "QUIT".to_owned(),
    }
}

/// The line for `resp`, without its `\n`.
#[must_use]
pub fn encode_response(resp: &Response) -> (r: String)
    ensures
        r@ == response_line(resp@),
{
    match resp {
        Response::Hello(v) => {
            let mut out: String = "HELLO ".to_owned();
            push_u64(&mut out, *v as u64);
            out
        },
        Response::Status(None) => "NONE".to_owned(),
        Response::Status(Some(s)) => encode_status_ok(s),
        Response::Ack => "ACK".to_owned(),
        Response::Event(e) => encode_event(e),
        Response::Ping(ts) => {
            let mut out: String = "PING ".to_owned();
            push_i64(&mut out, *ts);
            out
        },
        Response::Error(reason) => {
            let mut out: String = "ERR ".to_owned();
            out.push_str(percent_encode(reason.as_str()).as_str());
            out
        },
    }
}

pub fn encode_subscribe(s: &SubscribeSpec) -> (r: String)
    ensures
        r@ == "SUBSCRIBE"@ + kv_line(subscribe_pairs(s@)),
{
    let mut out: String = "SUBSCRIBE".to_owned();
    let ghost ps = Seq::<(Seq<char>, Seq<char>)>::empty();
    proof {
        assert(out@ + kv_line(ps) =~= out@);
    }
    match &s.cwd {
        Some(cwd) => {
            write_kv_str(&mut out, "cwd", cwd.as_str());
            proof {
                lemma_kv_push("SUBSCRIBE"@, ps, ("cwd"@, percent::percent_encoded(cwd@)));
                assert(ps.push(("cwd"@, percent::percent_encoded(cwd@))) =~= subscribe_pairs(s@));
            }
        },
        None => {},
    }
    out
}

pub fn encode_event(e: &EventPayload) -> (r: String)
    ensures
        r@ == "EVENT"@ + kv_line(event_pairs(e@)),
{
    let mut out: String = "EVENT".to_owned();
    let ghost mut ps = Seq::<(Seq<char>, Seq<char>)>::empty();
    proof {
        assert(out@ + kv_line(ps) =~= out@);
        lemma_kv_push("EVENT"@, ps, ("type"@, percent::percent_encoded(e.topic@)));
        ps = ps.push(("type"@, percent::percent_encoded(e.topic@)));
        assert(ps =~= seq![("type"@, percent::percent_encoded(e.topic@))]);
    }
    write_kv_str(&mut out, "type", e.topic.as_str());
    if let Some(cwd) = &e.cwd {
        write_kv_str(&mut out, "cwd", cwd.as_str());
        proof {
            lemma_kv_push("EVENT"@, ps, ("cwd"@, percent::percent_encoded(cwd@)));
            ps = ps.push(("cwd"@, percent::percent_encoded(cwd@)));
        }
    }
    if let Some(id) = &e.id {
        write_kv_str(&mut out, "id", id.as_str());
        proof {
            lemma_kv_push("EVENT"@, ps, ("id"@, percent::percent_encoded(id@)));
            ps = ps.push(("id"@, percent::percent_encoded(id@)));
        }
    }
    out
}

pub fn encode_cmd_start(e: &CmdStartEvent) -> (r: String)
    ensures
        r@ == "CMD_START"@ + kv_line(cmd_start_pairs(e@)),
{
    let mut out: String = "CMD_START".to_owned();
    let ghost all = cmd_start_pairs(e@);
    proof {
        assert(out@ + kv_line(all.take(0)) =~= out@);
    }
    write_kv_str(&mut out, "id", e.id.as_str());
    proof {
        lemma_kv_next("CMD_START"@, all, 0);
    }
    write_kv_str(&mut out, "session", e.session_id.as_str());
    proof {
        lemma_kv_next("CMD_START"@, all, 1);
    }
    write_kv_str(&mut out, "host", e.hostname.as_str());
    proof {
        lemma_kv_next("CMD_START"@, all, 2);
    }
    write_kv_str(&mut out, "cwd", e.cwd.as_str());
    proof {
        lemma_kv_next("CMD_START"@, all, 3);
    }
    write_kv_num(&mut out, "started_at", e.started_at_ms);
    proof {
        lemma_kv_next("CMD_START"@, all, 4);
    }
    write_kv_str(&mut out, "cmd", e.cmd.as_str());
    proof {
        lemma_kv_next("CMD_START"@, all, 5);
        assert(all.take(6) =~= all);
    }
    out
}

/// Appending the next pair of `all`.
proof fn lemma_kv_next(head: Seq<char>, all: Seq<(Seq<char>, Seq<char>)>, i: int)
    requires
        0 <= i < all.len(),
    ensures
        head + kv_line(all.take(i)) + kv(all[i].0, all[i].1) == head + kv_line(all.take(i + 1)),
{
    lemma_kv_push(head, all.take(i), all[i]);
    assert(all.take(i).push(all[i]) =~= all.take(i + 1));
}

pub fn encode_cmd_end(e: &CmdEndEvent) -> (r: String)
    ensures
        r@ == "CMD_END"@ + kv_line(cmd_end_pairs(e@)),
{
    let mut out: String = "CMD_END".to_owned();
    let ghost all = cmd_end_pairs(e@);
    proof {
        assert(out@ + kv_line(all.take(0)) =~= out@);
    }
    write_kv_str(&mut out, "id", e.id.as_str());
    proof {
        lemma_kv_next("CMD_END"@, all, 0);
    }
    write_kv_num(&mut out, "finished_at", e.finished_at_ms);
    proof {
        lemma_kv_next("CMD_END"@, all, 1);
    }
    write_kv_u64(&mut out, "duration_ms", e.duration_ms);
    proof {
        lemma_kv_next("CMD_END"@, all, 2);
    }
    write_kv_num(&mut out, "exit", e.exit_status as i64);
    proof {
        lemma_kv_next("CMD_END"@, all, 3);
    }
    let ghost mut n: int = 4;
    if let Some(b) = e.output_bytes {
        write_kv_num(&mut out, "output_bytes", b);
        proof {
            lemma_kv_next("CMD_END"@, all, n);
            n = n + 1;
        }
    }
    if let Some(t) = e.output_truncated {
        write_kv_bool(&mut out, "output_truncated", t);
        proof {
            lemma_kv_next("CMD_END"@, all, n);
            n = n + 1;
        }
    }
    proof {
        assert(all.take(n) =~= all);
    }
    out
}

pub fn encode_status_ok(s: &RepoStatus) -> (r: String)
    ensures
        r@ == "OK"@ + kv_line(status_pairs(s@)),
{
    let mut out: String = "OK".to_owned();
    let ghost all = status_pairs(s@);
    proof {
        assert(out@ + kv_line(all.take(0)) =~= out@);
    }
    write_kv_str(&mut out, "repo_name", s.repo_name.as_str());
    proof {
        lemma_kv_next("OK"@, all, 0);
    }
    write_kv_str(&mut out, "branch", s.branch.as_str());
    proof {
        lemma_kv_next("OK"@, all, 1);
    }
    write_kv_bool(&mut out, "detached", s.detached);
    proof {
        lemma_kv_next("OK"@, all, 2);
    }
    let ghost mut n: int = 3;
    if let Some(state) = s.state {
        write_kv_raw(&mut out, "state", op_state_token(state));
        proof {
            lemma_kv_next("OK"@, all, n);
            n = n + 1;
        }
    }
    write_kv_u32(&mut out, "staged", s.staged);
    proof {
        lemma_kv_next("OK"@, all, n);
    }
    write_kv_u32(&mut out, "modified", s.modified);
    proof {
        lemma_kv_next("OK"@, all, n + 1);
    }
    write_kv_u32(&mut out, "untracked", s.untracked);
    proof {
        lemma_kv_next("OK"@, all, n + 2);
    }
    write_kv_u32(&mut out, "conflicted", s.conflicted);
    proof {
        lemma_kv_next("OK"@, all, n + 3);
    }
    write_kv_u32(&mut out, "ahead", s.ahead);
    proof {
        lemma_kv_next("OK"@, all, n + 4);
    }
    write_kv_u32(&mut out, "behind", s.behind);
    proof {
        lemma_kv_next("OK"@, all, n + 5);
    }
    write_kv_u32(&mut out, "stashed", s.stashed);
    proof {
        lemma_kv_next("OK"@, all, n + 6);
        assert(all.take(n + 7) =~= all);
    }
    out
}

// ── The fields of a line ────────────────────────────────────────────────────

/// The messages that carry keys and values.
#[derive(Debug, Clone, Copy, PartialEq, Eq, Structural)]
pub enum Message {
    CmdStart,
    CmdEnd,
    Subscribe,
    Event,
    Status,
}

/// How the value of a key is written.
#[derive(Debug, Clone, Copy, PartialEq, Eq, Structural)]
pub enum FieldKind {
    Text,
    Signed64,
    Signed32,
    Unsigned64,
    Unsigned32,
    Flag,
    State,
    /// An unknown key, whose value is not read.
    Ignored,
}

/// A value that has been read.
#[derive(Debug, Clone, PartialEq, Eq)]
pub enum Field {
    Text(String),
    Int(i64),
    Nat(u64),
    Flag(bool),
    State(OpState),
    Ignored,
}

pub enum FieldView {
    Text(Seq<char>),
    Int(int),
    Flag(bool),
    State(OpState),
    Ignored,
}

impl View for Field {
    type V = FieldView;

    open spec fn view(&self) -> FieldView {
        match self {
            Field::Text(t) => FieldView::Text(t@),
            Field::Int(n) => FieldView::Int(*n as int),
            Field::Nat(n) => FieldView::Int(*n as int),
            Field::Flag(b) => FieldView::Flag(*b),
            Field::State(s) => FieldView::State(*s),
            Field::Ignored => FieldView::Ignored,
        }
    }
}

impl FieldView {
    pub open spec fn text(self) -> Seq<char> {
        self->Text_0
    }

    pub open spec fn number(self) -> int {
        self->Int_0
    }
}

/// How the value of `key` is written in message `m`.
pub open spec fn kind_of(m: Message, key: Seq<char>) -> FieldKind {
    match m {
        Message::CmdStart => if key == "id"@ || key == "session"@ || key == "host"@ || key == "cwd"@
            || key == "cmd"@ {
            FieldKind::Text
        } else if key == "started_at"@ {
            FieldKind::Signed64
        } else {
            FieldKind::Ignored
        },
        Message::CmdEnd => if key == "id"@ {
            FieldKind::Text
        } else if key == "finished_at"@ || key == "output_bytes"@ {
            FieldKind::Signed64
        } else if key == "duration_ms"@ {
            FieldKind::Unsigned64
        } else if key == "exit"@ {
            FieldKind::Signed32
        } else if key == "output_truncated"@ {
            FieldKind::Flag
        } else {
            FieldKind::Ignored
        },
        Message::Subscribe => if key == "cwd"@ {
            FieldKind::Text
        } else {
            FieldKind::Ignored
        },
        Message::Event => if key == "type"@ || key == "cwd"@ || key == "id"@ {
            FieldKind::Text
        } else {
            FieldKind::Ignored
        },
        Message::Status => if key == "repo_name"@ || key == "branch"@ {
            FieldKind::Text
        } else if key == "detached"@ {
            FieldKind::Flag
        } else if key == "state"@ {
            FieldKind::State
        } else if key == "staged"@ || key == "modified"@ || key == "untracked"@ || key
            == "conflicted"@ || key == "ahead"@ || key == "behind"@ || key == "stashed"@ {
            FieldKind::Unsigned32
        } else {
            FieldKind::Ignored
        },
    }
}

pub open spec fn flag_of(v: Seq<char>) -> Option<bool> {
    if v == "true"@ {
        Some(true)
    } else if v == "false"@ {
        Some(false)
    } else {
        None
    }
}

pub open spec fn op_state_of(v: Seq<char>) -> Option<OpState> {
    if v == "rebasing"@ {
        Some(OpState::Rebasing)
    } else if v == "merging"@ {
        Some(OpState::Merging)
    } else if v == "cherry"@ {
        Some(OpState::CherryPick)
    } else if v == "bisect"@ {
        Some(OpState::Bisect)
    } else {
        None
    }
}

/// The value that `v` stands for, or why it stands for none.
pub open spec fn field_of(kind: FieldKind, v: Seq<char>) -> Result<FieldView, ProtoErrorView> {
    match kind {
        FieldKind::Text => match percent::percent_decoded(v) {
            Ok(t) => Ok(FieldView::Text(t)),
            Err(e) => Err(e),
        },
        FieldKind::Signed64 => match decimal::parse_signed_of(v, i64::MIN as int, i64::MAX as int) {
            Some(n) => Ok(FieldView::Int(n)),
            None => Err(ProtoErrorView::Malformed("expected i64"@)),
        },
        FieldKind::Signed32 => match decimal::parse_signed_of(v, i32::MIN as int, i32::MAX as int) {
            Some(n) => Ok(FieldView::Int(n)),
            None => Err(ProtoErrorView::Malformed("expected i32"@)),
        },
        FieldKind::Unsigned64 => match decimal::parse_unsigned_of(v, u64::MAX as nat) {
            Some(n) => Ok(FieldView::Int(n as int)),
            None => Err(ProtoErrorView::Malformed("expected u64"@)),
        },
        FieldKind::Unsigned32 => match decimal::parse_unsigned_of(v, u32::MAX as nat) {
            Some(n) => Ok(FieldView::Int(n as int)),
            None => Err(ProtoErrorView::Malformed("expected u32"@)),
        },
        FieldKind::Flag => match flag_of(v) {
            Some(b) => Ok(FieldView::Flag(b)),
            None => Err(ProtoErrorView::Malformed("bool must be true/false"@)),
        },
        FieldKind::State => match op_state_of(v) {
            Some(s) => Ok(FieldView::State(s)),
            None => Err(ProtoErrorView::Malformed("unknown state token"@)),
        },
        FieldKind::Ignored => Ok(FieldView::Ignored),
    }
}

/// What is said of a token of message `m` that has no `=`.
pub open spec fn no_equals_sign(m: Message) -> Seq<char> {
    match m {
        Message::CmdStart => "CMD_START kv missing '='"@,
        Message::CmdEnd => "CMD_END kv missing '='"@,
        Message::Subscribe => "SUBSCRIBE kv missing '='"@,
        Message::Event => "EVENT kv missing '='"@,
        Message::Status => "OK kv missing '='"@,
    }
}

/// The key and the value of one token, or what is wrong with it.
pub open spec fn pair_of(m: Message, tok: Seq<char>) -> Result<
    (Seq<char>, FieldView),
    ProtoErrorView,
> {
    match text::split_once_of(tok, '=') {
        None => Err(ProtoErrorView::Malformed(no_equals_sign(m))),
        Some((k, v)) => match field_of(kind_of(m, k), v) {
            Ok(f) => Ok((k, f)),
            Err(e) => Err(e),
        },
    }
}

/// The keys and values of a run of tokens, or what is wrong with the first bad
/// token.
pub open spec fn pairs_of(m: Message, toks: Seq<Seq<char>>) -> Result<
    Seq<(Seq<char>, FieldView)>,
    ProtoErrorView,
>
    decreases toks.len(),
{
    if toks.len() == 0 {
        Ok(Seq::empty())
    } else {
        match pairs_of(m, toks.drop_last()) {
            Err(e) => Err(e),
            Ok(ps) => match pair_of(m, toks.last()) {
                Err(e) => Err(e),
                Ok(p) => Ok(ps.push(p)),
            },
        }
    }
}

/// The last value of `key`.
pub open spec fn last_of(ps: Seq<(Seq<char>, FieldView)>, key: Seq<char>) -> Option<FieldView>
    decreases ps.len(),
{
    if ps.len() == 0 {
        None
    } else if ps.last().0 == key {
        Some(ps.last().1)
    } else {
        last_of(ps.drop_last(), key)
    }
}

/// The last value of `key`, where it is a string.
pub open spec fn last_text_of(ps: Seq<(Seq<char>, FieldView)>, key: Seq<char>) -> Option<Seq<char>> {
    match last_of(ps, key) {
        Some(f) => Some(f.text()),
        None => None,
    }
}

pub open spec fn fields_view(fs: Seq<(String, Field)>) -> Seq<(Seq<char>, FieldView)> {
    Seq::new(fs.len(), |i: int| (fs[i].0@, fs[i].1@))
}

/// Every value is of the kind that its key has in message `m`.
pub open spec fn well_kinded(m: Message, fs: Seq<(String, Field)>) -> bool {
    forall|i: int|
        0 <= i < fs.len() ==> #[trigger] has_kind(kind_of(m, fs[i].0@), fs[i].1)
}

pub open spec fn has_kind(kind: FieldKind, f: Field) -> bool {
    match kind {
        FieldKind::Text => f is Text,
        FieldKind::Signed64 => f is Int,
        FieldKind::Signed32 => f is Int && i32::MIN <= f->Int_0 <= i32::MAX,
        FieldKind::Unsigned64 => f is Nat,
        FieldKind::Unsigned32 => f is Nat && f->Nat_0 <= u32::MAX,
        FieldKind::Flag => f is Flag,
        FieldKind::State => f is State,
        FieldKind::Ignored => f is Ignored,
    }
}

fn field_kind(m: Message, key: &str) -> (r: FieldKind)
    ensures
        r == kind_of(m, key@),
{
    match m {
        Message::CmdStart => if str_eq(key, "id") || str_eq(key, "session") || str_eq(key, "host")
            || str_eq(key, "cwd") || str_eq(key, "cmd") {
            FieldKind::Text
        } else if str_eq(key, "started_at") {
            FieldKind::Signed64
        } else {
            FieldKind::Ignored
        },
        Message::CmdEnd => if str_eq(key, "id") {
            FieldKind::Text
        } else if str_eq(key, "finished_at") || str_eq(key, "output_bytes") {
            FieldKind::Signed64
        } else if str_eq(key, "duration_ms") {
            FieldKind::Unsigned64
        } else if str_eq(key, "exit") {
            FieldKind::Signed32
        } else if str_eq(key, "output_truncated") {
            FieldKind::Flag
        } else {
            FieldKind::Ignored
        },
        Message::Subscribe => if str_eq(key, "cwd") {
            FieldKind::Text
        } else {
            FieldKind::Ignored
        },
        Message::Event => if str_eq(key, "type") || str_eq(key, "cwd") || str_eq(key, "id") {
            FieldKind::Text
        } else {
            FieldKind::Ignored
        },
        Message::Status => if str_eq(key, "repo_name") || str_eq(key, "branch") {
            FieldKind::Text
        } else if str_eq(key, "detached") {
            FieldKind::Flag
        } else if str_eq(key, "state") {
            FieldKind::State
        } else if str_eq(key, "staged") || str_eq(key, "modified") || str_eq(key, "untracked")
            || str_eq(key, "conflicted") || str_eq(key, "ahead") || str_eq(key, "behind") || str_eq(
            key,
            "stashed",
        ) {
            FieldKind::Unsigned32
        } else {
            FieldKind::Ignored
        },
    }
}

fn missing_equals(m: Message) -> (r: ProtoError)
    ensures
        r@ == ProtoErrorView::Malformed(no_equals_sign(m)),
{
    match m {
        Message::CmdStart => ProtoError::Malformed("CMD_START kv missing '='"),
        Message::CmdEnd => ProtoError::Malformed("CMD_END kv missing '='"),
        Message::Subscribe => ProtoError::Malformed("SUBSCRIBE kv missing '='"),
        Message::Event => ProtoError::Malformed("EVENT kv missing '='"),
        Message::Status => ProtoError::Malformed("OK kv missing '='"),
    }
}

pub fn parse_bool(s: &str) -> (r: Result<bool, ProtoError>)
    ensures
        match r {
            Ok(b) => flag_of(s@) == Some(b),
            Err(e) => flag_of(s@) is None && e@ == ProtoErrorView::Malformed(
                "bool must be true/false"@,
            ),
        },
{
    if str_eq(s, "true") {
        Ok(true)
    } else if str_eq(s, "false") {
        Ok(false)
    } else {
        Err(ProtoError::Malformed("bool must be true/false"))
    }
}

pub fn parse_op_state(s: &str) -> (r: Result<OpState, ProtoError>)
    ensures
        match r {
            Ok(o) => op_state_of(s@) == Some(o),
            Err(e) => op_state_of(s@) is None && e@ == ProtoErrorView::Malformed(
                "unknown state token"@,
            ),
        },
{
    if str_eq(s, "rebasing") {
        Ok(OpState::Rebasing)
    } else if str_eq(s, "merging") {
        Ok(OpState::Merging)
    } else if str_eq(s, "cherry") {
        Ok(OpState::CherryPick)
    } else if str_eq(s, "bisect") {
        Ok(OpState::Bisect)
    } else {
        Err(ProtoError::Malformed("unknown state token"))
    }
}

pub fn parse_u32(s: &str) -> (r: Result<u32, ProtoError>)
    ensures
        match r {
            Ok(n) => decimal::parse_unsigned_of(s@, u32::MAX as nat) == Some(n as nat),
            Err(e) => decimal::parse_unsigned_of(s@, u32::MAX as nat) is None && e@
                == ProtoErrorView::Malformed("expected u32"@),
        },
{
    match parse_unsigned(s, u32::MAX as u64) {
        Some(n) => Ok(n as u32),
        None => Err(ProtoError::Malformed("expected u32")),
    }
}

pub fn parse_u64(s: &str) -> (r: Result<u64, ProtoError>)
    ensures
        match r {
            Ok(n) => decimal::parse_unsigned_of(s@, u64::MAX as nat) == Some(n as nat),
            Err(e) => decimal::parse_unsigned_of(s@, u64::MAX as nat) is None && e@
                == ProtoErrorView::Malformed("expected u64"@),
        },
{
    match parse_unsigned(s, u64::MAX) {
        Some(n) => Ok(n),
        None => Err(ProtoError::Malformed("expected u64")),
    }
}

pub fn parse_i32(s: &str) -> (r: Result<i32, ProtoError>)
    ensures
        match r {
            Ok(n) => decimal::parse_signed_of(s@, i32::MIN as int, i32::MAX as int) == Some(n as int),
            Err(e) => decimal::parse_signed_of(s@, i32::MIN as int, i32::MAX as int) is None && e@
                == ProtoErrorView::Malformed("expected i32"@),
        },
{
    match parse_signed(s, i32::MIN as i64, i32::MAX as i64) {
        Some(n) => Ok(n as i32),
        None => Err(ProtoError::Malformed("expected i32")),
    }
}

pub fn parse_i64(s: &str) -> (r: Result<i64, ProtoError>)
    ensures
        match r {
            Ok(n) => decimal::parse_signed_of(s@, i64::MIN as int, i64::MAX as int) == Some(n as int),
            Err(e) => decimal::parse_signed_of(s@, i64::MIN as int, i64::MAX as int) is None && e@
                == ProtoErrorView::Malformed("expected i64"@),
        },
{
    match parse_signed(s, i64::MIN, i64::MAX) {
        Some(n) => Ok(n),
        None => Err(ProtoError::Malformed("expected i64")),
    }
}

/// Reads one value.
fn read_field(kind: FieldKind, v: &str) -> (r: Result<Field, ProtoError>)
    ensures
        match r {
            Ok(f) => field_of(kind, v@) == Ok::<FieldView, ProtoErrorView>(f@) && has_kind(kind, f),
            Err(e) => field_of(kind, v@) == Err::<FieldView, ProtoErrorView>(e@),
        },
{
    match kind {
        FieldKind::Text => match percent_decode(v) {
            Ok(t) => Ok(Field::Text(t)),
            Err(e) => Err(e),
        },
        FieldKind::Signed64 => match parse_i64(v) {
            Ok(n) => Ok(Field::Int(n)),
            Err(e) => Err(e),
        },
        FieldKind::Signed32 => match parse_i32(v) {
            Ok(n) => Ok(Field::Int(n as i64)),
            Err(e) => Err(e),
        },
        FieldKind::Unsigned64 => match parse_u64(v) {
            Ok(n) => Ok(Field::Nat(n)),
            Err(e) => Err(e),
        },
        FieldKind::Unsigned32 => match parse_u32(v) {
            Ok(n) => Ok(Field::Nat(n as u64)),
            Err(e) => Err(e),
        },
        FieldKind::Flag => match parse_bool(v) {
            Ok(b) => Ok(Field::Flag(b)),
            Err(e) => Err(e),
        },
        FieldKind::State => match parse_op_state(v) {
            Ok(s) => Ok(Field::State(s)),
            Err(e) => Err(e),
        },
        FieldKind::Ignored => Ok(Field::Ignored),
    }
}

proof fn lemma_pairs_prefix(m: Message, toks: Seq<Seq<char>>, n: int)
    requires
        0 <= n <= toks.len(),
        pairs_of(m, toks.take(n)) is Err,
    ensures
        pairs_of(m, toks) == pairs_of(m, toks.take(n)),
    decreases toks.len() - n,
{
    if n < toks.len() {
        assert(toks.take(n + 1).drop_last() =~= toks.take(n));
        lemma_pairs_prefix(m, toks, n + 1);
    } else {
        assert(toks.take(n) =~= toks);
    }
}

/// Reads the keys and values of a line.
fn read_fields(m: Message, rest: &str) -> (r: Result<Vec<(String, Field)>, ProtoError>)
    ensures
        match r {
            Ok(fs) => pairs_of(m, text::tokens_of(rest@)) == Ok::<
                Seq<(Seq<char>, FieldView)>,
                ProtoErrorView,
            >(fields_view(fs@)) && well_kinded(m, fs@),
            Err(e) => pairs_of(m, text::tokens_of(rest@)) == Err::<
                Seq<(Seq<char>, FieldView)>,
                ProtoErrorView,
            >(e@),
        },
{
    let toks: Vec<String> = split_tokens(rest);
    let ghost tv = text::tokens_of(rest@);
    let mut out: Vec<(String, Field)> = Vec::new();
    let mut i: usize = 0;
    proof {
        assert(fields_view(out@) =~= Seq::empty());
        assert(tv.take(0) =~= Seq::empty());
    }
    while i < toks.len()
        invariant
            tv == text::tokens_of(rest@),
            text::views(toks@) == tv,
            i <= toks@.len(),
            pairs_of(m, tv.take(i as int)) == Ok::<Seq<(Seq<char>, FieldView)>, ProtoErrorView>(
                fields_view(out@),
            ),
            well_kinded(m, out@),
        decreases toks@.len() - i,
    {
        proof {
            assert(tv.take(i as int + 1).drop_last() =~= tv.take(i as int));
            assert(tv.take(i as int + 1).last() == tv[i as int]);
            assert(tv[i as int] == toks@[i as int]@);
        }
        match split_once_char(toks[i].as_str(), '=') {
            None => {
                proof {
                    lemma_pairs_prefix(m, tv, i as int + 1);
                }
                return Err(missing_equals(m));
            },
            Some((k, v)) => {
                match read_field(field_kind(m, k.as_str()), v.as_str()) {
                    Err(e) => {
                        proof {
                            lemma_pairs_prefix(m, tv, i as int + 1);
                        }
                        return Err(e);
                    },
                    Ok(f) => {
                        let ghost before = out@;
                        let ghost p = (k@, f@);
                        let ghost kk = k@;
                        out.push((k, f));
                        proof {
                            assert(fields_view(out@) =~= fields_view(before).push(p));
                            assert forall|j: int| 0 <= j < out@.len() implies #[trigger] has_kind(
                                kind_of(m, out@[j].0@),
                                out@[j].1,
                            ) by {
                                if j < before.len() {
                                    assert(out@[j] == before[j]);
                                }
                            }
                        }
                    },
                }
            },
        }
        i += 1;
    }
    proof {
        assert(tv.take(i as int) =~= tv);
    }
    Ok(out)
}

/// The index of the last field with `key`.
fn last_index(fs: &Vec<(String, Field)>, key: &str) -> (r: Option<usize>)
    ensures
        match r {
            Some(i) => i < fs@.len() && fs@[i as int].0@ == key@ && last_of(
                fields_view(fs@),
                key@,
            ) == Some(fs@[i as int].1@),
            None => last_of(fields_view(fs@), key@) is None,
        },
{
    let mut i: usize = fs.len();
    let ghost fv = fields_view(fs@);
    proof {
        assert(fv.take(i as int) =~= fv);
    }
    while i > 0
        invariant
            i <= fs@.len(),
            fv == fields_view(fs@),
            last_of(fv, key@) == last_of(fv.take(i as int), key@),
        decreases i,
    {
        i -= 1;
        proof {
            assert(fv.take(i as int + 1).drop_last() =~= fv.take(i as int));
            assert(fv.take(i as int + 1).last() == fv[i as int]);
        }
        if str_eq(fs[i].0.as_str(), key) {
            return Some(i);
        }
    }
    None
}

fn last_text(m: Message, fs: &Vec<(String, Field)>, key: &str) -> (r: Option<String>)
    requires
        well_kinded(m, fs@),
        kind_of(m, key@) == FieldKind::Text,
    ensures
        text::opt_view(r) == last_text_of(fields_view(fs@), key@),
{
    match last_index(fs, key) {
        Some(i) => {
            proof {
                assert(has_kind(kind_of(m, fs@[i as int].0@), fs@[i as int].1));
            }
            match &fs[i].1 {
                Field::Text(t) => Some(t.clone()),
                _ => None,
            }
        },
        None => None,
    }
}

fn last_int(m: Message, fs: &Vec<(String, Field)>, key: &str) -> (r: Option<i64>)
    requires
        well_kinded(m, fs@),
        kind_of(m, key@) == FieldKind::Signed64 || kind_of(m, key@) == FieldKind::Signed32,
    ensures
        match last_of(fields_view(fs@), key@) {
            Some(f) => r == Some(f.number() as i64) && r->0 == f.number(),
            None => r is None,
        },
        kind_of(m, key@) == FieldKind::Signed32 && r is Some ==> i32::MIN <= r->0 <= i32::MAX,
{
    match last_index(fs, key) {
        Some(i) => {
            proof {
                assert(has_kind(kind_of(m, fs@[i as int].0@), fs@[i as int].1));
            }
            match &fs[i].1 {
                Field::Int(n) => Some(*n),
                _ => None,
            }
        },
        None => None,
    }
}

fn last_nat(m: Message, fs: &Vec<(String, Field)>, key: &str) -> (r: Option<u64>)
    requires
        well_kinded(m, fs@),
        kind_of(m, key@) == FieldKind::Unsigned64 || kind_of(m, key@) == FieldKind::Unsigned32,
    ensures
        match last_of(fields_view(fs@), key@) {
            Some(f) => r == Some(f.number() as u64) && r->0 == f.number(),
            None => r is None,
        },
        kind_of(m, key@) == FieldKind::Unsigned32 && r is Some ==> r->0 <= u32::MAX,
{
    match last_index(fs, key) {
        Some(i) => {
            proof {
                assert(has_kind(kind_of(m, fs@[i as int].0@), fs@[i as int].1));
            }
            match &fs[i].1 {
                Field::Nat(n) => Some(*n),
                _ => None,
            }
        },
        None => None,
    }
}

fn last_flag(m: Message, fs: &Vec<(String, Field)>, key: &str) -> (r: Option<bool>)
    requires
        well_kinded(m, fs@),
        kind_of(m, key@) == FieldKind::Flag,
    ensures
        match last_of(fields_view(fs@), key@) {
            Some(f) => r == Some(f->Flag_0),
            None => r is None,
        },
{
    match last_index(fs, key) {
        Some(i) => {
            proof {
                assert(has_kind(kind_of(m, fs@[i as int].0@), fs@[i as int].1));
            }
            match &fs[i].1 {
                Field::Flag(b) => Some(*b),
                _ => None,
            }
        },
        None => None,
    }
}

fn last_state(m: Message, fs: &Vec<(String, Field)>, key: &str) -> (r: Option<OpState>)
    requires
        well_kinded(m, fs@),
        kind_of(m, key@) == FieldKind::State,
    ensures
        match last_of(fields_view(fs@), key@) {
            Some(f) => r == Some(f->State_0),
            None => r is None,
        },
{
    match last_index(fs, key) {
        Some(i) => {
            proof {
                assert(has_kind(kind_of(m, fs@[i as int].0@), fs@[i as int].1));
            }
            match &fs[i].1 {
                Field::State(s) => Some(*s),
                _ => None,
            }
        },
        None => None,
    }
}

// ── Keys ────────────────────────────────────────────────────────────────────

/// The keys of a `CMD_START` line are different.
pub proof fn lemma_cmd_start_keys()
    ensures
        "id"@ != "session"@,
        "id"@ != "host"@,
        "id"@ != "cwd"@,
        "id"@ != "cmd"@,
        "id"@ != "started_at"@,
        "session"@ != "host"@,
        "session"@ != "cwd"@,
        "session"@ != "cmd"@,
        "session"@ != "started_at"@,
        "host"@ != "cwd"@,
        "host"@ != "cmd"@,
        "host"@ != "started_at"@,
        "cwd"@ != "cmd"@,
        "cwd"@ != "started_at"@,
        "cmd"@ != "started_at"@,
{
    reveal_strlit("id");
    reveal_strlit("session");
    reveal_strlit("host");
    reveal_strlit("cwd");
    reveal_strlit("cmd");
    reveal_strlit("started_at");
    assert("id"@.len() == 2);
    assert("session"@.len() == 7);
    assert("host"@.len() == 4);
    assert("cwd"@.len() == 3);
    assert("cmd"@.len() == 3);
    assert("started_at"@.len() == 10);
    assert("cwd"@[1] == 'w');
    assert("cmd"@[1] == 'm');
}

/// The keys of a `CMD_END` line are different.
pub proof fn lemma_cmd_end_keys()
    ensures
        "id"@ != "finished_at"@,
        "id"@ != "duration_ms"@,
        "id"@ != "exit"@,
        "id"@ != "output_bytes"@,
        "id"@ != "output_truncated"@,
        "finished_at"@ != "duration_ms"@,
        "finished_at"@ != "exit"@,
        "finished_at"@ != "output_bytes"@,
        "finished_at"@ != "output_truncated"@,
        "duration_ms"@ != "exit"@,
        "duration_ms"@ != "output_bytes"@,
        "duration_ms"@ != "output_truncated"@,
        "exit"@ != "output_bytes"@,
        "exit"@ != "output_truncated"@,
        "output_bytes"@ != "output_truncated"@,
{
    reveal_strlit("id");
    reveal_strlit("finished_at");
    reveal_strlit("duration_ms");
    reveal_strlit("exit");
    reveal_strlit("output_bytes");
    reveal_strlit("output_truncated");
    assert("id"@.len() == 2);
    assert("finished_at"@.len() == 11);
    assert("duration_ms"@.len() == 11);
    assert("exit"@.len() == 4);
    assert("output_bytes"@.len() == 12);
    assert("output_truncated"@.len() == 16);
    assert("finished_at"@[0] == 'f');
    assert("duration_ms"@[0] == 'd');
}

/// The keys of an `EVENT` line are different.
pub proof fn lemma_event_keys()
    ensures
        "type"@ != "cwd"@,
        "type"@ != "id"@,
        "cwd"@ != "id"@,
{
    reveal_strlit("type");
    reveal_strlit("cwd");
    reveal_strlit("id");
    assert("type"@.len() == 4);
    assert("cwd"@.len() == 3);
    assert("id"@.len() == 2);
}

/// The keys of an `OK` line are different.
pub proof fn lemma_status_keys()
    ensures
        "repo_name"@ != "branch"@,
        "repo_name"@ != "detached"@,
        "repo_name"@ != "state"@,
        "repo_name"@ != "staged"@,
        "repo_name"@ != "modified"@,
        "repo_name"@ != "untracked"@,
        "repo_name"@ != "conflicted"@,
        "repo_name"@ != "ahead"@,
        "repo_name"@ != "behind"@,
        "repo_name"@ != "stashed"@,
        "branch"@ != "detached"@,
        "branch"@ != "state"@,
        "branch"@ != "staged"@,
        "branch"@ != "modified"@,
        "branch"@ != "untracked"@,
        "branch"@ != "conflicted"@,
        "branch"@ != "ahead"@,
        "branch"@ != "behind"@,
        "branch"@ != "stashed"@,
        "detached"@ != "state"@,
        "detached"@ != "staged"@,
        "detached"@ != "modified"@,
        "detached"@ != "untracked"@,
        "detached"@ != "conflicted"@,
        "detached"@ != "ahead"@,
        "detached"@ != "behind"@,
        "detached"@ != "stashed"@,
        "state"@ != "staged"@,
        "state"@ != "modified"@,
        "state"@ != "untracked"@,
        "state"@ != "conflicted"@,
        "state"@ != "ahead"@,
        "state"@ != "behind"@,
        "state"@ != "stashed"@,
        "staged"@ != "modified"@,
        "staged"@ != "untracked"@,
        "staged"@ != "conflicted"@,
        "staged"@ != "ahead"@,
        "staged"@ != "behind"@,
        "staged"@ != "stashed"@,
        "modified"@ != "untracked"@,
        "modified"@ != "conflicted"@,
        "modified"@ != "ahead"@,
        "modified"@ != "behind"@,
        "modified"@ != "stashed"@,
        "untracked"@ != "conflicted"@,
        "untracked"@ != "ahead"@,
        "untracked"@ != "behind"@,
        "untracked"@ != "stashed"@,
        "conflicted"@ != "ahead"@,
        "conflicted"@ != "behind"@,
        "conflicted"@ != "stashed"@,
        "ahead"@ != "behind"@,
        "ahead"@ != "stashed"@,
        "behind"@ != "stashed"@,
{
    reveal_strlit("repo_name");
    reveal_strlit("branch");
    reveal_strlit("detached");
    reveal_strlit("state");
    reveal_strlit("staged");
    reveal_strlit("modified");
    reveal_strlit("untracked");
    reveal_strlit("conflicted");
    reveal_strlit("ahead");
    reveal_strlit("behind");
    reveal_strlit("stashed");
    assert("repo_name"@.len() == 9);
    assert("branch"@.len() == 6);
    assert("detached"@.len() == 8);
    assert("state"@.len() == 5);
    assert("staged"@.len() == 6);
    assert("modified"@.len() == 8);
    assert("untracked"@.len() == 9);
    assert("conflicted"@.len() == 10);
    assert("ahead"@.len() == 5);
    assert("behind"@.len() == 6);
    assert("stashed"@.len() == 7);
    assert("repo_name"@[0] == 'r');
    assert("untracked"@[0] == 'u');
    assert("branch"@[0] == 'b');
    assert("staged"@[0] == 's');
    assert("branch"@[1] == 'r');
    assert("behind"@[1] == 'e');
    assert("detached"@[0] == 'd');
    assert("modified"@[0] == 'm');
    assert("state"@[0] == 's');
    assert("ahead"@[0] == 'a');
    assert("behind"@[0] == 'b');
}

// ── Decoding ────────────────────────────────────────────────────────────────

/// The event that the payload of a `CMD_START` line holds.
pub open spec fn cmd_start_of(rest: Seq<char>) -> Result<CmdStartView, ProtoErrorView> {
    match pairs_of(Message::CmdStart, text::tokens_of(rest)) {
        Err(e) => Err(e),
        Ok(ps) => if last_of(ps, "id"@) is None {
            Err(ProtoErrorView::Malformed("CMD_START missing id"@))
        } else if last_of(ps, "session"@) is None {
            Err(ProtoErrorView::Malformed("CMD_START missing session"@))
        } else if last_of(ps, "host"@) is None {
            Err(ProtoErrorView::Malformed("CMD_START missing host"@))
        } else if last_of(ps, "cwd"@) is None {
            Err(ProtoErrorView::Malformed("CMD_START missing cwd"@))
        } else if last_of(ps, "cmd"@) is None {
            Err(ProtoErrorView::Malformed("CMD_START missing cmd"@))
        } else if last_of(ps, "started_at"@) is None {
            Err(ProtoErrorView::Malformed("CMD_START missing started_at"@))
        } else {
            Ok(
                CmdStartView {
                    id: last_of(ps, "id"@)->0.text(),
                    session_id: last_of(ps, "session"@)->0.text(),
                    hostname: last_of(ps, "host"@)->0.text(),
                    cwd: last_of(ps, "cwd"@)->0.text(),
                    cmd: last_of(ps, "cmd"@)->0.text(),
                    started_at_ms: last_of(ps, "started_at"@)->0.number() as i64,
                },
            )
        },
    }
}

/// The event that the payload of a `CMD_END` line holds.
pub open spec fn cmd_end_of(rest: Seq<char>) -> Result<CmdEndView, ProtoErrorView> {
    match pairs_of(Message::CmdEnd, text::tokens_of(rest)) {
        Err(e) => Err(e),
        Ok(ps) => if last_of(ps, "id"@) is None {
            Err(ProtoErrorView::Malformed("CMD_END missing id"@))
        } else if last_of(ps, "finished_at"@) is None {
            Err(ProtoErrorView::Malformed("CMD_END missing finished_at"@))
        } else if last_of(ps, "duration_ms"@) is None {
            Err(ProtoErrorView::Malformed("CMD_END missing duration_ms"@))
        } else if last_of(ps, "exit"@) is None {
            Err(ProtoErrorView::Malformed("CMD_END missing exit"@))
        } else {
            Ok(
                CmdEndView {
                    id: last_of(ps, "id"@)->0.text(),
                    finished_at_ms: last_of(ps, "finished_at"@)->0.number() as i64,
                    duration_ms: last_of(ps, "duration_ms"@)->0.number() as u64,
                    exit_status: last_of(ps, "exit"@)->0.number() as i32,
                    output_bytes: match last_of(ps, "output_bytes"@) {
                        Some(f) => Some(f.number() as i64),
                        None => None,
                    },
                    output_truncated: match last_of(ps, "output_truncated"@) {
                        Some(f) => Some(f->Flag_0),
                        None => None,
                    },
                },
            )
        },
    }
}

/// The filter that the payload of a `SUBSCRIBE` line holds.
pub open spec fn subscribe_of(rest: Seq<char>) -> Result<Option<Seq<char>>, ProtoErrorView> {
    match pairs_of(Message::Subscribe, text::tokens_of(rest)) {
        Err(e) => Err(e),
        Ok(ps) => Ok(last_text_of(ps, "cwd"@)),
    }
}

/// The event that the payload of an `EVENT` line holds.
pub open spec fn event_of(rest: Seq<char>) -> Result<EventView, ProtoErrorView> {
    match pairs_of(Message::Event, text::tokens_of(rest)) {
        Err(e) => Err(e),
        Ok(ps) => match last_text_of(ps, "type"@) {
            None => Err(ProtoErrorView::Malformed("EVENT missing type"@)),
            Some(topic) => Ok(
                EventView { topic, cwd: last_text_of(ps, "cwd"@), id: last_text_of(ps, "id"@) },
            ),
        },
    }
}

/// The number under `key`, which is there.
pub open spec fn count_of(ps: Seq<(Seq<char>, FieldView)>, key: Seq<char>) -> u32 {
    last_of(ps, key)->0.number() as u32
}

/// The status that the payload of an `OK` line holds.
pub open spec fn status_of(rest: Seq<char>) -> Result<RepoStatusView, ProtoErrorView> {
    match pairs_of(Message::Status, text::tokens_of(rest)) {
        Err(e) => Err(e),
        Ok(ps) => if last_of(ps, "repo_name"@) is None {
            Err(ProtoErrorView::Malformed("OK missing repo_name"@))
        } else if last_of(ps, "branch"@) is None {
            Err(ProtoErrorView::Malformed("OK missing branch"@))
        } else if last_of(ps, "detached"@) is None {
            Err(ProtoErrorView::Malformed("OK missing detached"@))
        } else if last_of(ps, "staged"@) is None {
            Err(ProtoErrorView::Malformed("OK missing staged"@))
        } else if last_of(ps, "modified"@) is None {
            Err(ProtoErrorView::Malformed("OK missing modified"@))
        } else if last_of(ps, "untracked"@) is None {
            Err(ProtoErrorView::Malformed("OK missing untracked"@))
        } else if last_of(ps, "conflicted"@) is None {
            Err(ProtoErrorView::Malformed("OK missing conflicted"@))
        } else if last_of(ps, "ahead"@) is None {
            Err(ProtoErrorView::Malformed("OK missing ahead"@))
        } else if last_of(ps, "behind"@) is None {
            Err(ProtoErrorView::Malformed("OK missing behind"@))
        } else if last_of(ps, "stashed"@) is None {
            Err(ProtoErrorView::Malformed("OK missing stashed"@))
        } else {
            Ok(
                RepoStatusView {
                    repo_name: last_of(ps, "repo_name"@)->0.text(),
                    branch: last_of(ps, "branch"@)->0.text(),
                    detached: last_of(ps, "detached"@)->0->Flag_0,
                    state: match last_of(ps, "state"@) {
                        Some(f) => Some(f->State_0),
                        None => None,
                    },
                    staged: count_of(ps, "staged"@),
                    modified: count_of(ps, "modified"@),
                    untracked: count_of(ps, "untracked"@),
                    conflicted: count_of(ps, "conflicted"@),
                    ahead: count_of(ps, "ahead"@),
                    behind: count_of(ps, "behind"@),
                    stashed: count_of(ps, "stashed"@),
                },
            )
        },
    }
}

/// `s` without one trailing `\n`, and then without one trailing `\r`.
pub open spec fn strip_eol_of(s: Seq<char>) -> Seq<char> {
    let t = if s.len() > 0 && s.last() == '\n' {
        s.drop_last()
    } else {
        s
    };
    if t.len() > 0 && t.last() == '\r' {
        t.drop_last()
    } else {
        t
    }
}

/// The opcode of a line and its payload: the line cut at its first space.
pub open spec fn split_opcode_of(line: Seq<char>) -> (Seq<char>, Seq<char>) {
    match text::split_once_of(line, ' ') {
        Some(p) => p,
        None => (line, Seq::empty()),
    }
}

/// The request that a line holds.
pub open spec fn request_of(line: Seq<char>) -> Result<RequestView, ProtoErrorView> {
    let l = strip_eol_of(line);
    let (op, rest) = split_opcode_of(l);
    if l.len() == 0 {
        Err(ProtoErrorView::Empty)
    } else if op == "HELLO"@ {
        match decimal::parse_unsigned_of(text::trim_of(rest), u32::MAX as nat) {
            Some(v) => Ok(RequestView::Hello(v as u32)),
            None => Err(ProtoErrorView::Malformed("HELLO version not a u32"@)),
        }
    } else if op == "STATUS"@ {
        if text::trim_of(rest).len() == 0 {
            Err(ProtoErrorView::Malformed("STATUS requires a path"@))
        } else {
            match percent::percent_decoded(text::trim_of(rest)) {
                Ok(p) => Ok(RequestView::Status(p)),
                Err(e) => Err(e),
            }
        }
    } else if op == "CMD_START"@ {
        match cmd_start_of(rest) {
            Ok(e) => Ok(RequestView::CmdStart(e)),
            Err(e) => Err(e),
        }
    } else if op == "CMD_END"@ {
        match cmd_end_of(rest) {
            Ok(e) => Ok(RequestView::CmdEnd(e)),
            Err(e) => Err(e),
        }
    } else if op == "SUBSCRIBE"@ {
        match subscribe_of(rest) {
            Ok(s) => Ok(RequestView::Subscribe(s)),
            Err(e) => Err(e),
        }
    } else if op == "QUIT"@ {
        if text::trim_of(rest).len() > 0 {
            Err(ProtoErrorView::Malformed("QUIT takes no arguments"@))
        } else {
            Ok(RequestView::Quit)
        }
    } else {
        Err(ProtoErrorView::UnknownOpcode(op))
    }
}

/// The response that a line holds.
pub open spec fn response_of(line: Seq<char>) -> Result<ResponseView, ProtoErrorView> {
    let l = strip_eol_of(line);
    let (op, rest) = split_opcode_of(l);
    if l.len() == 0 {
        Err(ProtoErrorView::Empty)
    } else if op == "HELLO"@ {
        match decimal::parse_unsigned_of(text::trim_of(rest), u32::MAX as nat) {
            Some(v) => Ok(ResponseView::Hello(v as u32)),
            None => Err(ProtoErrorView::Malformed("HELLO version not a u32"@)),
        }
    } else if op == "NONE"@ {
        if text::trim_of(rest).len() > 0 {
            Err(ProtoErrorView::Malformed("NONE takes no arguments"@))
        } else {
            Ok(ResponseView::Status(None))
        }
    } else if op == "ACK"@ {
        if text::trim_of(rest).len() > 0 {
            Err(ProtoErrorView::Malformed("ACK takes no arguments"@))
        } else {
            Ok(ResponseView::Ack)
        }
    } else if op == "EVENT"@ {
        match event_of(rest) {
            Ok(e) => Ok(ResponseView::Event(e)),
            Err(e) => Err(e),
        }
    } else if op == "PING"@ {
        match decimal::parse_signed_of(text::trim_of(rest), i64::MIN as int, i64::MAX as int) {
            Some(ts) => Ok(ResponseView::Ping(ts as i64)),
            None => Err(ProtoErrorView::Malformed("PING timestamp not an i64"@)),
        }
    } else if op == "OK"@ {
        match status_of(rest) {
            Ok(s) => Ok(ResponseView::Status(Some(s))),
            Err(e) => Err(e),
        }
    } else if op == "ERR"@ {
        match percent::percent_decoded(text::trim_of(rest)) {
            Ok(reason) => Ok(ResponseView::Error(reason)),
            Err(e) => Err(e),
        }
    } else {
        Err(ProtoErrorView::UnknownOpcode(op))
    }
}

/// The contract of a decoder: it returns the value that `want` holds, or the
/// error that `want` holds.
pub open spec fn decodes<T: View>(
    r: Result<T, ProtoError>,
    want: Result<T::V, ProtoErrorView>,
) -> bool {
    match r {
        Ok(v) => want == Ok::<T::V, ProtoErrorView>(v@),
        Err(e) => want == Err::<T::V, ProtoErrorView>(e@),
    }
}

pub fn decode_cmd_start(rest: &str) -> (r: Result<CmdStartEvent, ProtoError>)
    ensures
        decodes(r, cmd_start_of(rest@)),
{
    let m: Message = Message::CmdStart;
    let fs: Vec<(String, Field)> = match read_fields(m, rest) {
        Ok(fs) => fs,
        Err(e) => {
            return Err(e);
        },
    };
    proof {
        lemma_cmd_start_keys();
    }
    let id: String = match last_text(m, &fs, "id") {
        Some(t) => t,
        None => {
            return Err(ProtoError::Malformed("CMD_START missing id"));
        },
    };
    let session_id: String = match last_text(m, &fs, "session") {
        Some(t) => t,
        None => {
            return Err(ProtoError::Malformed("CMD_START missing session"));
        },
    };
    let hostname: String = match last_text(m, &fs, "host") {
        Some(t) => t,
        None => {
            return Err(ProtoError::Malformed("CMD_START missing host"));
        },
    };
    let cwd: String = match last_text(m, &fs, "cwd") {
        Some(t) => t,
        None => {
            return Err(ProtoError::Malformed("CMD_START missing cwd"));
        },
    };
    let cmd: String = match last_text(m, &fs, "cmd") {
        Some(t) => t,
        None => {
            return Err(ProtoError::Malformed("CMD_START missing cmd"));
        },
    };
    let started_at_ms: i64 = match last_int(m, &fs, "started_at") {
        Some(n) => n,
        None => {
            return Err(ProtoError::Malformed("CMD_START missing started_at"));
        },
    };
    Ok(CmdStartEvent { id, session_id, hostname, cwd, cmd, started_at_ms })
}

pub fn decode_cmd_end(rest: &str) -> (r: Result<CmdEndEvent, ProtoError>)
    ensures
        decodes(r, cmd_end_of(rest@)),
{
    let m: Message = Message::CmdEnd;
    let fs: Vec<(String, Field)> = match read_fields(m, rest) {
        Ok(fs) => fs,
        Err(e) => {
            return Err(e);
        },
    };
    proof {
        lemma_cmd_end_keys();
    }
    let id: String = match last_text(m, &fs, "id") {
        Some(t) => t,
        None => {
            return Err(ProtoError::Malformed("CMD_END missing id"));
        },
    };
    let finished_at_ms: i64 = match last_int(m, &fs, "finished_at") {
        Some(n) => n,
        None => {
            return Err(ProtoError::Malformed("CMD_END missing finished_at"));
        },
    };
    let duration_ms: u64 = match last_nat(m, &fs, "duration_ms") {
        Some(n) => n,
        None => {
            return Err(ProtoError::Malformed("CMD_END missing duration_ms"));
        },
    };
    let exit_status: i32 = match last_int(m, &fs, "exit") {
        Some(n) => n as i32,
        None => {
            return Err(ProtoError::Malformed("CMD_END missing exit"));
        },
    };
    let output_bytes: Option<i64> = last_int(m, &fs, "output_bytes");
    let output_truncated: Option<bool> = last_flag(m, &fs, "output_truncated");
    Ok(
        CmdEndEvent {
            id,
            finished_at_ms,
            duration_ms,
            exit_status,
            output_bytes,
            output_truncated,
        },
    )
}

pub fn decode_subscribe(rest: &str) -> (r: Result<SubscribeSpec, ProtoError>)
    ensures
        decodes(r, subscribe_of(rest@)),
{
    match read_fields(Message::Subscribe, rest) {
        Ok(fs) => Ok(SubscribeSpec { cwd: last_text(Message::Subscribe, &fs, "cwd") }),
        Err(e) => Err(e),
    }
}

pub fn decode_event(rest: &str) -> (r: Result<EventPayload, ProtoError>)
    ensures
        decodes(r, event_of(rest@)),
{
    let m: Message = Message::Event;
    let fs: Vec<(String, Field)> = match read_fields(m, rest) {
        Ok(fs) => fs,
        Err(e) => {
            return Err(e);
        },
    };
    match last_text(m, &fs, "type") {
        Some(topic) => Ok(
            EventPayload { topic, cwd: last_text(m, &fs, "cwd"), id: last_text(m, &fs, "id") },
        ),
        None => Err(ProtoError::Malformed("EVENT missing type")),
    }
}

/// The number under `key`, or the error that says it is missing.
fn need_count(fs: &Vec<(String, Field)>, key: &str, missing: &'static str) -> (r: Result<
    u32,
    ProtoError,
>)
    requires
        well_kinded(Message::Status, fs@),
        kind_of(Message::Status, key@) == FieldKind::Unsigned32,
    ensures
        match r {
            Ok(n) => last_of(fields_view(fs@), key@) is Some && n == count_of(
                fields_view(fs@),
                key@,
            ),
            Err(e) => last_of(fields_view(fs@), key@) is None && e@ == ProtoErrorView::Malformed(
                missing@,
            ),
        },
{
    match last_nat(Message::Status, fs, key) {
        Some(n) => Ok(n as u32),
        None => Err(ProtoError::Malformed(missing)),
    }
}

pub fn decode_status_ok(rest: &str) -> (r: Result<RepoStatus, ProtoError>)
    ensures
        decodes(r, status_of(rest@)),
{
    let m: Message = Message::Status;
    let fs: Vec<(String, Field)> = match read_fields(m, rest) {
        Ok(fs) => fs,
        Err(e) => {
            return Err(e);
        },
    };
    proof {
        lemma_status_keys();
    }
    let repo_name: String = match last_text(m, &fs, "repo_name") {
        Some(t) => t,
        None => {
            return Err(ProtoError::Malformed("OK missing repo_name"));
        },
    };
    let branch: String = match last_text(m, &fs, "branch") {
        Some(t) => t,
        None => {
            return Err(ProtoError::Malformed("OK missing branch"));
        },
    };
    let detached: bool = match last_flag(m, &fs, "detached") {
        Some(b) => b,
        None => {
            return Err(ProtoError::Malformed("OK missing detached"));
        },
    };
    let state: Option<OpState> = last_state(m, &fs, "state");
    let staged: u32 = match need_count(&fs, "staged", "OK missing staged") {
        Ok(n) => n,
        Err(e) => {
            return Err(e);
        },
    };
    let modified: u32 = match need_count(&fs, "modified", "OK missing modified") {
        Ok(n) => n,
        Err(e) => {
            return Err(e);
        },
    };
    let untracked: u32 = match need_count(&fs, "untracked", "OK missing untracked") {
        Ok(n) => n,
        Err(e) => {
            return Err(e);
        },
    };
    let conflicted: u32 = match need_count(&fs, "conflicted", "OK missing conflicted") {
        Ok(n) => n,
        Err(e) => {
            return Err(e);
        },
    };
    let ahead: u32 = match need_count(&fs, "ahead", "OK missing ahead") {
        Ok(n) => n,
        Err(e) => {
            return Err(e);
        },
    };
    let behind: u32 = match need_count(&fs, "behind", "OK missing behind") {
        Ok(n) => n,
        Err(e) => {
            return Err(e);
        },
    };
    let stashed: u32 = match need_count(&fs, "stashed", "OK missing stashed") {
        Ok(n) => n,
        Err(e) => {
            return Err(e);
        },
    };
    Ok(
        RepoStatus {
            repo_name,
            branch,
            detached,
            state,
            staged,
            modified,
            untracked,
            conflicted,
            ahead,
            behind,
            stashed,
        },
    )
}

/// `s` without its line ending.
pub fn strip_eol(s: &str) -> (r: String)
    ensures
        r@ == strip_eol_of(s@),
{
    let v: Vec<char> = chars_of(s);
    let mut n: usize = v.len();
    if n > 0 && v[n - 1] == '\n' {
        n -= 1;
        proof {
            assert(v@.drop_last() =~= v@.subrange(0, n as int));
        }
    } else {
        proof {
            assert(v@ =~= v@.subrange(0, n as int));
        }
    }
    if n > 0 && v[n - 1] == '\r' {
        n -= 1;
        proof {
            assert(v@.subrange(0, n + 1).drop_last() =~= v@.subrange(0, n as int));
        }
    }
    string_of_range(&v, 0, n)
}

/// The opcode of a line and its payload.
pub fn split_opcode(line: &str) -> (r: (String, String))
    ensures
        (r.0@, r.1@) == split_opcode_of(line@),
{
    match split_once_char(line, ' ') {
        Some(p) => p,
        None => (line.to_owned(), String::new()),
    }
}

/// Reads one line as a request.
///
/// # Errors
///
/// An empty line, an unknown opcode, or a known opcode with a bad payload.
pub fn decode_request(line: &str) -> (r: Result<Request, ProtoError>)
    ensures
        decodes(r, request_of(line@)),
{
    let l: String = strip_eol(line);
    if l.as_str().is_empty() {
        return Err(ProtoError::Empty);
    }
    let (op, rest) = split_opcode(l.as_str());
    let arg: String = trim_str(rest.as_str());
    if str_eq(op.as_str(), "HELLO") {
        match parse_u32(arg.as_str()) {
            Ok(v) => Ok(Request::Hello(v)),
            Err(_) => Err(ProtoError::Malformed("HELLO version not a u32")),
        }
    } else if str_eq(op.as_str(), "STATUS") {
        if arg.as_str().is_empty() {
            return Err(ProtoError::Malformed("STATUS requires a path"));
        }
        match percent_decode(arg.as_str()) {
            Ok(p) => Ok(Request::Status(p)),
            Err(e) => Err(e),
        }
    } else if str_eq(op.as_str(), "CMD_START") {
        match decode_cmd_start(rest.as_str()) {
            Ok(e) => Ok(Request::CmdStart(e)),
            Err(e) => Err(e),
        }
    } else if str_eq(op.as_str(), "CMD_END") {
        match decode_cmd_end(rest.as_str()) {
            Ok(e) => Ok(Request::CmdEnd(e)),
            Err(e) => Err(e),
        }
    } else if str_eq(op.as_str(), "SUBSCRIBE") {
        match decode_subscribe(rest.as_str()) {
            Ok(s) => Ok(Request::Subscribe(s)),
            Err(e) => Err(e),
        }
    } else if str_eq(op.as_str(), "QUIT") {
        if !arg.as_str().is_empty() {
            return Err(ProtoError::Malformed("QUIT takes no arguments"));
        }
        Ok(Request::Quit)
    } else {
        Err(ProtoError::UnknownOpcode(op))
    }
}

/// Reads one line as a response.
///
/// # Errors
///
/// An empty line, an unknown opcode, or a known opcode with a bad payload.
pub fn decode_response(line: &str) -> (r: Result<Response, ProtoError>)
    ensures
        decodes(r, response_of(line@)),
{
    let l: String = strip_eol(line);
    if l.as_str().is_empty() {
        return Err(ProtoError::Empty);
    }
    let (op, rest) = split_opcode(l.as_str());
    let arg: String = trim_str(rest.as_str());
    if str_eq(op.as_str(), "HELLO") {
        match parse_u32(arg.as_str()) {
            Ok(v) => Ok(Response::Hello(v)),
            Err(_) => Err(ProtoError::Malformed("HELLO version not a u32")),
        }
    } else if str_eq(op.as_str(), "NONE") {
        if !arg.as_str().is_empty() {
            return Err(ProtoError::Malformed("NONE takes no arguments"));
        }
        Ok(Response::Status(None))
    } else if str_eq(op.as_str(), "ACK") {
        if !arg.as_str().is_empty() {
            return Err(ProtoError::Malformed("ACK takes no arguments"));
        }
        Ok(Response::Ack)
    } else if str_eq(op.as_str(), "EVENT") {
        match decode_event(rest.as_str()) {
            Ok(e) => Ok(Response::Event(e)),
            Err(e) => Err(e),
        }
    } else if str_eq(op.as_str(), "PING") {
        match parse_i64(arg.as_str()) {
            Ok(ts) => Ok(Response::Ping(ts)),
            Err(_) => Err(ProtoError::Malformed("PING timestamp not an i64")),
        }
    } else if str_eq(op.as_str(), "OK") {
        match decode_status_ok(rest.as_str()) {
            Ok(s) => Ok(Response::Status(Some(s))),
            Err(e) => Err(e),
        }
    } else if str_eq(op.as_str(), "ERR") {
        match percent_decode(arg.as_str()) {
            Ok(reason) => Ok(Response::Error(reason)),
            Err(e) => Err(e),
        }
    } else {
        Err(ProtoError::UnknownOpcode(op))
    }
}

} // verus!
