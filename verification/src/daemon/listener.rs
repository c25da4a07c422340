//! One connection to the daemon: what is answered to each line.

use vstd::prelude::*;
use crate::daemon::proto;
use crate::daemon::proto::{
    decode_request, encode_response, Request, Response, SubscribeSpec, PROTO_VERSION,
};
use crate::daemon::state::StateMsg;
use crate::segments::RepoStatus;
use crate::span::Span;
use crate::text;
use crate::text::{joined, owned, string_lossy};

verus! {

/// How many bytes a line may have.
pub const MAX_LINE_BYTES: usize = 8192;

/// How long one read or write may take, in seconds.
pub const CONN_TIMEOUT_SECS: u64 = 5;

/// A line from the bytes that were read of it, at most [`MAX_LINE_BYTES`]. `None`
/// where they are too many for a line.
pub fn line_from_bytes(bytes: &Vec<u8>) -> (r: Option<String>)
    ensures
        ({
            let b = bytes@;
            let too_long = b.len() == MAX_LINE_BYTES && b[b.len() - 1] != 10;
            if too_long {
                r is None
            } else {
                text::opt_view(r) == Some(text::lossy_text(b))
            }
        }),
{
    let n: usize = bytes.len();
    if n == MAX_LINE_BYTES && bytes[n - 1] != 10 {
        return None;
    }
    Some(string_lossy(bytes.as_slice()))
}

/// A response as it is sent: one line.
pub fn response_bytes(resp: &Response) -> (r: String)
    ensures
        r@ == proto::response_line(resp@) + "\n"@,
{
    joined(encode_response(resp).as_str(), "\n")
}

/// How far a connection has come.
#[derive(Debug, Clone, Copy, PartialEq, Eq, Structural)]
pub enum Stage {
    /// Nothing has been said yet.
    Greeting,
    /// Requests are answered.
    Serving,
    /// Events are sent, and nothing more is read.
    Relaying,
    /// Nothing more is said.
    Closed,
}

/// What to do about a line.
#[derive(Debug)]
pub enum Action {
    /// Answer.
    Reply(Response),
    /// Answer, then close.
    Refuse(Response),
    Close,
    /// Find out the status at this path and answer with it.
    Status(String),
    /// Hand this on, then answer with an acknowledgement.
    Record(StateMsg),
    /// Acknowledge, then send events.
    Relay(SubscribeSpec),
}

/// The answer that says what is wrong.
pub open spec fn is_error(r: Response, reason: Seq<char>) -> bool {
    r@ == proto::ResponseView::Error(reason)
}

/// What is done about a first line: only a greeting in the right version goes
/// further.
pub open spec fn greeting_of(
    req: Result<proto::RequestView, proto::ProtoErrorView>,
    stage: Stage,
    r: Action,
) -> bool {
    match req {
        Ok(proto::RequestView::Hello(v)) => if v == PROTO_VERSION {
            stage == Stage::Serving && (r matches Action::Reply(resp) && resp@
                == proto::ResponseView::Hello(v))
        } else {
            stage == Stage::Closed && (r matches Action::Refuse(resp) && is_error(
                resp,
                "unsupported version"@,
            ))
        },
        Ok(_) => stage == Stage::Closed && (r matches Action::Refuse(resp) && is_error(
            resp,
            "expected HELLO"@,
        )),
        Err(_) => stage == Stage::Closed && (r matches Action::Refuse(resp) && is_error(
            resp,
            "malformed HELLO"@,
        )),
    }
}

/// What is done about a later line. A line that makes no sense is answered, and the
/// connection goes on.
pub open spec fn request_action(
    req: Result<proto::RequestView, proto::ProtoErrorView>,
    stage: Stage,
    r: Action,
) -> bool {
    match req {
        Err(_) => stage == Stage::Serving && (r matches Action::Reply(resp) && is_error(
            resp,
            "malformed request"@,
        )),
        Ok(proto::RequestView::Quit) => stage == Stage::Closed && r is Close,
        Ok(proto::RequestView::Hello(_)) => stage == Stage::Serving && (r matches Action::Reply(resp)
            && is_error(resp, "HELLO already exchanged"@)),
        Ok(proto::RequestView::Status(p)) => stage == Stage::Serving && (r matches Action::Status(path)
            && path@ == p),
        Ok(proto::RequestView::CmdStart(e)) => stage == Stage::Serving && (r matches Action::Record(msg)
            && (msg matches StateMsg::CmdStart(f) && f@ == e)),
        Ok(proto::RequestView::CmdEnd(e)) => stage == Stage::Serving && (r matches Action::Record(msg)
            && (msg matches StateMsg::CmdEnd(f) && f@ == e)),
        Ok(proto::RequestView::Subscribe(c)) => stage == Stage::Relaying && (r matches Action::Relay(spec)
            && text::opt_view(spec.cwd) == c),
    }
}

/// One connection.
#[derive(Debug)]
pub struct Connection {
    pub stage: Stage,
}

impl Connection {
    /// A connection on which nothing has been said.
    pub fn new() -> (r: Connection)
        ensures
            r.stage == Stage::Greeting,
    {
        Connection { stage: Stage::Greeting }
    }

    /// What to do about a line; `None` where it could not be read. The peer has gone
    /// where the line is empty.
    pub fn on_line(&mut self, line: Option<&str>) -> (r: Action)
        ensures
            match (old(self).stage, line) {
                (Stage::Greeting, Some(l)) => greeting_of(proto::request_of(l@), final(self).stage, r),
                (Stage::Serving, Some(l)) => if l@.len() == 0 {
                    final(self).stage == Stage::Closed && r is Close
                } else {
                    request_action(proto::request_of(l@), final(self).stage, r)
                },
                _ => final(self).stage == Stage::Closed && r is Close,
            },
    {
        let l: &str = match line {
            Some(l) => l,
            None => {
                self.stage = Stage::Closed;
                return Action::Close;
            },
        };
        match self.stage {
            Stage::Greeting => match decode_request(l) {
                Ok(Request::Hello(v)) => {
                    if v == PROTO_VERSION {
                        self.stage = Stage::Serving;
                        Action::Reply(Response::Hello(v))
                    } else {
                        self.stage = Stage::Closed;
                        Action::Refuse(Response::Error(owned("unsupported version")))
                    }
                },
                Ok(_) => {
                    self.stage = Stage::Closed;
                    Action::Refuse(Response::Error(owned("expected HELLO")))
                },
                Err(_) => {
                    self.stage = Stage::Closed;
                    Action::Refuse(Response::Error(owned("malformed HELLO")))
                },
            },
            Stage::Serving => {
                if l.is_empty() {
                    self.stage = Stage::Closed;
                    return Action::Close;
                }
                match decode_request(l) {
                    Err(_) => Action::Reply(Response::Error(owned("malformed request"))),
                    Ok(Request::Quit) => {
                        self.stage = Stage::Closed;
                        Action::Close
                    },
                    Ok(Request::Hello(_)) => Action::Reply(
                        Response::Error(owned("HELLO already exchanged")),
                    ),
                    Ok(Request::Status(p)) => Action::Status(p),
                    Ok(Request::CmdStart(e)) => Action::Record(StateMsg::CmdStart(e)),
                    Ok(Request::CmdEnd(e)) => Action::Record(StateMsg::CmdEnd(e)),
                    Ok(Request::Subscribe(spec)) => {
                        self.stage = Stage::Relaying;
                        Action::Relay(spec)
                    },
                }
            },
            Stage::Relaying | Stage::Closed => {
                self.stage = Stage::Closed;
                Action::Close
            },
        }
    }
}

// ── The status at a path ────────────────────────────────────────────────────

/// The repository at a path.
#[derive(Debug)]
pub struct RepoPlace {
    pub workdir: String,
    pub git_dir: String,
}

/// What to do about a status, after looking for the repository: where there is none
/// that has a working directory, there is nothing to tell.
pub fn status_lookup(found: &Option<RepoPlace>) -> (r: Result<StateMsg, Response>)
    ensures
        match found {
            Some(p) => r matches Ok(msg) && (msg matches StateMsg::Get { workdir } && workdir@ == p.workdir@),
            None => r matches Err(resp) && resp@ == proto::ResponseView::Status(None),
        },
{
    match found {
        Some(p) => Ok(StateMsg::Get { workdir: owned(p.workdir.as_str()) }),
        None => Err(Response::Status(None)),
    }
}

/// The answer where the status is known.
pub fn status_hit(hit: Option<RepoStatus>) -> (r: Option<Response>)
    ensures
        match hit {
            Some(s) => r matches Some(resp) && resp@ == proto::ResponseView::Status(Some(s@)),
            None => r is None,
        },
{
    match hit {
        Some(s) => Some(Response::Status(Some(s))),
        None => None,
    }
}

/// The answer where the status had to be computed, and what to take note of: the
/// very status that is answered.
pub fn status_computed(place: &RepoPlace, status: RepoStatus, computed_at: Span) -> (r: (Response, StateMsg))
    ensures
        (r.0)@ == proto::ResponseView::Status(Some(status@)),
        r.1 matches StateMsg::Insert { workdir, git_dir, status: s, computed_at: at } && workdir@
            == place.workdir@ && git_dir@ == place.git_dir@ && s@ == status@ && at == computed_at,
{
    let resp: Response = Response::Status(Some(status.copied()));
    let msg: StateMsg = StateMsg::Insert {
        workdir: owned(place.workdir.as_str()),
        git_dir: owned(place.git_dir.as_str()),
        status,
        computed_at,
    };
    (resp, msg)
}

/// A connection serves only after a greeting in this version of the protocol, which is
/// answered with the same version; every other first line is refused and ends it.
pub proof fn law_greeting_opens_the_connection(
    req: Result<proto::RequestView, proto::ProtoErrorView>,
    stage: Stage,
    r: Action,
)
    requires
        greeting_of(req, stage, r),
    ensures
        stage == Stage::Serving <==> (req matches Ok(proto::RequestView::Hello(v)) && v == proto::PROTO_VERSION),
        stage == Stage::Serving <==> r is Reply,
        stage == Stage::Closed <==> r is Refuse,
        r matches Action::Reply(resp) ==> resp@ == proto::ResponseView::Hello(proto::PROTO_VERSION),
        r matches Action::Refuse(resp) ==> resp@ is Error,
{
}

/// What is asked once a connection serves decides what becomes of it: it closes only
/// when asked to quit, relays only when asked to, and serves on in every other case,
/// also after a line that cannot be read. What is recorded or looked up is what was
/// sent.
pub proof fn law_request_decides(
    req: Result<proto::RequestView, proto::ProtoErrorView>,
    stage: Stage,
    r: Action,
)
    requires
        request_action(req, stage, r),
    ensures
        stage == Stage::Closed <==> req matches Ok(proto::RequestView::Quit),
        stage == Stage::Relaying <==> req matches Ok(proto::RequestView::Subscribe(_)),
        r is Close <==> req matches Ok(proto::RequestView::Quit),
        r is Relay <==> req matches Ok(proto::RequestView::Subscribe(_)),
        r is Record <==> (req matches Ok(proto::RequestView::CmdStart(_))) || (req matches Ok(
            proto::RequestView::CmdEnd(_),
        )),
        r is Status <==> req matches Ok(proto::RequestView::Status(_)),
        r matches Action::Status(path) ==> req == Ok::<proto::RequestView, proto::ProtoErrorView>(
            proto::RequestView::Status(path@),
        ),
        r matches Action::Record(StateMsg::CmdStart(e)) ==> req == Ok::<
            proto::RequestView,
            proto::ProtoErrorView,
        >(proto::RequestView::CmdStart(e@)),
        r matches Action::Record(StateMsg::CmdEnd(e)) ==> req == Ok::<
            proto::RequestView,
            proto::ProtoErrorView,
        >(proto::RequestView::CmdEnd(e@)),
        r matches Action::Reply(resp) ==> resp@ is Error,
{
}

/// A status that is known is told as it is; without one the repository is looked for,
/// and outside of every repository the answer is that there is none.
pub proof fn law_status_is_known_looked_up_or_none(
    hit: Option<RepoStatus>,
    answer: Option<Response>,
    found: &Option<RepoPlace>,
    next: Result<StateMsg, Response>,
)
    requires
        call_ensures(status_hit, (hit,), answer),
        call_ensures(status_lookup, (found,), next),
    ensures
        answer is Some <==> hit is Some,
        hit is Some ==> (answer->0)@ == proto::ResponseView::Status(Some((hit->0)@)),
        next is Ok <==> *found is Some,
        *found is None ==> next is Err && (next->Err_0)@ == proto::ResponseView::Status(None),
{
}

} // verus!
