//! The other end of a connection: what is asked and what an answer means.

use vstd::prelude::*;
use crate::daemon::proto;
use crate::daemon::proto::{decode_response, encode_request, Request, Response, PROTO_VERSION};
use crate::daemon::proto_laws;
use crate::daemon::state;
use crate::segments::{RepoStatus, RepoStatusView};
use crate::text::{joined, owned};

verus! {

/// How long one read or write of a question may take, in milliseconds.
pub const QUERY_TIMEOUT_MS: u64 = 10;

/// How long one read or write of an event may take, in milliseconds.
pub const PUBLISH_TIMEOUT_MS: u64 = 25;

/// A request as it is sent: one line.
pub fn request_bytes(req: &Request) -> (r: String)
    ensures
        r@ == proto::request_line(req@) + "\n"@,
{
    joined(encode_request(req).as_str(), "\n")
}

/// The first line of a connection.
pub fn hello_bytes() -> (r: String)
    ensures
        r@ == proto::request_line(proto::RequestView::Hello(PROTO_VERSION)) + "\n"@,
{
    request_bytes(&Request::Hello(PROTO_VERSION))
}

/// The question for the status at a path.
pub fn status_bytes(cwd: &str) -> (r: String)
    ensures
        r@ == proto::request_line(proto::RequestView::Status(cwd@)) + "\n"@,
{
    request_bytes(&Request::Status(owned(cwd)))
}

/// Whether an answer is a greeting in the right version.
pub open spec fn is_greeting(line: Seq<char>) -> bool {
    proto::response_of(line) == Ok::<proto::ResponseView, proto::ProtoErrorView>(
        proto::ResponseView::Hello(PROTO_VERSION),
    )
}

/// Whether an answer is a greeting in the right version.
pub fn greeted(line: &str) -> (r: bool)
    ensures
        r == is_greeting(line@),
{
    match decode_response(line) {
        Ok(Response::Hello(v)) => v == PROTO_VERSION,
        _ => false,
    }
}

/// The status in an answer.
pub open spec fn status_in(line: Seq<char>) -> Option<RepoStatusView> {
    match proto::response_of(line) {
        Ok(proto::ResponseView::Status(s)) => s,
        _ => None,
    }
}

/// The status in an answer. There is none where the answer is anything else.
pub fn try_query(line: &str) -> (r: Option<RepoStatus>)
    ensures
        state::status_view(r) == status_in(line@),
{
    match decode_response(line) {
        Ok(Response::Status(s)) => s,
        _ => None,
    }
}

/// Whether an answer is an acknowledgement.
pub open spec fn is_ack(line: Seq<char>) -> bool {
    proto::response_of(line) == Ok::<proto::ResponseView, proto::ProtoErrorView>(proto::ResponseView::Ack)
}

/// Whether an answer to an event is an acknowledgement.
pub fn try_publish_event(line: &str) -> (r: bool)
    ensures
        r == is_ack(line@),
{
    match decode_response(line) {
        Ok(Response::Ack) => true,
        _ => false,
    }
}

proof fn lemma_response_arrives(resp: proto::ResponseView)
    ensures
        proto::response_of(proto::response_line(resp) + "\n"@) == Ok::<
            proto::ResponseView,
            proto::ProtoErrorView,
        >(resp),
{
    reveal_strlit("\n");
    assert("\n"@ =~= seq!['\n']);
    proto_laws::law_response_reads_back(resp);
    proto_laws::law_response_is_one_line(resp);
    proto_laws::law_line_ending_is_ignored(proto::response_line(resp));
}

/// The client sees the very status that the daemon answers with.
pub proof fn law_status_arrives_as_it_was(status: RepoStatusView)
    ensures
        status_in(proto::response_line(proto::ResponseView::Status(Some(status))) + "\n"@) == Some(status),
{
    lemma_response_arrives(proto::ResponseView::Status(Some(status)));
}

/// The client takes the daemon's greeting and its acknowledgement for what they are.
pub proof fn law_greeting_and_ack_are_understood()
    ensures
        is_greeting(proto::response_line(proto::ResponseView::Hello(PROTO_VERSION)) + "\n"@),
        is_ack(proto::response_line(proto::ResponseView::Ack) + "\n"@),
{
    lemma_response_arrives(proto::ResponseView::Hello(PROTO_VERSION));
    lemma_response_arrives(proto::ResponseView::Ack);
}

/// The daemon sees the very request that the client sends. A question for the status
/// at an empty path is the one that it cannot read.
pub proof fn law_request_arrives_as_it_was(req: proto::RequestView)
    requires
        req matches proto::RequestView::Status(p) ==> p.len() > 0,
    ensures
        proto::request_of(proto::request_line(req) + "\n"@) == Ok::<
            proto::RequestView,
            proto::ProtoErrorView,
        >(req),
{
    reveal_strlit("\n");
    assert("\n"@ =~= seq!['\n']);
    proto_laws::law_request_reads_back(req);
    proto_laws::law_request_is_one_line(req);
    proto_laws::law_line_ending_is_ignored(proto::request_line(req));
}

} // verus!
