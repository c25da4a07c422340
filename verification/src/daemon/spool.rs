//! Events that could not be delivered, kept until the daemon takes them.

use vstd::prelude::*;
use vstd::utf8::*;
use crate::daemon::proto;
use crate::daemon::proto::{decode_request, encode_request, Request};
use crate::daemon::proto_laws;
use crate::daemon::state::StateMsg;
use crate::decimal;
use crate::decimal::{dec_u64_filled, push_u64};
use crate::order;
use crate::order::sorted;
use crate::text;
use crate::text::{chars_of, contains_str, ends_with_str, first_line, joined, owned, string_from_utf8};

verus! {

/// How many events are kept.
pub const SPOOL_CAP: usize = 1024;

// ── Names ───────────────────────────────────────────────────────────────────

/// Whether a character stands in a name as it is: a letter or a digit of ASCII.
pub open spec fn is_plain_char(c: char) -> bool {
    ('0' <= c && c <= '9') || ('A' <= c && c <= 'Z') || ('a' <= c && c <= 'z')
}

/// How one character of an id stands in a name: any but a letter or a digit by its
/// number, in seven digits behind an underscore.
pub open spec fn safe_char(c: char) -> Seq<char> {
    if is_plain_char(c) {
        seq![c]
    } else {
        seq!['_'] + decimal::dec_filled(c as u32 as nat, 7, '0')
    }
}

/// How an id stands in a name.
pub open spec fn safe_id_of(id: Seq<char>) -> Seq<char>
    decreases id.len(),
{
    if id.len() == 0 {
        Seq::empty()
    } else {
        safe_char(id[0]) + safe_id_of(id.skip(1))
    }
}

/// How an id stands in a name.
pub fn safe_id(id: &str) -> (r: String)
    ensures
        r@ == safe_id_of(id@),
{
    let v: Vec<char> = chars_of(id);
    let mut out: String = String::new();
    let mut i: usize = 0;
    proof {
        assert(v@.skip(0) =~= v@);
        assert(out@ + safe_id_of(v@) =~= safe_id_of(v@));
    }
    while i < v.len()
        invariant
            i <= v@.len(),
            out@ + safe_id_of(v@.skip(i as int)) == safe_id_of(v@),
        decreases v@.len() - i,
    {
        let c: char = v[i];
        let ghost rest = v@.skip(i as int);
        let ghost prior = out@;
        if ('0' <= c && c <= '9') || ('A' <= c && c <= 'Z') || ('a' <= c && c <= 'z') {
            out.push(c);
        } else {
            out.push('_');
            out.push_str(dec_u64_filled(c as u32 as u64, 7, '0').as_str());
        }
        proof {
            assert(rest[0] == c);
            assert(rest.skip(1) =~= v@.skip(i as int + 1));
            assert(out@ =~= prior + safe_char(c));
            assert(out@ + safe_id_of(rest.skip(1)) =~= prior + safe_id_of(rest));
        }
        i += 1;
    }
    proof {
        assert(v@.skip(i as int) =~= Seq::empty());
        assert(out@ + safe_id_of(v@.skip(i as int)) =~= out@);
    }
    out
}

/// Whether a character can stand in an id in a name.
pub open spec fn is_name_char(c: char) -> bool {
    is_plain_char(c) || c == '_'
}

/// The number of a character has no more digits than it is given.
proof fn lemma_char_fits(c: char)
    ensures
        decimal::dec_filled(c as u32 as nat, 7, '0').len() == 7,
        decimal::all_digits(decimal::dec_filled(c as u32 as nat, 7, '0')),
        decimal::digits_value(decimal::dec_filled(c as u32 as nat, 7, '0')) == c as u32 as nat,
{
    assert(decimal::pow10(7) == 10_000_000) by {
        reveal_with_fuel(decimal::pow10, 8);
    }
    decimal::lemma_dec_len(c as u32 as nat, 7);
    decimal::lemma_zero_filled(c as u32 as nat, 7);
}

/// In a name an id has nothing but letters, digits and underscores, so it leads to no
/// other directory.
pub proof fn law_safe_id_is_plain(id: Seq<char>)
    ensures
        forall|i: int| 0 <= i < safe_id_of(id).len() ==> is_name_char(#[trigger] safe_id_of(id)[i]),
    decreases id.len(),
{
    if id.len() > 0 {
        let head = safe_char(id[0]);
        let rest = safe_id_of(id.skip(1));
        law_safe_id_is_plain(id.skip(1));
        lemma_char_fits(id[0]);
        assert forall|i: int| 0 <= i < safe_id_of(id).len() implies is_name_char(
            #[trigger] safe_id_of(id)[i],
        ) by {
            if i >= head.len() {
                assert(safe_id_of(id)[i] == rest[i - head.len()]);
            } else {
                assert(safe_id_of(id)[i] == head[i]);
                if !is_plain_char(id[0]) && i > 0 {
                    assert(head[i] == decimal::dec_filled(id[0] as u32 as nat, 7, '0')[i - 1]);
                    assert(decimal::is_digit(head[i]));
                }
            }
        }
    }
}

/// No two ids stand in a name in the same way.
pub proof fn law_safe_ids_differ(id: Seq<char>, other: Seq<char>)
    requires
        safe_id_of(id) == safe_id_of(other),
    ensures
        id == other,
    decreases id.len(),
{
    if id.len() == 0 || other.len() == 0 {
        if id.len() > 0 {
            assert(safe_char(id[0]).len() > 0);
        }
        if other.len() > 0 {
            assert(safe_char(other[0]).len() > 0);
        }
        assert(id =~= other);
    } else {
        let whole = safe_id_of(id);
        let a = safe_char(id[0]);
        let b = safe_char(other[0]);
        lemma_char_fits(id[0]);
        lemma_char_fits(other[0]);
        assert(whole[0] == a[0] && whole[0] == b[0]);
        assert(a.len() == b.len());
        assert(whole.take(a.len() as int) =~= a);
        assert(whole.take(a.len() as int) =~= b);
        if !is_plain_char(id[0]) {
            assert(a.skip(1) =~= decimal::dec_filled(id[0] as u32 as nat, 7, '0'));
            assert(b.skip(1) =~= decimal::dec_filled(other[0] as u32 as nat, 7, '0'));
            let n = id[0] as u32;
            assert(n == other[0] as u32);
            char_u32_cast(id[0], n);
            char_u32_cast(other[0], n);
        }
        assert(id[0] == other[0]);
        assert(whole.skip(a.len() as int) =~= safe_id_of(id.skip(1)));
        assert(whole.skip(a.len() as int) =~= safe_id_of(other.skip(1)));
        law_safe_ids_differ(id.skip(1), other.skip(1));
        assert(id =~= seq![id[0]] + id.skip(1));
        assert(other =~= seq![other[0]] + other.skip(1));
    }
}

/// The name of an event's file: the time in nanoseconds, the id, the kind, and the
/// number of the process that wrote it.
pub open spec fn entry_name_of(nanos: nat, id: Seq<char>, kind: Seq<char>, pid: nat) -> Seq<char> {
    decimal::dec_filled(nanos, 20, '0') + "-"@ + safe_id_of(id) + "-"@ + kind + "-"@ + decimal::dec_digits(pid)
        + ".req"@
}

/// The name of an event's file.
pub fn entry_name(nanos: u64, id: &str, kind: &'static str, pid: u32) -> (r: String)
    ensures
        r@ == entry_name_of(nanos as nat, id@, kind@, pid as nat),
{
    let mut s: String = dec_u64_filled(nanos, 20, '0');
    s.push_str("-");
    s.push_str(safe_id(id).as_str());
    s.push_str("-");
    s.push_str(kind);
    s.push_str("-");
    push_u64(&mut s, pid as u64);
    s.push_str(".req");
    s
}

/// Whether a name is that of a complete event: its extension is `req`.
pub open spec fn is_entry(name: Seq<char>) -> bool {
    text::ends_with_of(name, ".req"@) && name.len() > 4
}

/// The names of complete events among some.
pub open spec fn kept_entries(names: Seq<Seq<char>>) -> Seq<Seq<char>>
    decreases names.len(),
{
    if names.len() == 0 {
        Seq::empty()
    } else if is_entry(names.last()) {
        kept_entries(names.drop_last()).push(names.last())
    } else {
        kept_entries(names.drop_last())
    }
}

/// The complete events among the files of the spool, in the order in which they
/// are replayed.
pub fn entries(names: &Vec<String>) -> (r: Vec<String>)
    ensures
        order::sorted_of(kept_entries(text::views(names@)), text::views(r@)),
{
    let ghost nv = text::views(names@);
    let mut kept: Vec<String> = Vec::new();
    let mut i: usize = 0;
    proof {
        assert(text::views(kept@) =~= Seq::empty());
    }
    while i < names.len()
        invariant
            nv == text::views(names@),
            i <= names@.len(),
            text::views(kept@) == kept_entries(nv.take(i as int)),
        decreases names@.len() - i,
    {
        let len: usize = chars_of(names[i].as_str()).len();
        proof {
            let t = nv.take(i as int + 1);
            assert(t.drop_last() =~= nv.take(i as int));
            assert(t.last() == names@[i as int]@);
        }
        if ends_with_str(names[i].as_str(), ".req") && len > 4 {
            let ghost prior = kept@;
            kept.push(owned(names[i].as_str()));
            proof {
                assert(text::views(kept@) =~= text::views(prior).push(nv[i as int]));
            }
        }
        i += 1;
    }
    proof {
        assert(nv.take(i as int) =~= nv);
    }
    sorted(kept)
}

// ── Spooling ────────────────────────────────────────────────────────────────

/// What to write: the name of the file and what it holds.
#[derive(Debug)]
pub struct SpoolEntry {
    pub name: String,
    pub line: String,
}

/// The id and the kind of an event; no other request is kept.
pub open spec fn event_of(req: Request) -> Option<(Seq<char>, Seq<char>)> {
    match req {
        Request::CmdStart(e) => Some((e.id@, "begin"@)),
        Request::CmdEnd(e) => Some((e.id@, "finish"@)),
        _ => None,
    }
}

/// What to write to keep a request; nothing where it is no event or where the
/// spool, with `queued` events in it, is full.
pub fn spool_event(req: &Request, queued: usize, nanos: u64, pid: u32) -> (r: Option<SpoolEntry>)
    ensures
        match r {
            Some(e) => {
                &&& queued < SPOOL_CAP
                &&& event_of(*req) matches Some((id, kind)) && e.name@ == entry_name_of(
                    nanos as nat,
                    id,
                    kind,
                    pid as nat,
                )
                &&& e.line@ == proto::request_line(req@) + "\n"@
            },
            None => queued >= SPOOL_CAP || event_of(*req) is None,
        },
{
    if queued >= SPOOL_CAP {
        return None;
    }
    let name: String = match req {
        Request::CmdStart(e) => entry_name(nanos, e.id.as_str(), "begin", pid),
        Request::CmdEnd(e) => entry_name(nanos, e.id.as_str(), "finish", pid),
        _ => {
            return None;
        },
    };
    let line: String = joined(encode_request(req).as_str(), "\n");
    Some(SpoolEntry { name, line })
}

/// What the name of the file of a command's start holds.
pub open spec fn start_mark(id: Seq<char>) -> Seq<char> {
    "-"@ + safe_id_of(id) + "-begin-"@
}

/// Whether the start of a command is among the events that are kept.
pub open spec fn has_start(names: Seq<Seq<char>>, id: Seq<char>) -> bool {
    exists|i: int|
        0 <= i < names.len() && is_entry(#[trigger] names[i]) && text::contains_of(names[i], start_mark(id))
}

/// Whether the start of a command is among the files of the spool.
pub fn has_spooled_start(names: &Vec<String>, id: &str) -> (r: bool)
    ensures
        r == has_start(text::views(names@), id@),
{
    let mut needle: String = joined("-", safe_id(id).as_str());
    needle.push_str("-begin-");
    let ghost nv = text::views(names@);
    let mut i: usize = 0;
    while i < names.len()
        invariant
            nv == text::views(names@),
            needle@ == start_mark(id@),
            i <= names@.len(),
            forall|j: int|
                0 <= j < i ==> !(is_entry(#[trigger] nv[j]) && text::contains_of(nv[j], needle@)),
        decreases names@.len() - i,
    {
        let len: usize = chars_of(names[i].as_str()).len();
        proof {
            assert(nv[i as int] == names@[i as int]@);
        }
        if ends_with_str(names[i].as_str(), ".req") && len > 4 && contains_str(
            names[i].as_str(),
            needle.as_str(),
        ) {
            return true;
        }
        i += 1;
    }
    false
}

/// Whether an event has to wait behind another: the end of a command whose start is
/// still kept.
pub open spec fn waits_of(req: Request, names: Seq<Seq<char>>) -> bool {
    req matches Request::CmdEnd(e) && has_start(names, e.id@)
}

/// Whether an event goes to the spool without being sent, `names` being the files
/// there.
pub fn must_wait(req: &Request, names: &Vec<String>) -> (r: bool)
    ensures
        r == waits_of(*req, text::views(names@)),
{
    match req {
        Request::CmdEnd(e) => has_spooled_start(names, e.id.as_str()),
        _ => false,
    }
}

// ── Replaying ───────────────────────────────────────────────────────────────

/// What to do with a file of the spool.
#[derive(Debug)]
pub enum Replay {
    /// It could not be read: leave it.
    Keep,
    /// It holds no event: remove it.
    Discard,
    /// Hand this on, then remove it.
    Send(StateMsg),
}

/// Whether a message is the event of a request.
pub open spec fn is_event_of(msg: StateMsg, req: proto::RequestView) -> bool {
    match msg {
        StateMsg::CmdStart(e) => req == proto::RequestView::CmdStart(e@),
        StateMsg::CmdEnd(e) => req == proto::RequestView::CmdEnd(e@),
        _ => false,
    }
}

/// Whether a request is an event.
pub open spec fn is_event(req: proto::RequestView) -> bool {
    req is CmdStart || req is CmdEnd
}

/// What to do with a file of the spool that holds these bytes: what is no text, or no
/// event, is removed.
pub open spec fn replays(bytes: Seq<u8>, r: Replay) -> bool {
    if valid_utf8(bytes) {
        match proto::request_of(text::first_line_of(decode_utf8(bytes))) {
            Ok(req) => if is_event(req) {
                r matches Replay::Send(msg) && is_event_of(msg, req)
            } else {
                r is Discard
            },
            Err(_) => r is Discard,
        }
    } else {
        r is Discard
    }
}

/// What to do with a file of the spool, from what it holds; one that cannot be read is
/// left.
pub fn ingest(content: Option<Vec<u8>>) -> (r: Replay)
    ensures
        match content {
            None => r is Keep,
            Some(bytes) => replays(bytes@, r),
        },
{
    match content {
        None => Replay::Keep,
        Some(bytes) => match string_from_utf8(bytes) {
            None => Replay::Discard,
            Some(c) => {
                let line: String = first_line(c.as_str());
                match decode_request(line.as_str()) {
                    Ok(Request::CmdStart(e)) => Replay::Send(StateMsg::CmdStart(e)),
                    Ok(Request::CmdEnd(e)) => Replay::Send(StateMsg::CmdEnd(e)),
                    _ => Replay::Discard,
                }
            },
        },
    }
}

// ── What holds of the spool as a whole ──────────────────────────────────────

/// An event that was written to the spool is handed on as it was.
pub proof fn law_spooled_event_is_replayed(req: proto::RequestView)
    requires
        is_event(req),
    ensures
        proto::request_of(text::first_line_of(proto::request_line(req) + "\n"@)) == Ok::<
            proto::RequestView,
            proto::ProtoErrorView,
        >(req),
        forall|r: Replay|
            replays(encode_utf8(proto::request_line(req) + "\n"@), r) ==> (r matches Replay::Send(msg) && is_event_of(
                msg,
                req,
            )),
{
    let line = proto::request_line(req);
    encode_utf8_valid_utf8(line + "\n"@);
    encode_utf8_decode_utf8(line + "\n"@);
    reveal_strlit("\n");
    proto_laws::law_request_is_one_line(req);
    proto_laws::law_request_reads_back(req);
    assert forall|i: int| 0 <= i < line.len() implies #[trigger] line[i] != '\n' by {}
    let all = line + "\n"@;
    assert(all =~= line + seq!['\n'] + Seq::empty());
    text::lemma_find_char_at(line, '\n', Seq::empty());
    if line.len() > 0 {
        assert(all[line.len() - 1] == line[line.len() - 1]);
    }
    assert(all.take(line.len() as int) =~= line);
}

/// The name of an event is ASCII.
proof fn lemma_name_is_ascii(nanos: nat, id: Seq<char>, kind: Seq<char>, pid: nat)
    requires
        dec_len_fits(nanos),
        is_ascii_chars(kind),
    ensures
        is_ascii_chars(entry_name_of(nanos, id, kind, pid)),
{
    reveal_strlit("-");
    reveal_strlit(".req");
    decimal::lemma_zero_filled(nanos, 20);
    decimal::lemma_dec_digits(pid);
    law_safe_id_is_plain(id);
    let name = entry_name_of(nanos, id, kind, pid);
    let a = decimal::dec_filled(nanos, 20, '0');
    let b = safe_id_of(id);
    let c = decimal::dec_digits(pid);
    assert forall|i: int| 0 <= i < name.len() implies '\0' <= #[trigger] name[i] <= '\u{7f}' by {
        if i < a.len() {
            assert(name[i] == a[i]);
            assert(decimal::is_digit(a[i]));
        } else if i < a.len() + 1 {
        } else if i < a.len() + 1 + b.len() {
            assert(name[i] == b[i - a.len() - 1]);
            assert(is_name_char(b[i - a.len() - 1]));
        } else if i < a.len() + 2 + b.len() {
        } else if i < a.len() + 2 + b.len() + kind.len() {
            assert(name[i] == kind[i - a.len() - 2 - b.len()]);
        } else if i < a.len() + 3 + b.len() + kind.len() {
        } else if i < a.len() + 3 + b.len() + kind.len() + c.len() {
            assert(name[i] == c[i - a.len() - 3 - b.len() - kind.len()]);
            assert(decimal::is_digit(c[i - a.len() - 3 - b.len() - kind.len()]));
        }
    }
}

/// Whether a time has no more digits than a name has room for.
pub open spec fn dec_len_fits(nanos: nat) -> bool {
    decimal::dec_digits(nanos).len() <= 20
}

/// Every time that is written fits.
pub proof fn lemma_time_fits(nanos: nat)
    requires
        nanos <= u64::MAX,
    ensures
        dec_len_fits(nanos),
{
    assert(decimal::pow10(20) == 100_000_000_000_000_000_000) by {
        reveal_with_fuel(decimal::pow10, 21);
    }
    decimal::lemma_dec_len(nanos, 20);
}

/// The start of a command is replayed before its end where both were written in the
/// same nanosecond, whichever processes wrote them.
pub proof fn law_start_replays_before_end(nanos: nat, id: Seq<char>, p: nat, q: nat)
    requires
        nanos <= u64::MAX,
    ensures
        order::before(entry_name_of(nanos, id, "begin"@, p), entry_name_of(nanos, id, "finish"@, q)),
{
    reveal_strlit("begin");
    reveal_strlit("finish");
    reveal_strlit("-");
    lemma_time_fits(nanos);
    assert(is_ascii_chars("begin"@));
    assert(is_ascii_chars("finish"@));
    lemma_name_is_ascii(nanos, id, "begin"@, p);
    lemma_name_is_ascii(nanos, id, "finish"@, q);
    decimal::lemma_zero_filled(nanos, 20);
    let a = entry_name_of(nanos, id, "begin"@, p);
    let b = entry_name_of(nanos, id, "finish"@, q);
    let head = decimal::dec_filled(nanos, 20, '0') + "-"@ + safe_id_of(id) + "-"@;
    let k = head.len() as int;
    assert(a.take(k) =~= head);
    assert(b.take(k) =~= head);
    assert(a[k] == "begin"@[0]);
    assert(b[k] == "finish"@[0]);
    order::lemma_first_difference(a, b, k);
}

/// What was written earlier is replayed earlier, whatever the events are.
pub proof fn law_earlier_events_replay_first(
    m: nat,
    n: nat,
    id: Seq<char>,
    jd: Seq<char>,
    kind: Seq<char>,
    lind: Seq<char>,
    p: nat,
    q: nat,
)
    requires
        m < n <= u64::MAX,
        kind == "begin"@ || kind == "finish"@,
        lind == "begin"@ || lind == "finish"@,
    ensures
        order::before(entry_name_of(m, id, kind, p), entry_name_of(n, jd, lind, q)),
{
    reveal_strlit("begin");
    reveal_strlit("finish");
    lemma_time_fits(m);
    lemma_time_fits(n);
    assert(is_ascii_chars("begin"@));
    assert(is_ascii_chars("finish"@));
    lemma_name_is_ascii(m, id, kind, p);
    lemma_name_is_ascii(n, jd, lind, q);
    decimal::lemma_zero_filled(m, 20);
    decimal::lemma_zero_filled(n, 20);
    let x = decimal::dec_filled(m, 20, '0');
    let y = decimal::dec_filled(n, 20, '0');
    let k = decimal::lemma_digits_order(x, y);
    let a = entry_name_of(m, id, kind, p);
    let b = entry_name_of(n, jd, lind, q);
    assert(a.take(k) =~= x.take(k));
    assert(b.take(k) =~= y.take(k));
    order::lemma_first_difference(a, b, k);
}

/// The start of a command is found by its id once it has been written, whatever
/// characters the id holds.
pub proof fn law_spooled_start_is_found(names: Seq<Seq<char>>, i: int, nanos: nat, id: Seq<char>, pid: nat)
    requires
        0 <= i < names.len(),
        names[i] == entry_name_of(nanos, id, "begin"@, pid),
    ensures
        has_start(names, id),
{
    reveal_strlit("begin");
    reveal_strlit("-begin-");
    reveal_strlit("-");
    reveal_strlit(".req");
    let name = names[i];
    let a = decimal::dec_filled(nanos, 20, '0');
    let needle = start_mark(id);
    assert("-begin-"@ =~= "-"@ + "begin"@ + "-"@);
    assert(name.subrange(a.len() as int, a.len() as int + needle.len()) =~= needle);
    assert(text::occurs_at(name, needle, a.len() as int));
    assert(name.subrange(name.len() - 4, name.len() as int) =~= ".req"@);
}

/// An id of letters and digits stands in a name as it is.
pub proof fn law_plain_id_is_kept(id: Seq<char>)
    requires
        forall|i: int| 0 <= i < id.len() ==> is_plain_char(#[trigger] id[i]),
    ensures
        safe_id_of(id) == id,
    decreases id.len(),
{
    if id.len() > 0 {
        assert forall|i: int| 0 <= i < id.skip(1).len() implies is_plain_char(#[trigger] id.skip(1)[i]) by {
            assert(is_plain_char(id[i + 1]));
        }
        law_plain_id_is_kept(id.skip(1));
        assert(is_plain_char(id[0]));
        assert(seq![id[0]] + id.skip(1) =~= id);
    } else {
        assert(safe_id_of(id) =~= id);
    }
}

/// The file of an event tells of the start of a command only where it is one, and of
/// that very command: the end of a command is no start, and no other id is found.
pub proof fn law_only_its_start_is_found(nanos: nat, id: Seq<char>, kind: Seq<char>, pid: nat, other: Seq<char>)
    requires
        nanos <= u64::MAX,
        kind == "begin"@ || kind == "finish"@,
    ensures
        text::contains_of(entry_name_of(nanos, id, kind, pid), start_mark(other)) == (kind == "begin"@
            && other == id),
{
    reveal_strlit("begin");
    reveal_strlit("finish");
    reveal_strlit("-begin-");
    reveal_strlit("-");
    reveal_strlit(".req");
    lemma_time_fits(nanos);
    decimal::lemma_zero_filled(nanos, 20);
    decimal::lemma_dec_digits(pid);
    law_safe_id_is_plain(id);
    law_safe_id_is_plain(other);
    let d = decimal::dec_filled(nanos, 20, '0');
    let sid = safe_id_of(id);
    let oid = safe_id_of(other);
    let p = decimal::dec_digits(pid);
    let name = entry_name_of(nanos, id, kind, pid);
    let mark = start_mark(other);
    let p1 = d.len() as int;
    let p2 = p1 + 1 + sid.len();
    let p3 = p2 + 1 + kind.len();
    assert forall|i: int| 0 <= i < name.len() && #[trigger] name[i] == '-' implies i == p1 || i == p2 || i
        == p3 by {
        if i < p1 {
            assert(name[i] == d[i]);
            assert(decimal::is_digit(d[i]));
        } else if p1 < i < p2 {
            assert(name[i] == sid[i - p1 - 1]);
            assert(is_name_char(sid[i - p1 - 1]));
        } else if p2 < i < p3 {
            assert(name[i] == kind[i - p2 - 1]);
        } else if p3 < i < p3 + 1 + p.len() {
            assert(name[i] == p[i - p3 - 1]);
            assert(decimal::is_digit(p[i - p3 - 1]));
        }
    }
    if text::contains_of(name, mark) {
        let i = choose|i: int| text::occurs_at(name, mark, i);
        let at = name.subrange(i, i + mark.len());
        assert(at == mark);
        assert(mark[0] == '-');
        assert(mark[oid.len() as int + 1] == "-begin-"@[0]);
        assert(mark[oid.len() as int + 7] == "-begin-"@[6]);
        assert(at[0] == name[i]);
        assert(at[oid.len() as int + 1] == name[i + oid.len() + 1]);
        assert(at[oid.len() as int + 7] == name[i + oid.len() + 7]);
        assert(i == p1);
        assert(oid.len() == sid.len());
        assert forall|j: int| 0 <= j < oid.len() implies #[trigger] oid[j] == sid[j] by {
            assert(mark[j + 1] == oid[j]);
            assert(at[j + 1] == name[i + j + 1]);
            assert(name[p1 + 1 + j] == sid[j]);
        }
        assert(oid =~= sid);
        law_safe_ids_differ(other, id);
        assert(kind.len() == 5);
    }
    if kind == "begin"@ && other == id {
        assert("-begin-"@ =~= "-"@ + "begin"@ + "-"@);
        assert(name.subrange(p1, p1 + mark.len()) =~= mark);
        assert(text::occurs_at(name, mark, p1));
    }
}

/// Where one event alone is kept, the start of a command is found just where the event
/// is the start of that very command; a file that is still being written tells of none.
pub proof fn law_one_event_tells_of_one_start(
    nanos: nat,
    id: Seq<char>,
    kind: Seq<char>,
    pid: nat,
    other: Seq<char>,
)
    requires
        nanos <= u64::MAX,
        kind == "begin"@ || kind == "finish"@,
    ensures
        has_start(seq![entry_name_of(nanos, id, kind, pid)], other) == (kind == "begin"@ && other == id),
        !has_start(seq![entry_name_of(nanos, id, kind, pid) + ".tmp"@], other),
{
    reveal_strlit(".req");
    reveal_strlit(".tmp");
    law_only_its_start_is_found(nanos, id, kind, pid, other);
    let name = entry_name_of(nanos, id, kind, pid);
    let one = seq![name];
    if has_start(one, other) {
        let i = choose|i: int|
            0 <= i < one.len() && is_entry(#[trigger] one[i]) && text::contains_of(one[i], start_mark(other));
        assert(one[i] == name);
    }
    if kind == "begin"@ && other == id {
        law_spooled_start_is_found(one, 0, nanos, id, pid);
    }
    let tmp = name + ".tmp"@;
    if has_start(seq![tmp], other) {
        let i = choose|i: int|
            0 <= i < seq![tmp].len() && is_entry(#[trigger] seq![tmp][i]) && text::contains_of(
                seq![tmp][i],
                start_mark(other),
            );
        assert(seq![tmp][i] == tmp);
        let end = tmp.subrange(tmp.len() - 4, tmp.len() as int);
        assert(end[1] == tmp[tmp.len() - 3]);
        assert(".req"@[1] == 'r');
        assert(tmp[tmp.len() - 3] == ".tmp"@[1]);
    }
}

// ── Draining ────────────────────────────────────────────────────────────────

/// The spool on its way to the daemon's memory, the oldest event first.
#[derive(Debug)]
pub struct Drain {
    /// The names of the events, in the order of replay.
    pub names: Vec<String>,
    /// How many of them have been dealt with.
    pub at: usize,
    /// How many have been handed on.
    pub sent: usize,
    /// Whether nothing takes events any more.
    pub stopped: bool,
}

/// How many files have been dealt with, how many events have been handed on, and
/// whether nothing takes them any more.
pub struct Progress {
    pub at: nat,
    pub sent: nat,
    pub stopped: bool,
}

/// How far the drain is after one more file. An event that is not taken stops it there.
pub open spec fn after_file(p: Progress, replay: Replay, delivered: bool) -> Progress {
    if replay is Send && !delivered {
        Progress { stopped: true, ..p }
    } else {
        Progress {
            at: p.at + 1,
            sent: if replay is Send {
                p.sent + 1
            } else {
                p.sent
            },
            stopped: false,
        }
    }
}

/// Whether a file is removed once it was looked at: unless it is kept, or its event was
/// not taken.
pub open spec fn removes(replay: Replay, delivered: bool) -> bool {
    match replay {
        Replay::Keep => false,
        Replay::Discard => true,
        Replay::Send(_) => delivered,
    }
}

/// How far a drain of files that hold `replays` comes, where the first `takes` events
/// are taken and no more.
pub open spec fn drained(replays: Seq<Replay>, takes: nat) -> Progress
    decreases replays.len(),
{
    if replays.len() == 0 {
        Progress { at: 0, sent: 0, stopped: false }
    } else {
        let p = drained(replays.drop_last(), takes);
        if p.stopped {
            p
        } else {
            after_file(p, replays.last(), p.sent < takes)
        }
    }
}

/// How many of the files hold an event.
pub open spec fn events_in(replays: Seq<Replay>) -> nat
    decreases replays.len(),
{
    if replays.len() == 0 {
        0
    } else {
        events_in(replays.drop_last()) + if replays.last() is Send {
            1nat
        } else {
            0
        }
    }
}

impl Drain {
    /// No more have been handed on than have been dealt with.
    pub open spec fn wf(&self) -> bool {
        self.sent <= self.at <= self.names@.len()
    }

    /// The events among the files of the spool.
    pub fn new(names: &Vec<String>) -> (r: Drain)
        ensures
            r.wf(),
            order::sorted_of(kept_entries(text::views(names@)), text::views(r.names@)),
            r.at == 0,
            r.sent == 0,
            !r.stopped,
    {
        Drain { names: entries(names), at: 0, sent: 0, stopped: false }
    }

    /// The file to look at; none at the end, or once nothing takes events any more.
    pub fn next(&self) -> (r: Option<String>)
        requires
            self.wf(),
        ensures
            text::opt_view(r) == (if self.stopped || self.at == self.names@.len() {
                None
            } else {
                Some(self.names@[self.at as int]@)
            }),
    {
        if self.stopped || self.at >= self.names.len() {
            return None;
        }
        Some(owned(self.names[self.at].as_str()))
    }

    /// How far the drain is.
    pub open spec fn progress(&self) -> Progress {
        Progress { at: self.at as nat, sent: self.sent as nat, stopped: self.stopped }
    }

    /// The file has been looked at, and `delivered` tells whether its event, where it
    /// holds one, was taken. Whether the file is removed.
    pub fn done(&mut self, replay: &Replay, delivered: bool) -> (r: bool)
        requires
            old(self).wf(),
            !old(self).stopped,
            old(self).at < old(self).names@.len(),
        ensures
            final(self).wf(),
            final(self).names == old(self).names,
            final(self).progress() == after_file(old(self).progress(), *replay, delivered),
            r == removes(*replay, delivered),
    {
        let all: usize = self.names.len();
        proof {
            assert(self.at < all);
        }
        match replay {
            Replay::Keep => {
                self.at = self.at + 1;
                false
            },
            Replay::Discard => {
                self.at = self.at + 1;
                true
            },
            Replay::Send(_) => {
                if delivered {
                    self.at = self.at + 1;
                    self.sent = self.sent + 1;
                    true
                } else {
                    self.stopped = true;
                    false
                }
            },
        }
    }
}

/// As long as events are taken, every file is dealt with and every event handed on.
pub proof fn law_drain_hands_on_every_event(replays: Seq<Replay>, takes: nat)
    requires
        events_in(replays) <= takes,
    ensures
        drained(replays, takes) == (Progress {
            at: replays.len(),
            sent: events_in(replays),
            stopped: false,
        }),
    decreases replays.len(),
{
    if replays.len() > 0 {
        law_drain_hands_on_every_event(replays.drop_last(), takes);
    }
}

/// The first event that is not taken stops the drain: those before it were handed on,
/// and it and all that follows it stay.
pub proof fn law_drain_stops_at_what_is_not_taken(replays: Seq<Replay>, takes: nat)
    requires
        events_in(replays) > takes,
    ensures
        ({
            let p = drained(replays, takes);
            &&& p.stopped
            &&& p.sent == takes
            &&& p.at < replays.len()
            &&& replays[p.at as int] is Send
            &&& events_in(replays.take(p.at as int)) == takes
            &&& !removes(replays[p.at as int], false)
        }),
    decreases replays.len(),
{
    let init = replays.drop_last();
    if events_in(init) > takes {
        law_drain_stops_at_what_is_not_taken(init, takes);
        let p = drained(init, takes);
        assert(replays[p.at as int] == init[p.at as int]);
        assert(replays.take(p.at as int) =~= init.take(p.at as int));
    } else {
        law_drain_hands_on_every_event(init, takes);
        assert(replays.take(init.len() as int) =~= init);
        assert(replays[init.len() as int] == replays.last());
    }
}

} // verus!
