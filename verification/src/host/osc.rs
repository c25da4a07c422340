//! The semantic markers in the child's output: OSC 133 (prompt, command,
//! output, end) and OSC 7 (working directory), and the switches to and from
//! the alternate screen.

use vstd::prelude::*;
use vstd::utf8::*;
use crate::decimal;
use crate::decimal::parse_signed;
use crate::text;
use crate::text::{chars_of, position, str_eq, string_from_utf8, string_of_range, strip_prefix_str};

verus! {

/// What a marker says.
#[derive(Debug, Clone, PartialEq, Eq)]
pub enum OscEvent {
    PromptStart,
    CmdStart,
    OutputStart,
    CmdEnd(Option<i32>),
    /// The working directory, as an absolute path.
    Cwd(String),
}

pub enum OscEventView {
    PromptStart,
    CmdStart,
    OutputStart,
    CmdEnd(Option<i32>),
    Cwd(Seq<char>),
}

impl View for OscEvent {
    type V = OscEventView;

    open spec fn view(&self) -> OscEventView {
        match self {
            OscEvent::PromptStart => OscEventView::PromptStart,
            OscEvent::CmdStart => OscEventView::CmdStart,
            OscEvent::OutputStart => OscEventView::OutputStart,
            OscEvent::CmdEnd(c) => OscEventView::CmdEnd(*c),
            OscEvent::Cwd(p) => OscEventView::Cwd(p@),
        }
    }
}

// ── Payloads ────────────────────────────────────────────────────────────────

/// The exit code after `133;D`: `;` and a number.
pub open spec fn exit_code_of(tail: Seq<char>) -> Option<i32> {
    match text::strip_prefix_of(tail, ";"@) {
        Some(c) => match decimal::parse_signed_of(c, i32::MIN as int, i32::MAX as int) {
            Some(n) => Some(n as i32),
            None => None,
        },
        None => None,
    }
}

/// The event that the text of a payload holds.
pub open spec fn payload_event(s: Seq<char>) -> Option<OscEventView> {
    match text::strip_prefix_of(s, "133;"@) {
        Some(rest) => if rest == "A"@ {
            Some(OscEventView::PromptStart)
        } else if rest == "B"@ {
            Some(OscEventView::CmdStart)
        } else if rest == "C"@ {
            Some(OscEventView::OutputStart)
        } else {
            match text::strip_prefix_of(rest, "D"@) {
                Some(tail) => Some(OscEventView::CmdEnd(exit_code_of(tail))),
                None => None,
            }
        },
        None => match text::strip_prefix_of(s, "7;"@) {
            Some(r) => match text::strip_prefix_of(r, "file://"@) {
                Some(url) => if text::find_char(url, '/') < url.len() {
                    Some(OscEventView::Cwd(url.skip(text::find_char(url, '/') as int)))
                } else {
                    None
                },
                None => None,
            },
            None => None,
        },
    }
}

/// The event that a payload holds: none where it is not UTF-8.
pub open spec fn osc_event(buf: Seq<u8>) -> Option<OscEventView> {
    if valid_utf8(buf) {
        payload_event(decode_utf8(buf))
    } else {
        None
    }
}

pub open spec fn opt_event(e: Option<OscEvent>) -> Option<OscEventView> {
    match e {
        Some(e) => Some(e@),
        None => None,
    }
}

fn parse_payload(s: &str) -> (r: Option<OscEvent>)
    ensures
        opt_event(r) == payload_event(s@),
{
    match strip_prefix_str(s, "133;") {
        Some(rest) => {
            if str_eq(rest.as_str(), "A") {
                return Some(OscEvent::PromptStart);
            }
            if str_eq(rest.as_str(), "B") {
                return Some(OscEvent::CmdStart);
            }
            if str_eq(rest.as_str(), "C") {
                return Some(OscEvent::OutputStart);
            }
            match strip_prefix_str(rest.as_str(), "D") {
                Some(tail) => {
                    let code: Option<i32> = match strip_prefix_str(tail.as_str(), ";") {
                        Some(c) => match parse_signed(c.as_str(), i32::MIN as i64, i32::MAX as i64) {
                            Some(n) => Some(n as i32),
                            None => None,
                        },
                        None => None,
                    };
                    Some(OscEvent::CmdEnd(code))
                },
                None => None,
            }
        },
        None => match strip_prefix_str(s, "7;") {
            Some(r) => match strip_prefix_str(r.as_str(), "file://") {
                Some(url) => {
                    let v: Vec<char> = chars_of(url.as_str());
                    let n: usize = position(&v, '/');
                    proof {
                        text::lemma_find_char(v@, '/');
                    }
                    if n < v.len() {
                        proof {
                            assert(v@.skip(n as int) =~= v@.subrange(n as int, v@.len() as int));
                        }
                        Some(OscEvent::Cwd(string_of_range(&v, n, v.len())))
                    } else {
                        None
                    }
                },
                None => None,
            },
            None => None,
        },
    }
}

/// A copy of the bytes.
fn copied(buf: &[u8]) -> (r: Vec<u8>)
    ensures
        r@ == buf@,
{
    vstd::slice::slice_to_vec(buf)
}

/// The event that a payload (the bytes between `ESC ]` and `BEL`) holds.
pub fn parse_osc(buf: &[u8]) -> (r: Option<OscEvent>)
    ensures
        opt_event(r) == osc_event(buf@),
{
    match string_from_utf8(copied(buf)) {
        Some(s) => parse_payload(s.as_str()),
        None => None,
    }
}

// ── The scanner ─────────────────────────────────────────────────────────────

/// Where the scanner stands in the stream.
#[derive(Debug, Clone, Copy, PartialEq, Eq, Structural)]
pub enum OscState {
    Ground,
    Esc,
    Osc,
}

/// Finds `ESC ] … BEL` in a stream that comes in chunks. An escape inside a
/// payload abandons it, and so does a payload that runs past its limit.
#[derive(Debug)]
pub struct OscScanner {
    pub state: OscState,
    pub buf: Vec<u8>,
}

/// The most bytes of a payload.
pub const MAX_PAYLOAD: usize = 128;

pub struct ScannerView {
    pub state: OscState,
    pub buf: Seq<u8>,
}

impl View for OscScanner {
    type V = ScannerView;

    open spec fn view(&self) -> ScannerView {
        ScannerView { state: self.state, buf: self.buf@ }
    }
}

impl Default for OscScanner {
    fn default() -> (r: Self)
        ensures
            r@ == (ScannerView { state: OscState::Ground, buf: Seq::empty() }),
    {
        OscScanner { state: OscState::Ground, buf: Vec::new() }
    }
}

/// The scanner after one byte.
pub open spec fn after_byte(s: ScannerView, b: u8) -> ScannerView {
    match s.state {
        OscState::Ground => if b == 0x1b {
            ScannerView { state: OscState::Esc, ..s }
        } else {
            s
        },
        OscState::Esc => if b == 0x5d {
            ScannerView { state: OscState::Osc, buf: Seq::empty() }
        } else {
            ScannerView { state: OscState::Ground, ..s }
        },
        OscState::Osc => if b == 0x07 {
            ScannerView { state: OscState::Ground, buf: Seq::empty() }
        } else if b == 0x1b {
            ScannerView { state: OscState::Esc, buf: Seq::empty() }
        } else if s.buf.len() < MAX_PAYLOAD {
            ScannerView { buf: s.buf.push(b), ..s }
        } else {
            ScannerView { state: OscState::Ground, buf: Seq::empty() }
        },
    }
}

/// The event that one byte completes.
pub open spec fn event_at(s: ScannerView, b: u8) -> Option<OscEventView> {
    if s.state == OscState::Osc && b == 0x07 {
        osc_event(s.buf)
    } else {
        None
    }
}

/// The scanner after a chunk.
pub open spec fn after_chunk(s: ScannerView, chunk: Seq<u8>) -> ScannerView
    decreases chunk.len(),
{
    if chunk.len() == 0 {
        s
    } else {
        after_chunk(after_byte(s, chunk[0]), chunk.skip(1))
    }
}

/// The events that a chunk completes, each with the offset just past its
/// marker, counted from `base`.
pub open spec fn events_in(s: ScannerView, chunk: Seq<u8>, base: int) -> Seq<(int, OscEventView)>
    decreases chunk.len(),
{
    if chunk.len() == 0 {
        Seq::empty()
    } else {
        let rest = events_in(after_byte(s, chunk[0]), chunk.skip(1), base + 1);
        match event_at(s, chunk[0]) {
            Some(e) => seq![(base + 1, e)] + rest,
            None => rest,
        }
    }
}

pub open spec fn event_views(v: Seq<(usize, OscEvent)>) -> Seq<(int, OscEventView)> {
    Seq::new(v.len(), |i: int| (v[i].0 as int, v[i].1@))
}

impl OscScanner {
    /// Takes one byte of the stream.
    fn step(&mut self, b: u8) -> (r: Option<OscEvent>)
        ensures
            final(self)@ == after_byte(old(self)@, b),
            opt_event(r) == event_at(old(self)@, b),
    {
        match self.state {
            OscState::Ground => {
                if b == 0x1b {
                    self.state = OscState::Esc;
                }
                None
            },
            OscState::Esc => {
                if b == 0x5d {
                    self.state = OscState::Osc;
                    self.buf.clear();
                } else {
                    self.state = OscState::Ground;
                }
                None
            },
            OscState::Osc => {
                if b == 0x07 {
                    let ev: Option<OscEvent> = parse_osc(self.buf.as_slice());
                    self.state = OscState::Ground;
                    self.buf.clear();
                    ev
                } else if b == 0x1b {
                    self.state = OscState::Esc;
                    self.buf.clear();
                    None
                } else if self.buf.len() < MAX_PAYLOAD {
                    self.buf.push(b);
                    None
                } else {
                    self.state = OscState::Ground;
                    self.buf.clear();
                    None
                }
            },
        }
    }

    /// Takes a chunk of the stream and appends the events that it completes,
    /// each with the offset just past its marker.
    pub fn feed(&mut self, chunk: &[u8], out: &mut Vec<(usize, OscEvent)>)
        ensures
            final(self)@ == after_chunk(old(self)@, chunk@),
            event_views(final(out)@) == event_views(old(out)@) + events_in(old(self)@, chunk@, 0),
    {
        let mut i: usize = 0;
        let ghost start = event_views(out@);
        proof {
            assert(chunk@.skip(0) =~= chunk@);
        }
        while i < chunk.len()
            invariant
                i <= chunk@.len(),
                start == event_views(old(out)@),
                after_chunk(self@, chunk@.skip(i as int)) == after_chunk(old(self)@, chunk@),
                event_views(out@) + events_in(self@, chunk@.skip(i as int), i as int) == start
                    + events_in(old(self)@, chunk@, 0),
            decreases chunk@.len() - i,
        {
            let ghost s = self@;
            let ghost rest = chunk@.skip(i as int);
            let ghost before = event_views(out@);
            let b: u8 = chunk[i];
            proof {
                assert(rest[0] == b);
                assert(rest.skip(1) =~= chunk@.skip(i as int + 1));
            }
            match self.step(b) {
                Some(ev) => {
                    let ghost e = ev@;
                    out.push((i + 1, ev));
                    proof {
                        let tail = events_in(self@, rest.skip(1), i + 1);
                        assert(event_views(out@) =~= before + seq![(i + 1, e)]);
                        assert(event_views(out@) + tail =~= before + (seq![(i + 1, e)] + tail));
                    }
                },
                None => {},
            }
            i += 1;
        }
        proof {
            assert(chunk@.skip(i as int).len() == 0);
            assert(event_views(out@) + events_in(self@, chunk@.skip(i as int), i as int)
                =~= event_views(out@));
        }
    }
}

/// How the stream is cut into chunks does not matter: scanning one chunk and
/// then another leaves the scanner where scanning both at once leaves it.
pub proof fn law_chunks_scan_as_one(s: ScannerView, a: Seq<u8>, b: Seq<u8>)
    ensures
        after_chunk(s, a + b) == after_chunk(after_chunk(s, a), b),
    decreases a.len(),
{
    if a.len() == 0 {
        assert(a + b =~= b);
    } else {
        assert((a + b)[0] == a[0]);
        assert((a + b).skip(1) =~= a.skip(1) + b);
        law_chunks_scan_as_one(after_byte(s, a[0]), a.skip(1), b);
    }
}

/// Nor does it matter for the events: those of the two chunks together are
/// those of the first and then those of the second, whose offsets count on from
/// the end of the first. A marker that is split between chunks is found.
pub proof fn law_chunks_give_the_same_events(s: ScannerView, a: Seq<u8>, b: Seq<u8>, base: int)
    ensures
        events_in(s, a + b, base) == events_in(s, a, base) + events_in(
            after_chunk(s, a),
            b,
            base + a.len(),
        ),
    decreases a.len(),
{
    if a.len() == 0 {
        assert(a + b =~= b);
        assert(events_in(s, a, base) + events_in(s, b, base) =~= events_in(s, b, base));
    } else {
        assert((a + b)[0] == a[0]);
        assert((a + b).skip(1) =~= a.skip(1) + b);
        let s1 = after_byte(s, a[0]);
        law_chunks_give_the_same_events(s1, a.skip(1), b, base + 1);
        let x = events_in(s1, a.skip(1), base + 1);
        let y = events_in(after_chunk(s, a), b, base + a.len());
        if let Some(e) = event_at(s, a[0]) {
            assert(seq![(base + 1, e)] + (x + y) =~= seq![(base + 1, e)] + x + y);
        }
    }
}

/// Offsets count from the start of the chunk: a base only shifts them.
pub proof fn law_base_shifts_offsets(s: ScannerView, chunk: Seq<u8>, base: int)
    ensures
        events_in(s, chunk, base).len() == events_in(s, chunk, 0).len(),
        forall|i: int|
            0 <= i < events_in(s, chunk, base).len() ==> (#[trigger] events_in(s, chunk, base)[i]).0
                == events_in(s, chunk, 0)[i].0 + base && events_in(s, chunk, base)[i].1
                == events_in(s, chunk, 0)[i].1,
    decreases chunk.len(),
{
    if chunk.len() > 0 {
        let s1 = after_byte(s, chunk[0]);
        law_base_shifts_offsets(s1, chunk.skip(1), base + 1);
        law_base_shifts_offsets(s1, chunk.skip(1), 1);
        let x = events_in(s1, chunk.skip(1), base + 1);
        let y = events_in(s1, chunk.skip(1), 1);
        assert forall|i: int| 0 <= i < events_in(s, chunk, base).len() implies (
        #[trigger] events_in(s, chunk, base)[i]).0 == events_in(s, chunk, 0)[i].0 + base
            && events_in(s, chunk, base)[i].1 == events_in(s, chunk, 0)[i].1 by {
            let z = events_in(s1, chunk.skip(1), 0);
            if event_at(s, chunk[0]) is Some {
                if i > 0 {
                    assert(events_in(s, chunk, base)[i] == x[i - 1]);
                    assert(events_in(s, chunk, 0)[i] == y[i - 1]);
                }
            } else {
                assert(events_in(s, chunk, base)[i] == x[i]);
                assert(events_in(s, chunk, 0)[i] == y[i]);
            }
        }
    }
}

/// Every offset lies just past a byte of the chunk, and the offsets grow.
pub proof fn law_offsets_are_in_the_chunk(s: ScannerView, chunk: Seq<u8>, base: int)
    ensures
        forall|i: int|
            0 <= i < events_in(s, chunk, base).len() ==> base < (#[trigger] events_in(
                s,
                chunk,
                base,
            )[i]).0 <= base + chunk.len(),
        forall|i: int, j: int|
            0 <= i < j < events_in(s, chunk, base).len() ==> (#[trigger] events_in(
                s,
                chunk,
                base,
            )[i]).0 < (#[trigger] events_in(s, chunk, base)[j]).0,
    decreases chunk.len(),
{
    if chunk.len() > 0 {
        let s1 = after_byte(s, chunk[0]);
        law_offsets_are_in_the_chunk(s1, chunk.skip(1), base + 1);
        let all = events_in(s, chunk, base);
        let rest = events_in(s1, chunk.skip(1), base + 1);
        let d: int = if event_at(s, chunk[0]) is Some {
            1
        } else {
            0
        };
        assert forall|i: int| 0 <= i < all.len() implies base < (#[trigger] all[i]).0 <= base
            + chunk.len() by {
            if i >= d {
                assert(all[i] == rest[i - d]);
            }
        }
        assert forall|i: int, j: int| 0 <= i < j < all.len() implies (#[trigger] all[i]).0 < (
        #[trigger] all[j]).0 by {
            assert(all[j] == rest[j - d]);
            if i >= d {
                assert(all[i] == rest[i - d]);
            }
        }
    }
}

// ── The alternate screen ────────────────────────────────────────────────────

/// Whether `needle` stands in `hay` at position `i`.
pub open spec fn stands_at(hay: Seq<u8>, needle: Seq<u8>, i: int) -> bool {
    0 <= i && i + needle.len() <= hay.len() && hay.subrange(i, i + needle.len()) == needle
}

/// The last position before `n` at which `needle` stands in `hay`.
pub open spec fn last_before(hay: Seq<u8>, needle: Seq<u8>, n: int) -> Option<int>
    decreases n,
{
    if n <= 0 {
        None
    } else if stands_at(hay, needle, n - 1) {
        Some(n - 1)
    } else {
        last_before(hay, needle, n - 1)
    }
}

/// The last position at which `needle` stands in `hay`; none for an empty one.
pub open spec fn last_index(hay: Seq<u8>, needle: Seq<u8>) -> Option<int> {
    if needle.len() == 0 || hay.len() < needle.len() {
        None
    } else {
        last_before(hay, needle, hay.len() - needle.len() + 1)
    }
}

pub open spec fn opt_int(o: Option<usize>) -> Option<int> {
    match o {
        Some(n) => Some(n as int),
        None => None,
    }
}

fn bytes_match_at(hay: &[u8], needle: &[u8], i: usize) -> (r: bool)
    requires
        i + needle@.len() <= hay@.len(),
    ensures
        r == stands_at(hay@, needle@, i as int),
{
    let mut j: usize = 0;
    while j < needle.len()
        invariant
            i + needle@.len() <= hay.len(),
            j <= needle@.len(),
            forall|k: int| 0 <= k < j ==> hay@[i + k] == needle@[k],
        decreases needle@.len() - j,
    {
        if hay[i + j] != needle[j] {
            proof {
                assert(hay@.subrange(i as int, i + needle@.len())[j as int] == hay@[i + j]);
            }
            return false;
        }
        j += 1;
    }
    proof {
        assert(hay@.subrange(i as int, i + needle@.len()) =~= needle@);
    }
    true
}

/// The last position at which `needle` stands in `hay`.
pub fn last_index_of(hay: &[u8], needle: &[u8]) -> (r: Option<usize>)
    ensures
        opt_int(r) == last_index(hay@, needle@),
{
    if needle.len() == 0 || hay.len() < needle.len() {
        return None;
    }
    let mut n: usize = hay.len() - needle.len();
    if bytes_match_at(hay, needle, n) {
        return Some(n);
    }
    while n > 0
        invariant
            0 < needle@.len(),
            n + needle@.len() <= hay@.len(),
            last_index(hay@, needle@) == last_before(hay@, needle@, n as int),
        decreases n,
    {
        n -= 1;
        if bytes_match_at(hay, needle, n) {
            return Some(n);
        }
    }
    None
}

/// A match is found where there is one, and the last of them.
pub proof fn law_last_index_is_the_last(hay: Seq<u8>, needle: Seq<u8>, i: int)
    requires
        needle.len() > 0,
        stands_at(hay, needle, i),
    ensures
        last_index(hay, needle) matches Some(k) && i <= k && stands_at(hay, needle, k),
{
    lemma_last_before(hay, needle, hay.len() - needle.len() + 1, i);
}

proof fn lemma_last_before(hay: Seq<u8>, needle: Seq<u8>, n: int, i: int)
    requires
        stands_at(hay, needle, i),
        i < n,
    ensures
        last_before(hay, needle, n) matches Some(k) && i <= k && stands_at(hay, needle, k),
    decreases n,
{
    if !stands_at(hay, needle, n - 1) {
        lemma_last_before(hay, needle, n - 1, i);
    }
}

pub open spec fn later(a: Option<int>, b: Option<int>) -> Option<int> {
    match (a, b) {
        (Some(x), Some(y)) => if x >= y {
            Some(x)
        } else {
            Some(y)
        },
        (Some(x), None) => Some(x),
        (None, b) => b,
    }
}

/// The last entry to the alternate screen: private mode 1049, 1047 or 47.
pub open spec fn last_enter(chunk: Seq<u8>) -> Option<int> {
    later(
        later(
            last_index(chunk, encode_utf8("\x1b[?1049h"@)),
            last_index(chunk, encode_utf8("\x1b[?1047h"@)),
        ),
        last_index(chunk, encode_utf8("\x1b[?47h"@)),
    )
}

/// The last exit from the alternate screen.
pub open spec fn last_exit(chunk: Seq<u8>) -> Option<int> {
    later(
        later(
            last_index(chunk, encode_utf8("\x1b[?1049l"@)),
            last_index(chunk, encode_utf8("\x1b[?1047l"@)),
        ),
        last_index(chunk, encode_utf8("\x1b[?47l"@)),
    )
}

/// Whether the alternate screen is on after a chunk: the later of the last
/// entry and the last exit decides, and without either nothing changes.
pub open spec fn alt_after(chunk: Seq<u8>, current: bool) -> bool {
    match (last_enter(chunk), last_exit(chunk)) {
        (Some(e), Some(x)) => e > x,
        (Some(_), None) => true,
        (None, Some(_)) => false,
        (None, None) => current,
    }
}

fn max_index(a: Option<usize>, b: Option<usize>) -> (r: Option<usize>)
    ensures
        opt_int(r) == later(opt_int(a), opt_int(b)),
{
    match (a, b) {
        (Some(x), Some(y)) => if x >= y {
            Some(x)
        } else {
            Some(y)
        },
        (Some(x), None) => Some(x),
        (None, b) => b,
    }
}

fn last_of_three(chunk: &[u8], a: &str, b: &str, c: &str) -> (r: Option<usize>)
    ensures
        opt_int(r) == later(
            later(last_index(chunk@, encode_utf8(a@)), last_index(chunk@, encode_utf8(b@))),
            last_index(chunk@, encode_utf8(c@)),
        ),
{
    max_index(
        max_index(last_index_of(chunk, a.as_bytes()), last_index_of(chunk, b.as_bytes())),
        last_index_of(chunk, c.as_bytes()),
    )
}

/// Whether the alternate screen is on after `chunk`.
pub fn scan_alt_screen(chunk: &[u8], current: bool) -> (r: bool)
    ensures
        r == alt_after(chunk@, current),
{
    let enter: Option<usize> = last_of_three(
        chunk,
        "\x1b[?1049h",
        "\x1b[?1047h",
        "\x1b[?47h",
    );
    let exit: Option<usize> = last_of_three(chunk, "\x1b[?1049l", "\x1b[?1047l", "\x1b[?47l");
    match (enter, exit) {
        (Some(e), Some(x)) => e > x,
        (Some(_), None) => true,
        (None, Some(_)) => false,
        (None, None) => current,
    }
}

/// The markers of a shell are read as they are written: A starts a prompt, B the
/// command, C its output, and D ends it with the exit code that follows, whatever that
/// is.
pub proof fn law_lifecycle_markers_read_back(code: i32)
    ensures
        payload_event("133;A"@) == Some(OscEventView::PromptStart),
        payload_event("133;B"@) == Some(OscEventView::CmdStart),
        payload_event("133;C"@) == Some(OscEventView::OutputStart),
        payload_event("133;D"@) == Some(OscEventView::CmdEnd(None)),
        payload_event("133;D;"@ + decimal::dec_int(code as int)) == Some(OscEventView::CmdEnd(Some(code))),
{
    reveal_strlit("133;");
    reveal_strlit("133;A");
    reveal_strlit("133;B");
    reveal_strlit("133;C");
    reveal_strlit("133;D");
    reveal_strlit("133;D;");
    reveal_strlit("A");
    reveal_strlit("B");
    reveal_strlit("C");
    reveal_strlit("D");
    reveal_strlit(";");
    lemma_strip("133;"@, "A"@, "133;A"@);
    lemma_strip("133;"@, "B"@, "133;B"@);
    lemma_strip("133;"@, "C"@, "133;C"@);
    lemma_strip("133;"@, "D"@, "133;D"@);
    assert("A"@[0] != "B"@[0] && "A"@[0] != "C"@[0] && "B"@[0] != "C"@[0]);
    assert("D"@[0] != "A"@[0] && "D"@[0] != "B"@[0] && "D"@[0] != "C"@[0]);
    let none = Seq::<char>::empty();
    lemma_strip("D"@, none, "D"@);
    assert(text::strip_prefix_of(none, ";"@) is None);
    let n = decimal::dec_int(code as int);
    let s = "133;D;"@ + n;
    let rest = "D"@ + (";"@ + n);
    assert(s =~= "133;"@ + rest);
    lemma_strip("133;"@, rest, s);
    lemma_strip("D"@, ";"@ + n, rest);
    lemma_strip(";"@, n, ";"@ + n);
    assert(rest[0] == 'D');
    decimal::law_parse_signed_reads_back(code as int, i32::MIN as int, i32::MAX as int);
}

proof fn lemma_strip(p: Seq<char>, rest: Seq<char>, s: Seq<char>)
    requires
        s =~= p + rest,
    ensures
        text::strip_prefix_of(s, p) == Some(rest),
{
    assert(s.subrange(0, p.len() as int) =~= p);
    assert(s.skip(p.len() as int) =~= rest);
}

/// The directory that a shell reports is the path of the URL, whatever host it names.
pub proof fn law_directory_reads_back(host: Seq<char>, path: Seq<char>)
    requires
        forall|i: int| 0 <= i < host.len() ==> #[trigger] host[i] != '/',
        path.len() > 0,
        path[0] == '/',
    ensures
        payload_event("7;file://"@ + host + path) == Some(OscEventView::Cwd(path)),
{
    reveal_strlit("133;");
    reveal_strlit("7;");
    reveal_strlit("file://");
    reveal_strlit("7;file://");
    let s = "7;file://"@ + host + path;
    assert(s[0] == '7');
    if text::starts_with_of(s, "133;"@) {
        assert(s.subrange(0, 4)[0] == s[0]);
    }
    let url = host + path;
    assert(s =~= "7;"@ + ("file://"@ + url));
    lemma_strip("7;"@, "file://"@ + url, s);
    lemma_strip("file://"@, url, "file://"@ + url);
    assert(url =~= host + seq!['/'] + path.skip(1));
    text::lemma_find_char_at(host, '/', path.skip(1));
    assert(url.skip(host.len() as int) =~= path);
}

/// What is no marker and no directory is no event.
pub proof fn law_other_payloads_say_nothing(s: Seq<char>)
    requires
        !text::starts_with_of(s, "133;"@),
        !text::starts_with_of(s, "7;file://"@),
    ensures
        payload_event(s) is None,
{
    reveal_strlit("7;");
    reveal_strlit("file://");
    reveal_strlit("7;file://");
    if let Some(r) = text::strip_prefix_of(s, "7;"@) {
        if text::starts_with_of(r, "file://"@) {
            assert(s.subrange(0, 9) =~= s.subrange(0, 2) + r.subrange(0, 7));
            assert(s.subrange(0, 9) =~= "7;file://"@);
        }
    }
}

proof fn lemma_payload(s: ScannerView, p: Seq<u8>, base: int)
    requires
        s.state == OscState::Osc,
        s.buf.len() + p.len() <= MAX_PAYLOAD,
        forall|i: int| 0 <= i < p.len() ==> #[trigger] p[i] != 0x07 && p[i] != 0x1b,
    ensures
        events_in(s, p + seq![0x07u8], base) == (match osc_event(s.buf + p) {
            Some(e) => seq![(base + p.len() as int + 1, e)],
            None => Seq::empty(),
        }),
        after_chunk(s, p + seq![0x07u8]) == (ScannerView { state: OscState::Ground, buf: Seq::empty() }),
    decreases p.len(),
{
    let all = p + seq![0x07u8];
    reveal_with_fuel(events_in, 2);
    reveal_with_fuel(after_chunk, 2);
    if p.len() == 0 {
        assert(all.skip(1) =~= Seq::<u8>::empty());
        assert(s.buf + p =~= s.buf);
        assert(all[0] == 0x07);
        match osc_event(s.buf) {
            Some(e) => {
                assert(seq![(base + 1, e)] + Seq::<(int, OscEventView)>::empty() =~= seq![(base + 1, e)]);
            },
            None => {},
        }
    } else {
        assert(all[0] == p[0]);
        let more = p.skip(1);
        assert(all.skip(1) =~= more + seq![0x07u8]);
        let next = after_byte(s, p[0]);
        assert(next.buf == s.buf.push(p[0]));
        assert(next.buf + more =~= s.buf + p);
        assert forall|i: int| 0 <= i < more.len() implies #[trigger] more[i] != 0x07 && more[i] != 0x1b by {
            assert(more[i] == p[i + 1]);
        }
        lemma_payload(next, more, base + 1);
    }
}

/// Between the two bytes that open a control string and the bell that closes it, up to
/// 128 bytes are its payload, and the event that the payload denotes is found just
/// behind the bell. Whatever it denotes, the scanner then looks for the next one.
pub proof fn law_payload_is_found_behind_the_bell(s: ScannerView, p: Seq<u8>, base: int)
    requires
        s.state == OscState::Ground,
        p.len() <= 128,
        forall|i: int| 0 <= i < p.len() ==> #[trigger] p[i] != 0x07 && p[i] != 0x1b,
    ensures
        events_in(s, seq![0x1bu8, 0x5du8] + p + seq![0x07u8], base) == (match osc_event(p) {
            Some(e) => seq![(base + p.len() as int + 3, e)],
            None => Seq::empty(),
        }),
        after_chunk(s, seq![0x1bu8, 0x5du8] + p + seq![0x07u8]) == (ScannerView {
            state: OscState::Ground,
            buf: Seq::empty(),
        }),
{
    let all = seq![0x1bu8, 0x5du8] + p + seq![0x07u8];
    let rest = p + seq![0x07u8];
    assert(all[0] == 0x1b);
    assert(all.skip(1)[0] == 0x5d);
    assert(all.skip(1).skip(1) =~= rest);
    let one = after_byte(s, 0x1b);
    let two = after_byte(one, 0x5d);
    assert(two == (ScannerView { state: OscState::Osc, buf: Seq::empty() }));
    assert(Seq::<u8>::empty() + p =~= p);
    lemma_payload(two, p, base + 2);
    reveal_with_fuel(events_in, 3);
    reveal_with_fuel(after_chunk, 3);
}

/// Text that opens no control string says nothing, and leaves the scanner as it was.
pub proof fn law_plain_output_says_nothing(s: ScannerView, chunk: Seq<u8>, base: int)
    requires
        s.state == OscState::Ground,
        forall|i: int| 0 <= i < chunk.len() ==> #[trigger] chunk[i] != 0x1b,
    ensures
        events_in(s, chunk, base).len() == 0,
        after_chunk(s, chunk) == s,
    decreases chunk.len(),
{
    if chunk.len() > 0 {
        let more = chunk.skip(1);
        assert(chunk[0] != 0x1b);
        assert forall|i: int| 0 <= i < more.len() implies #[trigger] more[i] != 0x1b by {
            assert(more[i] == chunk[i + 1]);
        }
        law_plain_output_says_nothing(s, more, base + 1);
    }
}

proof fn lemma_switch_bytes()
    ensures
        encode_utf8("\x1b[?1049h"@) == seq![27u8, 91u8, 63u8, 49u8, 48u8, 52u8, 57u8, 104u8],
        encode_utf8("\x1b[?1047h"@) == seq![27u8, 91u8, 63u8, 49u8, 48u8, 52u8, 55u8, 104u8],
        encode_utf8("\x1b[?47h"@) == seq![27u8, 91u8, 63u8, 52u8, 55u8, 104u8],
        encode_utf8("\x1b[?1049l"@) == seq![27u8, 91u8, 63u8, 49u8, 48u8, 52u8, 57u8, 108u8],
        encode_utf8("\x1b[?1047l"@) == seq![27u8, 91u8, 63u8, 49u8, 48u8, 52u8, 55u8, 108u8],
        encode_utf8("\x1b[?47l"@) == seq![27u8, 91u8, 63u8, 52u8, 55u8, 108u8],
{
    reveal_strlit("\x1b[?1049h");
    assert(is_ascii_chars("\x1b[?1049h"@));
    is_ascii_chars_encode_utf8("\x1b[?1049h"@);
    assert(encode_utf8("\x1b[?1049h"@) =~= seq![27u8, 91u8, 63u8, 49u8, 48u8, 52u8, 57u8, 104u8]) by {
        let e = encode_utf8("\x1b[?1049h"@);
        assert("\x1b[?1049h"@[0] == '\x1b' && e[0] == '\x1b' as u8);
        assert("\x1b[?1049h"@[1] == '[' && e[1] == '[' as u8);
        assert("\x1b[?1049h"@[2] == '?' && e[2] == '?' as u8);
        assert("\x1b[?1049h"@[3] == '1' && e[3] == '1' as u8);
        assert("\x1b[?1049h"@[4] == '0' && e[4] == '0' as u8);
        assert("\x1b[?1049h"@[5] == '4' && e[5] == '4' as u8);
        assert("\x1b[?1049h"@[6] == '9' && e[6] == '9' as u8);
        assert("\x1b[?1049h"@[7] == 'h' && e[7] == 'h' as u8);
    }
    reveal_strlit("\x1b[?1047h");
    assert(is_ascii_chars("\x1b[?1047h"@));
    is_ascii_chars_encode_utf8("\x1b[?1047h"@);
    assert(encode_utf8("\x1b[?1047h"@) =~= seq![27u8, 91u8, 63u8, 49u8, 48u8, 52u8, 55u8, 104u8]) by {
        let e = encode_utf8("\x1b[?1047h"@);
        assert("\x1b[?1047h"@[0] == '\x1b' && e[0] == '\x1b' as u8);
        assert("\x1b[?1047h"@[1] == '[' && e[1] == '[' as u8);
        assert("\x1b[?1047h"@[2] == '?' && e[2] == '?' as u8);
        assert("\x1b[?1047h"@[3] == '1' && e[3] == '1' as u8);
        assert("\x1b[?1047h"@[4] == '0' && e[4] == '0' as u8);
        assert("\x1b[?1047h"@[5] == '4' && e[5] == '4' as u8);
        assert("\x1b[?1047h"@[6] == '7' && e[6] == '7' as u8);
        assert("\x1b[?1047h"@[7] == 'h' && e[7] == 'h' as u8);
    }
    reveal_strlit("\x1b[?47h");
    assert(is_ascii_chars("\x1b[?47h"@));
    is_ascii_chars_encode_utf8("\x1b[?47h"@);
    assert(encode_utf8("\x1b[?47h"@) =~= seq![27u8, 91u8, 63u8, 52u8, 55u8, 104u8]) by {
        let e = encode_utf8("\x1b[?47h"@);
        assert("\x1b[?47h"@[0] == '\x1b' && e[0] == '\x1b' as u8);
        assert("\x1b[?47h"@[1] == '[' && e[1] == '[' as u8);
        assert("\x1b[?47h"@[2] == '?' && e[2] == '?' as u8);
        assert("\x1b[?47h"@[3] == '4' && e[3] == '4' as u8);
        assert("\x1b[?47h"@[4] == '7' && e[4] == '7' as u8);
        assert("\x1b[?47h"@[5] == 'h' && e[5] == 'h' as u8);
    }
    reveal_strlit("\x1b[?1049l");
    assert(is_ascii_chars("\x1b[?1049l"@));
    is_ascii_chars_encode_utf8("\x1b[?1049l"@);
    assert(encode_utf8("\x1b[?1049l"@) =~= seq![27u8, 91u8, 63u8, 49u8, 48u8, 52u8, 57u8, 108u8]) by {
        let e = encode_utf8("\x1b[?1049l"@);
        assert("\x1b[?1049l"@[0] == '\x1b' && e[0] == '\x1b' as u8);
        assert("\x1b[?1049l"@[1] == '[' && e[1] == '[' as u8);
        assert("\x1b[?1049l"@[2] == '?' && e[2] == '?' as u8);
        assert("\x1b[?1049l"@[3] == '1' && e[3] == '1' as u8);
        assert("\x1b[?1049l"@[4] == '0' && e[4] == '0' as u8);
        assert("\x1b[?1049l"@[5] == '4' && e[5] == '4' as u8);
        assert("\x1b[?1049l"@[6] == '9' && e[6] == '9' as u8);
        assert("\x1b[?1049l"@[7] == 'l' && e[7] == 'l' as u8);
    }
    reveal_strlit("\x1b[?1047l");
    assert(is_ascii_chars("\x1b[?1047l"@));
    is_ascii_chars_encode_utf8("\x1b[?1047l"@);
    assert(encode_utf8("\x1b[?1047l"@) =~= seq![27u8, 91u8, 63u8, 49u8, 48u8, 52u8, 55u8, 108u8]) by {
        let e = encode_utf8("\x1b[?1047l"@);
        assert("\x1b[?1047l"@[0] == '\x1b' && e[0] == '\x1b' as u8);
        assert("\x1b[?1047l"@[1] == '[' && e[1] == '[' as u8);
        assert("\x1b[?1047l"@[2] == '?' && e[2] == '?' as u8);
        assert("\x1b[?1047l"@[3] == '1' && e[3] == '1' as u8);
        assert("\x1b[?1047l"@[4] == '0' && e[4] == '0' as u8);
        assert("\x1b[?1047l"@[5] == '4' && e[5] == '4' as u8);
        assert("\x1b[?1047l"@[6] == '7' && e[6] == '7' as u8);
        assert("\x1b[?1047l"@[7] == 'l' && e[7] == 'l' as u8);
    }
    reveal_strlit("\x1b[?47l");
    assert(is_ascii_chars("\x1b[?47l"@));
    is_ascii_chars_encode_utf8("\x1b[?47l"@);
    assert(encode_utf8("\x1b[?47l"@) =~= seq![27u8, 91u8, 63u8, 52u8, 55u8, 108u8]) by {
        let e = encode_utf8("\x1b[?47l"@);
        assert("\x1b[?47l"@[0] == '\x1b' && e[0] == '\x1b' as u8);
        assert("\x1b[?47l"@[1] == '[' && e[1] == '[' as u8);
        assert("\x1b[?47l"@[2] == '?' && e[2] == '?' as u8);
        assert("\x1b[?47l"@[3] == '4' && e[3] == '4' as u8);
        assert("\x1b[?47l"@[4] == '7' && e[4] == '7' as u8);
        assert("\x1b[?47l"@[5] == 'l' && e[5] == 'l' as u8);
    }
}

/// Whether only the first byte of some is an escape.
spec fn one_escape(b: Seq<u8>) -> bool {
    b.len() > 0 && b[0] == 0x1b && forall|i: int| 0 < i < b.len() ==> #[trigger] b[i] != 0x1b
}

/// Where bytes end with a switch, another one can only stand before it.
proof fn lemma_switch_is_last(chunk: Seq<u8>, own: Seq<u8>, other: Seq<u8>)
    requires
        one_escape(own),
        one_escape(other),
        !stands_at(own, other, 0),
    ensures
        last_index(chunk + own, own) == Some(chunk.len() as int),
        last_index(chunk + own, other) matches Some(k) ==> k < chunk.len(),
{
    let all = chunk + own;
    assert(all.subrange(chunk.len() as int, all.len() as int) =~= own);
    assert(stands_at(all, own, chunk.len() as int));
    law_last_index_is_the_last(all, own, chunk.len() as int);
    if let Some(k) = last_index(all, other) {
        lemma_found(all, other, all.len() - other.len() + 1);
        assert(stands_at(all, other, k));
        assert(all.subrange(k, k + other.len())[0] == all[k]);
        if k > chunk.len() {
            assert(all[k] == own[k - chunk.len()]);
        }
        if k == chunk.len() {
            assert(own.subrange(0, other.len() as int) =~= all.subrange(k, k + other.len()));
        }
    }
}

proof fn lemma_found(hay: Seq<u8>, needle: Seq<u8>, n: int)
    ensures
        last_before(hay, needle, n) matches Some(k) ==> stands_at(hay, needle, k) && k < n,
    decreases n,
{
    if n > 0 && !stands_at(hay, needle, n - 1) {
        lemma_found(hay, needle, n - 1);
    }
}

/// A switch of the alternate screen: one escape at its start, and its last byte tells
/// an entry from an exit.
spec fn is_switch(b: Seq<u8>, last: u8) -> bool {
    one_escape(b) && b.last() == last && forall|i: int|
        0 <= i < b.len() - 1 ==> #[trigger] b[i] != 104 && b[i] != 108
}

proof fn lemma_switches()
    ensures
        is_switch(encode_utf8("\x1b[?1049h"@), 104),
        is_switch(encode_utf8("\x1b[?1047h"@), 104),
        is_switch(encode_utf8("\x1b[?47h"@), 104),
        is_switch(encode_utf8("\x1b[?1049l"@), 108),
        is_switch(encode_utf8("\x1b[?1047l"@), 108),
        is_switch(encode_utf8("\x1b[?47l"@), 108),
{
    lemma_switch_bytes();
}

/// Where a stream ends with an entry to the alternate screen, by any of its three
/// names, a full-screen program has the terminal, and where it ends with an exit, none
/// has, whatever came before.
pub proof fn law_last_switch_decides(chunk: Seq<u8>, current: bool)
    ensures
        alt_after(chunk + encode_utf8("\x1b[?1049h"@), current),
        alt_after(chunk + encode_utf8("\x1b[?1047h"@), current),
        alt_after(chunk + encode_utf8("\x1b[?47h"@), current),
        !alt_after(chunk + encode_utf8("\x1b[?1049l"@), current),
        !alt_after(chunk + encode_utf8("\x1b[?1047l"@), current),
        !alt_after(chunk + encode_utf8("\x1b[?47l"@), current),
{
    lemma_switches();
    let a = encode_utf8("\x1b[?1049h"@);
    let b = encode_utf8("\x1b[?1047h"@);
    let c = encode_utf8("\x1b[?47h"@);
    let x = encode_utf8("\x1b[?1049l"@);
    let y = encode_utf8("\x1b[?1047l"@);
    let z = encode_utf8("\x1b[?47l"@);
    assert(alt_after(chunk + a, current)) by {
        lemma_switch_against(chunk, a, x, y, z);
    }
    assert(alt_after(chunk + b, current)) by {
        lemma_switch_against(chunk, b, x, y, z);
    }
    assert(alt_after(chunk + c, current)) by {
        lemma_switch_against(chunk, c, x, y, z);
    }
    assert(!alt_after(chunk + x, current)) by {
        lemma_switch_against(chunk, x, a, b, c);
    }
    assert(!alt_after(chunk + y, current)) by {
        lemma_switch_against(chunk, y, a, b, c);
    }
    assert(!alt_after(chunk + z, current)) by {
        lemma_switch_against(chunk, z, a, b, c);
    }
}

proof fn lemma_switch_against(chunk: Seq<u8>, own: Seq<u8>, p: Seq<u8>, q: Seq<u8>, r: Seq<u8>)
    requires
        is_switch(own, 104) && is_switch(p, 108) && is_switch(q, 108) && is_switch(r, 108) || (is_switch(
            own,
            108,
        ) && is_switch(p, 104) && is_switch(q, 104) && is_switch(r, 104)),
    ensures
        last_index(chunk + own, own) == Some(chunk.len() as int),
        last_index(chunk + own, p) matches Some(k) ==> k < chunk.len(),
        last_index(chunk + own, q) matches Some(k) ==> k < chunk.len(),
        last_index(chunk + own, r) matches Some(k) ==> k < chunk.len(),
{
    assert(!stands_at(own, p, 0)) by {
        if stands_at(own, p, 0) {
            assert(own.subrange(0, p.len() as int).last() == own[p.len() - 1]);
        }
    }
    assert(!stands_at(own, q, 0)) by {
        if stands_at(own, q, 0) {
            assert(own.subrange(0, q.len() as int).last() == own[q.len() - 1]);
        }
    }
    assert(!stands_at(own, r, 0)) by {
        if stands_at(own, r, 0) {
            assert(own.subrange(0, r.len() as int).last() == own[r.len() - 1]);
        }
    }
    lemma_switch_is_last(chunk, own, p);
    lemma_switch_is_last(chunk, own, q);
    lemma_switch_is_last(chunk, own, r);
}

} // verus!
