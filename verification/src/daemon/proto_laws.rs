//! What holds of the wire protocol as a whole: what is encoded is decoded
//! again, a message is one line, unknown keys change nothing, and neither does
//! the order of the fields.

use vstd::prelude::*;
use crate::decimal;
use crate::daemon::percent;
use crate::daemon::proto;
use crate::daemon::proto::{
    CmdEndView, CmdStartView, EventView, FieldKind, FieldView, Message, ProtoErrorView, RequestView,
    ResponseView,
};
use crate::segments::{OpState, RepoStatusView};
use crate::text;

verus! {

/// Only the characters from `!` to `~`.
pub open spec fn is_visible(s: Seq<char>) -> bool {
    forall|i: int| 0 <= i < s.len() ==> '!' <= #[trigger] s[i] <= '~'
}

/// Visible, not empty, and without an equals sign.
pub open spec fn is_word(s: Seq<char>) -> bool {
    &&& s.len() > 0
    &&& is_visible(s)
    &&& forall|i: int| 0 <= i < s.len() ==> #[trigger] s[i] != '='
}

/// These names are words.
proof fn lemma_cmd_words()
    ensures
        is_word("id"@),
        is_word("session"@),
        is_word("host"@),
        is_word("cwd"@),
        is_word("cmd"@),
        is_word("started_at"@),
        is_word("finished_at"@),
        is_word("duration_ms"@),
        is_word("exit"@),
{
    reveal_strlit("id");
    reveal_strlit("session");
    reveal_strlit("host");
    reveal_strlit("cwd");
    reveal_strlit("cmd");
    reveal_strlit("started_at");
    reveal_strlit("finished_at");
    reveal_strlit("duration_ms");
    reveal_strlit("exit");
    assert("id"@ =~= seq!['i', 'd']);
    assert("session"@ =~= seq!['s', 'e', 's', 's', 'i', 'o', 'n']);
    assert("host"@ =~= seq!['h', 'o', 's', 't']);
    assert("cwd"@ =~= seq!['c', 'w', 'd']);
    assert("cmd"@ =~= seq!['c', 'm', 'd']);
    assert("started_at"@ =~= seq!['s', 't', 'a', 'r', 't', 'e', 'd', '_', 'a', 't']);
    assert("finished_at"@ =~= seq!['f', 'i', 'n', 'i', 's', 'h', 'e', 'd', '_', 'a', 't']);
    assert("duration_ms"@ =~= seq!['d', 'u', 'r', 'a', 't', 'i', 'o', 'n', '_', 'm', 's']);
    assert("exit"@ =~= seq!['e', 'x', 'i', 't']);
}

/// These names are words.
proof fn lemma_capture_words()
    ensures
        is_word("output_bytes"@),
        is_word("output_truncated"@),
        is_word("type"@),
        is_word("true"@),
        is_word("false"@),
{
    reveal_strlit("output_bytes");
    reveal_strlit("output_truncated");
    reveal_strlit("type");
    reveal_strlit("true");
    reveal_strlit("false");
    assert("output_bytes"@ =~= seq!['o', 'u', 't', 'p', 'u', 't', '_', 'b', 'y', 't', 'e', 's']);
    assert("output_truncated"@ =~= seq!['o', 'u', 't', 'p', 'u', 't', '_', 't', 'r', 'u', 'n', 'c', 'a', 't', 'e', 'd']);
    assert("type"@ =~= seq!['t', 'y', 'p', 'e']);
    assert("true"@ =~= seq!['t', 'r', 'u', 'e']);
    assert("false"@ =~= seq!['f', 'a', 'l', 's', 'e']);
}

/// These names are words.
proof fn lemma_status_words()
    ensures
        is_word("repo_name"@),
        is_word("branch"@),
        is_word("detached"@),
        is_word("state"@),
        is_word("staged"@),
        is_word("modified"@),
{
    reveal_strlit("repo_name");
    reveal_strlit("branch");
    reveal_strlit("detached");
    reveal_strlit("state");
    reveal_strlit("staged");
    reveal_strlit("modified");
    assert("repo_name"@ =~= seq!['r', 'e', 'p', 'o', '_', 'n', 'a', 'm', 'e']);
    assert("branch"@ =~= seq!['b', 'r', 'a', 'n', 'c', 'h']);
    assert("detached"@ =~= seq!['d', 'e', 't', 'a', 'c', 'h', 'e', 'd']);
    assert("state"@ =~= seq!['s', 't', 'a', 't', 'e']);
    assert("staged"@ =~= seq!['s', 't', 'a', 'g', 'e', 'd']);
    assert("modified"@ =~= seq!['m', 'o', 'd', 'i', 'f', 'i', 'e', 'd']);
}

/// These names are words.
proof fn lemma_count_words()
    ensures
        is_word("untracked"@),
        is_word("conflicted"@),
        is_word("ahead"@),
        is_word("behind"@),
        is_word("stashed"@),
{
    reveal_strlit("untracked");
    reveal_strlit("conflicted");
    reveal_strlit("ahead");
    reveal_strlit("behind");
    reveal_strlit("stashed");
    assert("untracked"@ =~= seq!['u', 'n', 't', 'r', 'a', 'c', 'k', 'e', 'd']);
    assert("conflicted"@ =~= seq!['c', 'o', 'n', 'f', 'l', 'i', 'c', 't', 'e', 'd']);
    assert("ahead"@ =~= seq!['a', 'h', 'e', 'a', 'd']);
    assert("behind"@ =~= seq!['b', 'e', 'h', 'i', 'n', 'd']);
    assert("stashed"@ =~= seq!['s', 't', 'a', 's', 'h', 'e', 'd']);
}

/// These names are words.
proof fn lemma_state_words()
    ensures
        is_word("rebasing"@),
        is_word("merging"@),
        is_word("cherry"@),
        is_word("bisect"@),
{
    reveal_strlit("rebasing");
    reveal_strlit("merging");
    reveal_strlit("cherry");
    reveal_strlit("bisect");
    assert("rebasing"@ =~= seq!['r', 'e', 'b', 'a', 's', 'i', 'n', 'g']);
    assert("merging"@ =~= seq!['m', 'e', 'r', 'g', 'i', 'n', 'g']);
    assert("cherry"@ =~= seq!['c', 'h', 'e', 'r', 'r', 'y']);
    assert("bisect"@ =~= seq!['b', 'i', 's', 'e', 'c', 't']);
}

proof fn lemma_encoded_visible(s: Seq<char>)
    ensures
        is_visible(percent::percent_encoded(s)),
{
    percent::law_encoded_is_visible_ascii(s);
}

proof fn lemma_digits_visible(n: nat)
    ensures
        is_visible(decimal::dec_digits(n)),
        decimal::dec_digits(n).len() > 0,
{
    decimal::lemma_dec_digits(n);
    assert forall|i: int| 0 <= i < decimal::dec_digits(n).len() implies '!' <= #[trigger] decimal::dec_digits(n)[i]
        <= '~' by {
        assert(decimal::is_digit(decimal::dec_digits(n)[i]));
    }
}

proof fn lemma_int_visible(n: int)
    ensures
        is_visible(decimal::dec_int(n)),
        decimal::dec_int(n).len() > 0,
{
    if n < 0 {
        lemma_digits_visible((-n) as nat);
        let d = decimal::dec_digits((-n) as nat);
        assert forall|i: int| 0 <= i < decimal::dec_int(n).len() implies '!' <= #[trigger] decimal::dec_int(n)[i]
            <= '~' by {
            if i > 0 {
                assert(decimal::dec_int(n)[i] == d[i - 1]);
            }
        }
    } else {
        lemma_digits_visible(n as nat);
    }
}

/// Nothing is trimmed off a visible string.
proof fn lemma_trim_visible(s: Seq<char>)
    requires
        is_visible(s),
    ensures
        text::trim_of(s) == s,
{
    if s.len() > 0 {
        assert('!' <= s[0] <= '~');
        assert('!' <= s[s.len() - 1] <= '~');
    }
}

// ── Lines of keys and values ────────────────────────────────────────────────

/// Keys that are words, with visible values.
pub open spec fn is_plain(ps: Seq<(Seq<char>, Seq<char>)>) -> bool {
    forall|i: int| 0 <= i < ps.len() ==> is_word(#[trigger] ps[i].0) && is_visible(ps[i].1)
}

/// The token for each pair.
pub open spec fn pair_tokens(ps: Seq<(Seq<char>, Seq<char>)>) -> Seq<Seq<char>> {
    Seq::new(ps.len(), |i: int| ps[i].0 + seq!['='] + ps[i].1)
}

proof fn lemma_line_tokens(ps: Seq<(Seq<char>, Seq<char>)>, rest: Seq<char>)
    requires
        is_plain(ps),
        rest.len() > 0 ==> text::is_blank(rest[0]),
    ensures
        text::tokens_of(proto::kv_line(ps) + rest) == pair_tokens(ps) + text::tokens_of(rest),
    decreases ps.len(),
{
    if ps.len() == 0 {
        assert(proto::kv_line(ps) + rest =~= rest);
        assert(pair_tokens(ps) + text::tokens_of(rest) =~= text::tokens_of(rest));
    } else {
        let init = ps.drop_last();
        let (k, v) = ps.last();
        assert(is_word(ps[ps.len() - 1].0) && is_visible(ps[ps.len() - 1].1));
        let tok = k + seq!['='] + v;
        let tail = proto::kv(k, v) + rest;
        assert forall|i: int| 0 <= i < init.len() implies is_word(#[trigger] init[i].0)
            && is_visible(init[i].1) by {
            assert(init[i] == ps[i]);
        }
        lemma_line_tokens(init, tail);
        assert(proto::kv_line(ps) + rest =~= proto::kv_line(init) + tail);
        assert(tail =~= seq![' '] + (tok + rest));
        text::lemma_runs_gap(text::Gap::Blank, ' ', tok + rest);
        assert forall|i: int| 0 <= i < tok.len() implies !text::is_blank(#[trigger] tok[i]) by {
            if i < k.len() {
                assert(tok[i] == k[i]);
            } else if i > k.len() {
                assert(tok[i] == v[i - k.len() - 1]);
            }
        }
        text::lemma_runs_first(text::Gap::Blank, tok, rest);
        assert(pair_tokens(ps) =~= pair_tokens(init).push(tok));
        assert(pair_tokens(init) + (seq![tok] + text::tokens_of(rest)) =~= pair_tokens(ps) + text::tokens_of(
            rest,
        ));
    }
}

/// Every character of a line of pairs is a space or visible, and a line that
/// is not empty starts with a space.
proof fn lemma_line_chars(ps: Seq<(Seq<char>, Seq<char>)>)
    requires
        is_plain(ps),
    ensures
        forall|i: int|
            0 <= i < proto::kv_line(ps).len() ==> #[trigger] proto::kv_line(ps)[i] == ' ' || '!' <= proto::kv_line(ps)[i]
                <= '~',
        ps.len() > 0 ==> proto::kv_line(ps).len() > 0 && proto::kv_line(ps)[0] == ' ' && proto::kv_line(ps).last()
            != ' ',
        ps.len() == 0 ==> proto::kv_line(ps).len() == 0,
    decreases ps.len(),
{
    if ps.len() > 0 {
        let init = ps.drop_last();
        let (k, v) = ps.last();
        assert(is_word(ps[ps.len() - 1].0) && is_visible(ps[ps.len() - 1].1));
        assert forall|i: int| 0 <= i < init.len() implies is_word(#[trigger] init[i].0)
            && is_visible(init[i].1) by {
            assert(init[i] == ps[i]);
        }
        lemma_line_chars(init);
        let a = proto::kv_line(init);
        let b = proto::kv(k, v);
        assert(proto::kv_line(ps) == a + b);
        assert forall|i: int| 0 <= i < (a + b).len() implies #[trigger] (a + b)[i] == ' ' || '!'
            <= (a + b)[i] <= '~' by {
            if i < a.len() {
                assert((a + b)[i] == a[i]);
            } else {
                let j = i - a.len();
                assert((a + b)[i] == b[j]);
                if j == 0 {
                } else if j <= k.len() {
                    assert(b[j] == k[j - 1]);
                } else if j == k.len() + 1 {
                } else {
                    assert(b[j] == v[j - k.len() - 2]);
                }
            }
        }
        if a.len() == 0 {
            assert((a + b)[0] == b[0]);
        } else {
            assert((a + b)[0] == a[0]);
        }
        if v.len() > 0 {
            assert((a + b).last() == v[v.len() - 1]);
        } else {
            assert((a + b).last() == '=');
        }
    }
}

/// A line of an opcode and pairs is cut into the opcode and the tokens of the
/// pairs, and has no line ending to strip.
proof fn lemma_opcode_line(op: Seq<char>, ps: Seq<(Seq<char>, Seq<char>)>)
    requires
        is_word(op),
        is_plain(ps),
    ensures
        ({
            let line = op + proto::kv_line(ps);
            let (o, rest) = proto::split_opcode_of(line);
            &&& line.len() > 0
            &&& proto::strip_eol_of(line) == line
            &&& o == op
            &&& text::tokens_of(rest) == pair_tokens(ps)
        }),
{
    let body = proto::kv_line(ps);
    let line = op + body;
    lemma_line_chars(ps);
    if body.len() > 0 {
        assert(line.last() == body.last());
        assert(body.last() == body[body.len() - 1]);
        let rest = body.skip(1);
        assert(body =~= seq![' '] + rest);
        assert(line =~= op + seq![' '] + rest);
        assert forall|i: int| 0 <= i < op.len() implies #[trigger] op[i] != ' ' by {
            assert('!' <= op[i]);
        }
        text::lemma_split_once_at(op, ' ', rest);
        text::lemma_runs_gap(text::Gap::Blank, ' ', rest);
        lemma_line_tokens(ps, Seq::empty());
        assert(body + Seq::<char>::empty() =~= body);
        assert(pair_tokens(ps) + text::tokens_of(Seq::empty()) =~= pair_tokens(ps));
    } else {
        assert(ps.len() == 0);
        assert(line =~= op);
        assert(op.last() == op[op.len() - 1]);
        text::lemma_find_char(op, ' ');
        assert(text::split_once_of(op, ' ') is None) by {
            let n = text::find_char(op, ' ');
            if n < op.len() {
                assert('!' <= op[n as int]);
            }
        }
        assert(text::tokens_of(Seq::empty()) =~= pair_tokens(ps));
    }
}

/// A line of an opcode and one visible argument is cut into the two.
proof fn lemma_argument_line(op: Seq<char>, head: Seq<char>, arg: Seq<char>)
    requires
        is_word(op),
        head == op + seq![' '],
        is_visible(arg),
    ensures
        ({
            let line = head + arg;
            let (o, rest) = proto::split_opcode_of(line);
            &&& line.len() > 0
            &&& proto::strip_eol_of(line) == line
            &&& o == op
            &&& text::trim_of(rest) == arg
        }),
{
    let line = head + arg;
    assert(line =~= op + seq![' '] + arg);
    assert forall|i: int| 0 <= i < op.len() implies #[trigger] op[i] != ' ' by {
        assert('!' <= op[i]);
    }
    text::lemma_split_once_at(op, ' ', arg);
    lemma_trim_visible(arg);
    if arg.len() > 0 {
        assert(line.last() == arg[arg.len() - 1]);
    } else {
        assert(line.last() == ' ');
    }
}

/// A line that is one word is an opcode without payload.
proof fn lemma_word_line(op: Seq<char>)
    requires
        is_word(op),
    ensures
        proto::strip_eol_of(op) == op,
        proto::split_opcode_of(op) == (op, Seq::<char>::empty()),
        text::trim_of(Seq::<char>::empty()).len() == 0,
{
    assert(op.last() == op[op.len() - 1]);
    text::lemma_find_char(op, ' ');
    let n = text::find_char(op, ' ');
    if n < op.len() {
        assert('!' <= op[n as int]);
    }
}

/// The pairs can be read, and hold the values of `fs`.
#[verifier::opaque]
spec fn reads(m: Message, ps: Seq<(Seq<char>, Seq<char>)>, fs: Seq<(Seq<char>, FieldView)>) -> bool {
    &&& is_plain(ps)
    &&& fs.len() == ps.len()
    &&& forall|i: int|
        0 <= i < ps.len() ==> #[trigger] fs[i].0 == ps[i].0 && proto::field_of(
            proto::kind_of(m, ps[i].0),
            ps[i].1,
        ) == Ok::<FieldView, ProtoErrorView>(fs[i].1)
}

/// Reading the tokens of pairs whose values can be read.
proof fn lemma_pairs_read(
    m: Message,
    ps: Seq<(Seq<char>, Seq<char>)>,
    fs: Seq<(Seq<char>, FieldView)>,
)
    requires
        reads(m, ps, fs),
    ensures
        proto::pairs_of(m, pair_tokens(ps)) == Ok::<Seq<(Seq<char>, FieldView)>, ProtoErrorView>(fs),
    decreases ps.len(),
{
    reveal(reads);
    let toks = pair_tokens(ps);
    if ps.len() == 0 {
        assert(fs =~= Seq::empty());
    } else {
        let n = ps.len() - 1;
        let init = ps.drop_last();
        assert forall|i: int| 0 <= i < init.len() implies is_word(#[trigger] init[i].0)
            && is_visible(init[i].1) by {
            assert(init[i] == ps[i]);
        }
        assert forall|i: int| 0 <= i < init.len() implies #[trigger] fs.drop_last()[i].0
            == init[i].0 && proto::field_of(proto::kind_of(m, init[i].0), init[i].1) == Ok::<
            FieldView,
            ProtoErrorView,
        >(fs.drop_last()[i].1) by {
            assert(fs[i].0 == ps[i].0);
        }
        lemma_pairs_read(m, init, fs.drop_last());
        assert(toks.drop_last() =~= pair_tokens(init));
        assert(is_word(ps[n].0));
        text::lemma_split_once_at(ps[n].0, '=', ps[n].1);
        assert(toks.last() == ps[n].0 + seq!['='] + ps[n].1);
        assert(fs[n].0 == ps[n].0);
        assert(fs.drop_last().push((ps[n].0, fs[n].1)) =~= fs);
    }
}

proof fn lemma_reads_nothing(m: Message)
    ensures
        reads(m, Seq::<(Seq<char>, Seq<char>)>::empty(), Seq::<(Seq<char>, FieldView)>::empty()),
{
    reveal(reads);
}

proof fn lemma_reads_plain(
    m: Message,
    ps: Seq<(Seq<char>, Seq<char>)>,
    fs: Seq<(Seq<char>, FieldView)>,
)
    requires
        reads(m, ps, fs),
    ensures
        is_plain(ps),
{
    reveal(reads);
}

/// The last value of `key` is the one at `i`, where no later pair has `key`.
proof fn lemma_last_at(fs: Seq<(Seq<char>, FieldView)>, key: Seq<char>, i: int)
    requires
        0 <= i < fs.len(),
        fs[i].0 == key,
        forall|j: int| i < j < fs.len() ==> #[trigger] fs[j].0 != key,
    ensures
        proto::last_of(fs, key) == Some(fs[i].1),
    decreases fs.len(),
{
    if i < fs.len() - 1 {
        let init = fs.drop_last();
        assert(fs[fs.len() - 1].0 != key);
        assert forall|j: int| i < j < init.len() implies #[trigger] init[j].0 != key by {
            assert(init[j] == fs[j]);
        }
        assert(init[i] == fs[i]);
        lemma_last_at(init, key, i);
    }
}

proof fn lemma_last_absent(fs: Seq<(Seq<char>, FieldView)>, key: Seq<char>)
    requires
        forall|j: int| 0 <= j < fs.len() ==> #[trigger] fs[j].0 != key,
    ensures
        proto::last_of(fs, key) is None,
    decreases fs.len(),
{
    if fs.len() > 0 {
        let init = fs.drop_last();
        assert(fs[fs.len() - 1].0 != key);
        assert forall|j: int| 0 <= j < init.len() implies #[trigger] init[j].0 != key by {
            assert(init[j] == fs[j]);
        }
        lemma_last_absent(init, key);
    }
}

// ── Reading back each message ───────────────────────────────────────────────

proof fn lemma_field_text(s: Seq<char>)
    ensures
        proto::field_of(FieldKind::Text, percent::percent_encoded(s)) == Ok::<FieldView, ProtoErrorView>(
            FieldView::Text(s),
        ),
        is_visible(percent::percent_encoded(s)),
{
    percent::law_decode_inverts_encode(s);
    lemma_encoded_visible(s);
}

proof fn lemma_field_i64(n: i64)
    ensures
        proto::field_of(FieldKind::Signed64, decimal::dec_int(n as int)) == Ok::<FieldView, ProtoErrorView>(
            FieldView::Int(n as int),
        ),
        is_visible(decimal::dec_int(n as int)),
{
    decimal::law_parse_signed_reads_back(n as int, i64::MIN as int, i64::MAX as int);
    lemma_int_visible(n as int);
}

proof fn lemma_field_i32(n: i32)
    ensures
        proto::field_of(FieldKind::Signed32, decimal::dec_int(n as int)) == Ok::<FieldView, ProtoErrorView>(
            FieldView::Int(n as int),
        ),
        is_visible(decimal::dec_int(n as int)),
{
    decimal::law_parse_signed_reads_back(n as int, i32::MIN as int, i32::MAX as int);
    lemma_int_visible(n as int);
}

proof fn lemma_field_u64(n: u64)
    ensures
        proto::field_of(FieldKind::Unsigned64, decimal::dec_digits(n as nat)) == Ok::<FieldView, ProtoErrorView>(
            FieldView::Int(n as int),
        ),
        is_visible(decimal::dec_digits(n as nat)),
{
    decimal::law_parse_unsigned_reads_back(n as nat, u64::MAX as nat);
    lemma_digits_visible(n as nat);
}

proof fn lemma_field_u32(n: u32)
    ensures
        proto::field_of(FieldKind::Unsigned32, decimal::dec_digits(n as nat)) == Ok::<FieldView, ProtoErrorView>(
            FieldView::Int(n as int),
        ),
        is_visible(decimal::dec_digits(n as nat)),
{
    decimal::law_parse_unsigned_reads_back(n as nat, u32::MAX as nat);
    lemma_digits_visible(n as nat);
}

proof fn lemma_field_flag(b: bool)
    ensures
        proto::field_of(FieldKind::Flag, proto::flag_text(b)) == Ok::<FieldView, ProtoErrorView>(
            FieldView::Flag(b),
        ),
        is_visible(proto::flag_text(b)),
{
    lemma_capture_words();
    reveal_strlit("true");
    reveal_strlit("false");
    assert("true"@.len() == 4);
    assert("false"@.len() == 5);
}

proof fn lemma_field_state(s: OpState)
    ensures
        proto::field_of(FieldKind::State, proto::op_state_text(s)) == Ok::<FieldView, ProtoErrorView>(
            FieldView::State(s),
        ),
        is_visible(proto::op_state_text(s)),
{
    lemma_state_words();
    reveal_strlit("rebasing");
    reveal_strlit("merging");
    reveal_strlit("cherry");
    reveal_strlit("bisect");
    assert("rebasing"@.len() == 8);
    assert("merging"@.len() == 7);
    assert("cherry"@.len() == 6);
    assert("bisect"@.len() == 6);
    assert("cherry"@[0] == 'c');
    assert("bisect"@[0] == 'b');
}

proof fn lemma_reads_push(
    m: Message,
    ps: Seq<(Seq<char>, Seq<char>)>,
    fs: Seq<(Seq<char>, FieldView)>,
    k: Seq<char>,
    v: Seq<char>,
    f: FieldView,
)
    requires
        reads(m, ps, fs),
        is_word(k),
        is_visible(v),
        proto::field_of(proto::kind_of(m, k), v) == Ok::<FieldView, ProtoErrorView>(f),
    ensures
        reads(m, ps.push((k, v)), fs.push((k, f))),
{
    reveal(reads);
    let ps2 = ps.push((k, v));
    let fs2 = fs.push((k, f));
    assert forall|i: int| 0 <= i < ps2.len() implies is_word(#[trigger] ps2[i].0) && is_visible(
        ps2[i].1,
    ) by {
        if i < ps.len() {
            assert(ps2[i] == ps[i]);
        }
    }
    assert forall|i: int| 0 <= i < ps2.len() implies #[trigger] fs2[i].0 == ps2[i].0 && proto::field_of(
        proto::kind_of(m, ps2[i].0),
        ps2[i].1,
    ) == Ok::<FieldView, ProtoErrorView>(fs2[i].1) by {
        if i < ps.len() {
            assert(ps2[i] == ps[i]);
            assert(fs2[i] == fs[i]);
            assert(fs[i].0 == ps[i].0);
        }
    }
}

/// The fields of a `CMD_START` line.
spec fn cmd_start_fields(e: CmdStartView) -> Seq<(Seq<char>, FieldView)> {
    seq![
        ("id"@, FieldView::Text(e.id)),
        ("session"@, FieldView::Text(e.session_id)),
        ("host"@, FieldView::Text(e.hostname)),
        ("cwd"@, FieldView::Text(e.cwd)),
        ("started_at"@, FieldView::Int(e.started_at_ms as int)),
        ("cmd"@, FieldView::Text(e.cmd)),
    ]
}

proof fn lemma_cmd_start_reads(e: CmdStartView)
    ensures
        reads(Message::CmdStart, proto::cmd_start_pairs(e), cmd_start_fields(e)),
{
    let m = Message::CmdStart;
    lemma_cmd_words();
    proto::lemma_cmd_start_keys();
    let mut ps = Seq::<(Seq<char>, Seq<char>)>::empty();
    let mut fs = Seq::<(Seq<char>, FieldView)>::empty();
    lemma_reads_nothing(m);
    lemma_field_text(e.id);
    lemma_reads_push(m, ps, fs, "id"@, percent::percent_encoded(e.id), FieldView::Text(e.id));
    ps = ps.push(("id"@, percent::percent_encoded(e.id)));
    fs = fs.push(("id"@, FieldView::Text(e.id)));
    lemma_field_text(e.session_id);
    lemma_reads_push(m, ps, fs, "session"@, percent::percent_encoded(e.session_id), FieldView::Text(e.session_id));
    ps = ps.push(("session"@, percent::percent_encoded(e.session_id)));
    fs = fs.push(("session"@, FieldView::Text(e.session_id)));
    lemma_field_text(e.hostname);
    lemma_reads_push(m, ps, fs, "host"@, percent::percent_encoded(e.hostname), FieldView::Text(e.hostname));
    ps = ps.push(("host"@, percent::percent_encoded(e.hostname)));
    fs = fs.push(("host"@, FieldView::Text(e.hostname)));
    lemma_field_text(e.cwd);
    lemma_reads_push(m, ps, fs, "cwd"@, percent::percent_encoded(e.cwd), FieldView::Text(e.cwd));
    ps = ps.push(("cwd"@, percent::percent_encoded(e.cwd)));
    fs = fs.push(("cwd"@, FieldView::Text(e.cwd)));
    lemma_field_i64(e.started_at_ms);
    lemma_reads_push(m, ps, fs, "started_at"@, decimal::dec_int(e.started_at_ms as int), FieldView::Int(e.started_at_ms as int));
    ps = ps.push(("started_at"@, decimal::dec_int(e.started_at_ms as int)));
    fs = fs.push(("started_at"@, FieldView::Int(e.started_at_ms as int)));
    lemma_field_text(e.cmd);
    lemma_reads_push(m, ps, fs, "cmd"@, percent::percent_encoded(e.cmd), FieldView::Text(e.cmd));
    ps = ps.push(("cmd"@, percent::percent_encoded(e.cmd)));
    fs = fs.push(("cmd"@, FieldView::Text(e.cmd)));
    assert(ps =~= proto::cmd_start_pairs(e));
    assert(fs =~= cmd_start_fields(e));
}

proof fn lemma_cmd_start_last(e: CmdStartView)
    ensures
        ({
            let fs = cmd_start_fields(e);
            &&& proto::last_of(fs, "id"@) == Some(FieldView::Text(e.id))
            &&& proto::last_of(fs, "session"@) == Some(FieldView::Text(e.session_id))
            &&& proto::last_of(fs, "host"@) == Some(FieldView::Text(e.hostname))
            &&& proto::last_of(fs, "cwd"@) == Some(FieldView::Text(e.cwd))
            &&& proto::last_of(fs, "started_at"@) == Some(FieldView::Int(e.started_at_ms as int))
            &&& proto::last_of(fs, "cmd"@) == Some(FieldView::Text(e.cmd))
        }),
{
    proto::lemma_cmd_start_keys();
    let fs = cmd_start_fields(e);
    lemma_last_at(fs, "id"@, 0);
    lemma_last_at(fs, "session"@, 1);
    lemma_last_at(fs, "host"@, 2);
    lemma_last_at(fs, "cwd"@, 3);
    lemma_last_at(fs, "started_at"@, 4);
    lemma_last_at(fs, "cmd"@, 5);
}

/// The payload of a `CMD_START` line, read back.
proof fn lemma_cmd_start_back(e: CmdStartView, rest: Seq<char>)
    requires
        text::tokens_of(rest) == pair_tokens(proto::cmd_start_pairs(e)),
    ensures
        proto::cmd_start_of(rest) == Ok::<CmdStartView, ProtoErrorView>(e),
{
    lemma_cmd_start_reads(e);
    lemma_cmd_start_last(e);
    lemma_pairs_read(Message::CmdStart, proto::cmd_start_pairs(e), cmd_start_fields(e));
}

/// The fields of a `CMD_END` line.
spec fn cmd_end_fields(e: CmdEndView) -> Seq<(Seq<char>, FieldView)> {
    let base = seq![
        ("id"@, FieldView::Text(e.id)),
        ("finished_at"@, FieldView::Int(e.finished_at_ms as int)),
        ("duration_ms"@, FieldView::Int(e.duration_ms as int)),
        ("exit"@, FieldView::Int(e.exit_status as int)),
    ];
    let sized = match e.output_bytes {
        Some(n) => base.push(("output_bytes"@, FieldView::Int(n as int))),
        None => base,
    };
    match e.output_truncated {
        Some(t) => sized.push(("output_truncated"@, FieldView::Flag(t))),
        None => sized,
    }
}

proof fn lemma_cmd_end_reads(e: CmdEndView)
    ensures
        reads(Message::CmdEnd, proto::cmd_end_pairs(e), cmd_end_fields(e)),
{
    let m = Message::CmdEnd;
    lemma_cmd_words();
    lemma_capture_words();
    proto::lemma_cmd_end_keys();
    let mut ps = Seq::<(Seq<char>, Seq<char>)>::empty();
    let mut fs = Seq::<(Seq<char>, FieldView)>::empty();
    lemma_reads_nothing(m);
    lemma_field_text(e.id);
    lemma_reads_push(m, ps, fs, "id"@, percent::percent_encoded(e.id), FieldView::Text(e.id));
    ps = ps.push(("id"@, percent::percent_encoded(e.id)));
    fs = fs.push(("id"@, FieldView::Text(e.id)));
    lemma_field_i64(e.finished_at_ms);
    lemma_reads_push(m, ps, fs, "finished_at"@, decimal::dec_int(e.finished_at_ms as int), FieldView::Int(e.finished_at_ms as int));
    ps = ps.push(("finished_at"@, decimal::dec_int(e.finished_at_ms as int)));
    fs = fs.push(("finished_at"@, FieldView::Int(e.finished_at_ms as int)));
    lemma_field_u64(e.duration_ms);
    lemma_reads_push(m, ps, fs, "duration_ms"@, decimal::dec_digits(e.duration_ms as nat), FieldView::Int(e.duration_ms as int));
    ps = ps.push(("duration_ms"@, decimal::dec_digits(e.duration_ms as nat)));
    fs = fs.push(("duration_ms"@, FieldView::Int(e.duration_ms as int)));
    lemma_field_i32(e.exit_status);
    lemma_reads_push(m, ps, fs, "exit"@, decimal::dec_int(e.exit_status as int), FieldView::Int(e.exit_status as int));
    ps = ps.push(("exit"@, decimal::dec_int(e.exit_status as int)));
    fs = fs.push(("exit"@, FieldView::Int(e.exit_status as int)));
    if let Some(n) = e.output_bytes {
        lemma_field_i64(n);
        lemma_reads_push(m, ps, fs, "output_bytes"@, decimal::dec_int(n as int), FieldView::Int(n as int));
        ps = ps.push(("output_bytes"@, decimal::dec_int(n as int)));
        fs = fs.push(("output_bytes"@, FieldView::Int(n as int)));
    }
    if let Some(t) = e.output_truncated {
        lemma_field_flag(t);
        lemma_reads_push(m, ps, fs, "output_truncated"@, proto::flag_text(t), FieldView::Flag(t));
        ps = ps.push(("output_truncated"@, proto::flag_text(t)));
        fs = fs.push(("output_truncated"@, FieldView::Flag(t)));
    }
    assert(ps =~= proto::cmd_end_pairs(e));
    assert(fs =~= cmd_end_fields(e));
}

proof fn lemma_cmd_end_last(e: CmdEndView)
    ensures
        ({
            let fs = cmd_end_fields(e);
            &&& proto::last_of(fs, "id"@) == Some(FieldView::Text(e.id))
            &&& proto::last_of(fs, "finished_at"@) == Some(FieldView::Int(e.finished_at_ms as int))
            &&& proto::last_of(fs, "duration_ms"@) == Some(FieldView::Int(e.duration_ms as int))
            &&& proto::last_of(fs, "exit"@) == Some(FieldView::Int(e.exit_status as int))
            &&& proto::last_of(fs, "output_bytes"@) == match e.output_bytes {
                Some(n) => Some(FieldView::Int(n as int)),
                None => None,
            }
            &&& proto::last_of(fs, "output_truncated"@) == match e.output_truncated {
                Some(t) => Some(FieldView::Flag(t)),
                None => None,
            }
        }),
{
    proto::lemma_cmd_end_keys();
    let fs = cmd_end_fields(e);
    lemma_last_at(fs, "id"@, 0);
    lemma_last_at(fs, "finished_at"@, 1);
    lemma_last_at(fs, "duration_ms"@, 2);
    lemma_last_at(fs, "exit"@, 3);
    if e.output_bytes is Some {
        lemma_last_at(fs, "output_bytes"@, 4);
    } else {
        lemma_last_absent(fs, "output_bytes"@);
    }
    if e.output_truncated is Some {
        lemma_last_at(fs, "output_truncated"@, fs.len() - 1);
    } else {
        lemma_last_absent(fs, "output_truncated"@);
    }
}

/// The payload of a `CMD_END` line, read back.
proof fn lemma_cmd_end_back(e: CmdEndView, rest: Seq<char>)
    requires
        text::tokens_of(rest) == pair_tokens(proto::cmd_end_pairs(e)),
    ensures
        proto::cmd_end_of(rest) == Ok::<CmdEndView, ProtoErrorView>(e),
{
    lemma_cmd_end_reads(e);
    lemma_cmd_end_last(e);
    lemma_pairs_read(Message::CmdEnd, proto::cmd_end_pairs(e), cmd_end_fields(e));
}

/// The payload of a `SUBSCRIBE` line, read back.
proof fn lemma_subscribe_back(c: Option<Seq<char>>, rest: Seq<char>)
    requires
        text::tokens_of(rest) == pair_tokens(proto::subscribe_pairs(c)),
    ensures
        is_plain(proto::subscribe_pairs(c)),
        proto::subscribe_of(rest) == Ok::<Option<Seq<char>>, ProtoErrorView>(c),
{
    reveal(reads);
    lemma_cmd_words();
    let ps = proto::subscribe_pairs(c);
    match c {
        Some(p) => {
            lemma_field_text(p);
            let fs = seq![("cwd"@, FieldView::Text(p))];
            lemma_pairs_read(Message::Subscribe, ps, fs);
            lemma_last_at(fs, "cwd"@, 0);
        },
        None => {
            let fs = Seq::<(Seq<char>, FieldView)>::empty();
            lemma_pairs_read(Message::Subscribe, ps, fs);
        },
    }
}

/// The payload of an `EVENT` line, read back.
proof fn lemma_event_back(e: EventView, rest: Seq<char>)
    requires
        text::tokens_of(rest) == pair_tokens(proto::event_pairs(e)),
    ensures
        is_plain(proto::event_pairs(e)),
        proto::event_of(rest) == Ok::<EventView, ProtoErrorView>(e),
{
    lemma_cmd_words();
    lemma_capture_words();
    proto::lemma_event_keys();
    reveal(reads);
    lemma_field_text(e.topic);
    let ps = proto::event_pairs(e);
    let base = seq![("type"@, FieldView::Text(e.topic))];
    let placed = match e.cwd {
        Some(p) => base.push(("cwd"@, FieldView::Text(p))),
        None => base,
    };
    let fs = match e.id {
        Some(i) => placed.push(("id"@, FieldView::Text(i))),
        None => placed,
    };
    if let Some(p) = e.cwd {
        lemma_field_text(p);
    }
    if let Some(i) = e.id {
        lemma_field_text(i);
    }
    lemma_pairs_read(Message::Event, ps, fs);
    lemma_last_at(fs, "type"@, 0);
    if e.cwd is Some {
        lemma_last_at(fs, "cwd"@, 1);
    } else {
        lemma_last_absent(fs, "cwd"@);
    }
    if e.id is Some {
        lemma_last_at(fs, "id"@, fs.len() - 1);
    } else {
        lemma_last_absent(fs, "id"@);
    }
}

/// The fields of an `OK` line up to the counts.
spec fn status_head_fields(s: RepoStatusView) -> Seq<(Seq<char>, FieldView)> {
    let base = seq![
        ("repo_name"@, FieldView::Text(s.repo_name)),
        ("branch"@, FieldView::Text(s.branch)),
        ("detached"@, FieldView::Flag(s.detached)),
    ];
    match s.state {
        Some(o) => base.push(("state"@, FieldView::State(o))),
        None => base,
    }
}

/// The fields of an `OK` line.
spec fn status_fields(s: RepoStatusView) -> Seq<(Seq<char>, FieldView)> {
    status_head_fields(s).push(("staged"@, FieldView::Int(s.staged as int))).push(
        ("modified"@, FieldView::Int(s.modified as int)),
    ).push(("untracked"@, FieldView::Int(s.untracked as int))).push(
        ("conflicted"@, FieldView::Int(s.conflicted as int)),
    ).push(("ahead"@, FieldView::Int(s.ahead as int))).push(
        ("behind"@, FieldView::Int(s.behind as int)),
    ).push(("stashed"@, FieldView::Int(s.stashed as int)))
}

proof fn lemma_status_reads(s: RepoStatusView)
    ensures
        reads(Message::Status, proto::status_pairs(s), status_fields(s)),
{
    let m = Message::Status;
    lemma_status_words();
    lemma_count_words();
    proto::lemma_status_keys();
    let mut ps = Seq::<(Seq<char>, Seq<char>)>::empty();
    let mut fs = Seq::<(Seq<char>, FieldView)>::empty();
    lemma_reads_nothing(m);
    lemma_field_text(s.repo_name);
    lemma_reads_push(
        m,
        ps,
        fs,
        "repo_name"@,
        percent::percent_encoded(s.repo_name),
        FieldView::Text(s.repo_name),
    );
    ps = ps.push(("repo_name"@, percent::percent_encoded(s.repo_name)));
    fs = fs.push(("repo_name"@, FieldView::Text(s.repo_name)));
    lemma_field_text(s.branch);
    lemma_reads_push(m, ps, fs, "branch"@, percent::percent_encoded(s.branch), FieldView::Text(s.branch));
    ps = ps.push(("branch"@, percent::percent_encoded(s.branch)));
    fs = fs.push(("branch"@, FieldView::Text(s.branch)));
    lemma_field_flag(s.detached);
    lemma_reads_push(m, ps, fs, "detached"@, proto::flag_text(s.detached), FieldView::Flag(s.detached));
    ps = ps.push(("detached"@, proto::flag_text(s.detached)));
    fs = fs.push(("detached"@, FieldView::Flag(s.detached)));
    if let Some(o) = s.state {
        lemma_field_state(o);
        lemma_reads_push(m, ps, fs, "state"@, proto::op_state_text(o), FieldView::State(o));
        ps = ps.push(("state"@, proto::op_state_text(o)));
        fs = fs.push(("state"@, FieldView::State(o)));
    }
    assert(fs =~= status_head_fields(s));
    lemma_field_u32(s.staged);
    lemma_reads_push(
        m,
        ps,
        fs,
        "staged"@,
        decimal::dec_digits(s.staged as nat),
        FieldView::Int(s.staged as int),
    );
    ps = ps.push(("staged"@, decimal::dec_digits(s.staged as nat)));
    fs = fs.push(("staged"@, FieldView::Int(s.staged as int)));
    lemma_field_u32(s.modified);
    lemma_reads_push(
        m,
        ps,
        fs,
        "modified"@,
        decimal::dec_digits(s.modified as nat),
        FieldView::Int(s.modified as int),
    );
    ps = ps.push(("modified"@, decimal::dec_digits(s.modified as nat)));
    fs = fs.push(("modified"@, FieldView::Int(s.modified as int)));
    lemma_field_u32(s.untracked);
    lemma_reads_push(
        m,
        ps,
        fs,
        "untracked"@,
        decimal::dec_digits(s.untracked as nat),
        FieldView::Int(s.untracked as int),
    );
    ps = ps.push(("untracked"@, decimal::dec_digits(s.untracked as nat)));
    fs = fs.push(("untracked"@, FieldView::Int(s.untracked as int)));
    lemma_field_u32(s.conflicted);
    lemma_reads_push(
        m,
        ps,
        fs,
        "conflicted"@,
        decimal::dec_digits(s.conflicted as nat),
        FieldView::Int(s.conflicted as int),
    );
    ps = ps.push(("conflicted"@, decimal::dec_digits(s.conflicted as nat)));
    fs = fs.push(("conflicted"@, FieldView::Int(s.conflicted as int)));
    lemma_field_u32(s.ahead);
    lemma_reads_push(
        m,
        ps,
        fs,
        "ahead"@,
        decimal::dec_digits(s.ahead as nat),
        FieldView::Int(s.ahead as int),
    );
    ps = ps.push(("ahead"@, decimal::dec_digits(s.ahead as nat)));
    fs = fs.push(("ahead"@, FieldView::Int(s.ahead as int)));
    lemma_field_u32(s.behind);
    lemma_reads_push(
        m,
        ps,
        fs,
        "behind"@,
        decimal::dec_digits(s.behind as nat),
        FieldView::Int(s.behind as int),
    );
    ps = ps.push(("behind"@, decimal::dec_digits(s.behind as nat)));
    fs = fs.push(("behind"@, FieldView::Int(s.behind as int)));
    lemma_field_u32(s.stashed);
    lemma_reads_push(
        m,
        ps,
        fs,
        "stashed"@,
        decimal::dec_digits(s.stashed as nat),
        FieldView::Int(s.stashed as int),
    );
    ps = ps.push(("stashed"@, decimal::dec_digits(s.stashed as nat)));
    fs = fs.push(("stashed"@, FieldView::Int(s.stashed as int)));
    assert(ps =~= proto::status_pairs(s));
}

proof fn lemma_status_last(s: RepoStatusView)
    ensures
        ({
            let fs = status_fields(s);
            &&& proto::last_of(fs, "repo_name"@) == Some(FieldView::Text(s.repo_name))
            &&& proto::last_of(fs, "branch"@) == Some(FieldView::Text(s.branch))
            &&& proto::last_of(fs, "detached"@) == Some(FieldView::Flag(s.detached))
            &&& proto::last_of(fs, "state"@) == match s.state {
                Some(o) => Some(FieldView::State(o)),
                None => None,
            }
            &&& proto::last_of(fs, "staged"@) == Some(FieldView::Int(s.staged as int))
            &&& proto::last_of(fs, "modified"@) == Some(FieldView::Int(s.modified as int))
            &&& proto::last_of(fs, "untracked"@) == Some(FieldView::Int(s.untracked as int))
            &&& proto::last_of(fs, "conflicted"@) == Some(FieldView::Int(s.conflicted as int))
            &&& proto::last_of(fs, "ahead"@) == Some(FieldView::Int(s.ahead as int))
            &&& proto::last_of(fs, "behind"@) == Some(FieldView::Int(s.behind as int))
            &&& proto::last_of(fs, "stashed"@) == Some(FieldView::Int(s.stashed as int))
        }),
{
    proto::lemma_status_keys();
    let fs = status_fields(s);
    let n = status_head_fields(s).len() as int;
    lemma_last_at(fs, "repo_name"@, 0);
    lemma_last_at(fs, "branch"@, 1);
    lemma_last_at(fs, "detached"@, 2);
    if s.state is Some {
        lemma_last_at(fs, "state"@, 3);
    } else {
        lemma_last_absent(fs, "state"@);
    }
    lemma_last_at(fs, "staged"@, n);
    lemma_last_at(fs, "modified"@, n + 1);
    lemma_last_at(fs, "untracked"@, n + 2);
    lemma_last_at(fs, "conflicted"@, n + 3);
    lemma_last_at(fs, "ahead"@, n + 4);
    lemma_last_at(fs, "behind"@, n + 5);
    lemma_last_at(fs, "stashed"@, n + 6);
}

/// The payload of an `OK` line, read back.
proof fn lemma_status_back(s: RepoStatusView, rest: Seq<char>)
    requires
        text::tokens_of(rest) == pair_tokens(proto::status_pairs(s)),
    ensures
        proto::status_of(rest) == Ok::<RepoStatusView, ProtoErrorView>(s),
{
    lemma_status_reads(s);
    lemma_status_last(s);
    lemma_pairs_read(Message::Status, proto::status_pairs(s), status_fields(s));
}

/// The opcodes of requests are words.
proof fn lemma_request_words()
    ensures
        is_word("HELLO"@),
        is_word("STATUS"@),
        is_word("CMD_START"@),
        is_word("CMD_END"@),
        is_word("SUBSCRIBE"@),
        is_word("QUIT"@),
{
    reveal_strlit("HELLO");
    reveal_strlit("STATUS");
    reveal_strlit("CMD_START");
    reveal_strlit("CMD_END");
    reveal_strlit("SUBSCRIBE");
    reveal_strlit("QUIT");
    assert("HELLO"@ =~= seq!['H', 'E', 'L', 'L', 'O']);
    assert("STATUS"@ =~= seq!['S', 'T', 'A', 'T', 'U', 'S']);
    assert("CMD_START"@ =~= seq!['C', 'M', 'D', '_', 'S', 'T', 'A', 'R', 'T']);
    assert("CMD_END"@ =~= seq!['C', 'M', 'D', '_', 'E', 'N', 'D']);
    assert("SUBSCRIBE"@ =~= seq!['S', 'U', 'B', 'S', 'C', 'R', 'I', 'B', 'E']);
    assert("QUIT"@ =~= seq!['Q', 'U', 'I', 'T']);
}

/// The opcodes of responses are words.
proof fn lemma_response_words()
    ensures
        is_word("HELLO"@),
        is_word("NONE"@),
        is_word("ACK"@),
        is_word("EVENT"@),
        is_word("PING"@),
        is_word("OK"@),
        is_word("ERR"@),
{
    reveal_strlit("HELLO");
    reveal_strlit("NONE");
    reveal_strlit("ACK");
    reveal_strlit("EVENT");
    reveal_strlit("PING");
    reveal_strlit("OK");
    reveal_strlit("ERR");
    assert("HELLO"@ =~= seq!['H', 'E', 'L', 'L', 'O']);
    assert("NONE"@ =~= seq!['N', 'O', 'N', 'E']);
    assert("ACK"@ =~= seq!['A', 'C', 'K']);
    assert("EVENT"@ =~= seq!['E', 'V', 'E', 'N', 'T']);
    assert("PING"@ =~= seq!['P', 'I', 'N', 'G']);
    assert("OK"@ =~= seq!['O', 'K']);
    assert("ERR"@ =~= seq!['E', 'R', 'R']);
}

/// The opcodes of requests are different.
proof fn lemma_request_opcodes()
    ensures
        "HELLO"@ != "STATUS"@,
        "HELLO"@ != "CMD_START"@,
        "HELLO"@ != "CMD_END"@,
        "HELLO"@ != "SUBSCRIBE"@,
        "HELLO"@ != "QUIT"@,
        "STATUS"@ != "CMD_START"@,
        "STATUS"@ != "CMD_END"@,
        "STATUS"@ != "SUBSCRIBE"@,
        "STATUS"@ != "QUIT"@,
        "CMD_START"@ != "CMD_END"@,
        "CMD_START"@ != "SUBSCRIBE"@,
        "CMD_START"@ != "QUIT"@,
        "CMD_END"@ != "SUBSCRIBE"@,
        "CMD_END"@ != "QUIT"@,
        "SUBSCRIBE"@ != "QUIT"@,
{
    reveal_strlit("HELLO");
    reveal_strlit("STATUS");
    reveal_strlit("CMD_START");
    reveal_strlit("CMD_END");
    reveal_strlit("SUBSCRIBE");
    reveal_strlit("QUIT");
    assert("HELLO"@.len() == 5);
    assert("STATUS"@.len() == 6);
    assert("CMD_START"@.len() == 9);
    assert("CMD_END"@.len() == 7);
    assert("SUBSCRIBE"@.len() == 9);
    assert("QUIT"@.len() == 4);
    assert("CMD_START"@[0] == 'C');
    assert("SUBSCRIBE"@[0] == 'S');
}

/// The opcodes of responses are different.
proof fn lemma_response_opcodes()
    ensures
        "HELLO"@ != "NONE"@,
        "HELLO"@ != "ACK"@,
        "HELLO"@ != "EVENT"@,
        "HELLO"@ != "PING"@,
        "HELLO"@ != "OK"@,
        "HELLO"@ != "ERR"@,
        "NONE"@ != "ACK"@,
        "NONE"@ != "EVENT"@,
        "NONE"@ != "PING"@,
        "NONE"@ != "OK"@,
        "NONE"@ != "ERR"@,
        "ACK"@ != "EVENT"@,
        "ACK"@ != "PING"@,
        "ACK"@ != "OK"@,
        "ACK"@ != "ERR"@,
        "EVENT"@ != "PING"@,
        "EVENT"@ != "OK"@,
        "EVENT"@ != "ERR"@,
        "PING"@ != "OK"@,
        "PING"@ != "ERR"@,
        "OK"@ != "ERR"@,
{
    reveal_strlit("HELLO");
    reveal_strlit("NONE");
    reveal_strlit("ACK");
    reveal_strlit("EVENT");
    reveal_strlit("PING");
    reveal_strlit("OK");
    reveal_strlit("ERR");
    assert("HELLO"@.len() == 5);
    assert("NONE"@.len() == 4);
    assert("ACK"@.len() == 3);
    assert("EVENT"@.len() == 5);
    assert("PING"@.len() == 4);
    assert("OK"@.len() == 2);
    assert("ERR"@.len() == 3);
    assert("HELLO"@[0] == 'H');
    assert("EVENT"@[0] == 'E');
    assert("NONE"@[0] == 'N');
    assert("PING"@[0] == 'P');
    assert("ACK"@[0] == 'A');
    assert("ERR"@[0] == 'E');
}

/// A literal that is an opcode and a space.
proof fn lemma_heads()
    ensures
        "HELLO "@ == "HELLO"@ + seq![' '],
        "STATUS "@ == "STATUS"@ + seq![' '],
        "PING "@ == "PING"@ + seq![' '],
        "ERR "@ == "ERR"@ + seq![' '],
{
    reveal_strlit("HELLO ");
    reveal_strlit("HELLO");
    reveal_strlit("STATUS ");
    reveal_strlit("STATUS");
    reveal_strlit("PING ");
    reveal_strlit("PING");
    reveal_strlit("ERR ");
    reveal_strlit("ERR");
    assert("HELLO "@ =~= "HELLO"@ + seq![' ']);
    assert("STATUS "@ =~= "STATUS"@ + seq![' ']);
    assert("PING "@ =~= "PING"@ + seq![' ']);
    assert("ERR "@ =~= "ERR"@ + seq![' ']);
}

proof fn lemma_plain_pairs(r: RequestView)
    ensures
        r matches RequestView::CmdStart(e) ==> is_plain(proto::cmd_start_pairs(e)),
        r matches RequestView::CmdEnd(e) ==> is_plain(proto::cmd_end_pairs(e)),
        r matches RequestView::Subscribe(c) ==> is_plain(proto::subscribe_pairs(c)),
{
    match r {
        RequestView::CmdStart(e) => {
            lemma_cmd_start_reads(e);
            lemma_reads_plain(Message::CmdStart, proto::cmd_start_pairs(e), cmd_start_fields(e));
        },
        RequestView::CmdEnd(e) => {
            lemma_cmd_end_reads(e);
            lemma_reads_plain(Message::CmdEnd, proto::cmd_end_pairs(e), cmd_end_fields(e));
        },
        RequestView::Subscribe(Some(p)) => {
            lemma_cmd_words();
            lemma_field_text(p);
        },
        _ => {},
    }
}

proof fn lemma_plain_event(e: EventView)
    ensures
        is_plain(proto::event_pairs(e)),
{
    lemma_cmd_words();
    lemma_capture_words();
    lemma_field_text(e.topic);
    if let Some(p) = e.cwd {
        lemma_field_text(p);
    }
    if let Some(i) = e.id {
        lemma_field_text(i);
    }
}

proof fn lemma_plain_status(s: RepoStatusView)
    ensures
        is_plain(proto::status_pairs(s)),
{
    lemma_status_reads(s);
    lemma_reads_plain(Message::Status, proto::status_pairs(s), status_fields(s));
}

// ── Laws ────────────────────────────────────────────────────────────────────

/// An encoded request is decoded to the request. The one request that is not
/// is `STATUS` with an empty path, which the decoder refuses.
pub proof fn law_request_reads_back(r: RequestView)
    requires
        r matches RequestView::Status(p) ==> p.len() > 0,
    ensures
        proto::request_of(proto::request_line(r)) == Ok::<RequestView, ProtoErrorView>(r),
{
    lemma_request_words();
    lemma_request_opcodes();
    lemma_heads();
    lemma_plain_pairs(r);
    let line = proto::request_line(r);
    let rest = proto::split_opcode_of(line).1;
    match r {
        RequestView::Hello(v) => {
            lemma_digits_visible(v as nat);
            lemma_argument_line("HELLO"@, "HELLO "@, decimal::dec_digits(v as nat));
            decimal::law_parse_unsigned_reads_back(v as nat, u32::MAX as nat);
        },
        RequestView::Status(p) => {
            lemma_encoded_visible(p);
            lemma_argument_line("STATUS"@, "STATUS "@, percent::percent_encoded(p));
            percent::law_decode_inverts_encode(p);
            if percent::percent_encoded(p).len() == 0 {
                percent::law_decode_inverts_encode(Seq::empty());
                assert(vstd::utf8::encode_utf8(Seq::<char>::empty()).len() == 0);
                assert(percent::percent_encoded(Seq::empty()) =~= percent::percent_encoded(p));
            }
        },
        RequestView::CmdStart(e) => {
            lemma_opcode_line("CMD_START"@, proto::cmd_start_pairs(e));
            lemma_cmd_start_back(e, rest);
        },
        RequestView::CmdEnd(e) => {
            lemma_opcode_line("CMD_END"@, proto::cmd_end_pairs(e));
            lemma_cmd_end_back(e, rest);
        },
        RequestView::Subscribe(c) => {
            lemma_opcode_line("SUBSCRIBE"@, proto::subscribe_pairs(c));
            lemma_subscribe_back(c, rest);
        },
        RequestView::Quit => {
            lemma_word_line("QUIT"@);
        },
    }
}

/// An encoded response is decoded to the response.
pub proof fn law_response_reads_back(r: ResponseView)
    ensures
        proto::response_of(proto::response_line(r)) == Ok::<ResponseView, ProtoErrorView>(r),
{
    lemma_response_words();
    lemma_response_opcodes();
    lemma_heads();
    let line = proto::response_line(r);
    let rest = proto::split_opcode_of(line).1;
    match r {
        ResponseView::Hello(v) => {
            lemma_digits_visible(v as nat);
            lemma_argument_line("HELLO"@, "HELLO "@, decimal::dec_digits(v as nat));
            decimal::law_parse_unsigned_reads_back(v as nat, u32::MAX as nat);
        },
        ResponseView::Status(None) => {
            lemma_word_line("NONE"@);
        },
        ResponseView::Status(Some(s)) => {
            lemma_plain_status(s);
            lemma_opcode_line("OK"@, proto::status_pairs(s));
            lemma_status_back(s, rest);
        },
        ResponseView::Ack => {
            lemma_word_line("ACK"@);
        },
        ResponseView::Event(e) => {
            lemma_plain_event(e);
            lemma_opcode_line("EVENT"@, proto::event_pairs(e));
            lemma_event_back(e, rest);
        },
        ResponseView::Ping(ts) => {
            lemma_int_visible(ts as int);
            lemma_argument_line("PING"@, "PING "@, decimal::dec_int(ts as int));
            decimal::law_parse_signed_reads_back(ts as int, i64::MIN as int, i64::MAX as int);
        },
        ResponseView::Error(reason) => {
            lemma_encoded_visible(reason);
            lemma_argument_line("ERR"@, "ERR "@, percent::percent_encoded(reason));
            percent::law_decode_inverts_encode(reason);
        },
    }
}

/// Only spaces and visible characters.
pub open spec fn is_one_line(s: Seq<char>) -> bool {
    forall|i: int| 0 <= i < s.len() ==> #[trigger] s[i] == ' ' || '!' <= s[i] <= '~'
}

proof fn lemma_one_line(a: Seq<char>, b: Seq<char>)
    requires
        is_one_line(a),
        is_one_line(b),
    ensures
        is_one_line(a + b),
{
    assert forall|i: int| 0 <= i < (a + b).len() implies #[trigger] (a + b)[i] == ' ' || '!' <= (a
        + b)[i] <= '~' by {
        if i < a.len() {
            assert((a + b)[i] == a[i]);
        } else {
            assert((a + b)[i] == b[i - a.len()]);
        }
    }
}

/// A request is one line, whatever its fields hold: no line break, no tab, no
/// other control character, nothing outside ASCII.
pub proof fn law_request_is_one_line(r: RequestView)
    ensures
        is_one_line(proto::request_line(r)),
{
    lemma_request_words();
    lemma_heads();
    lemma_plain_pairs(r);
    match r {
        RequestView::Hello(v) => {
            lemma_digits_visible(v as nat);
            lemma_one_line("HELLO "@, decimal::dec_digits(v as nat));
        },
        RequestView::Status(p) => {
            lemma_encoded_visible(p);
            lemma_one_line("STATUS "@, percent::percent_encoded(p));
        },
        RequestView::CmdStart(e) => {
            lemma_line_chars(proto::cmd_start_pairs(e));
            lemma_one_line("CMD_START"@, proto::kv_line(proto::cmd_start_pairs(e)));
        },
        RequestView::CmdEnd(e) => {
            lemma_line_chars(proto::cmd_end_pairs(e));
            lemma_one_line("CMD_END"@, proto::kv_line(proto::cmd_end_pairs(e)));
        },
        RequestView::Subscribe(c) => {
            lemma_line_chars(proto::subscribe_pairs(c));
            lemma_one_line("SUBSCRIBE"@, proto::kv_line(proto::subscribe_pairs(c)));
        },
        RequestView::Quit => {},
    }
}

/// A response is one line, whatever its fields hold.
pub proof fn law_response_is_one_line(r: ResponseView)
    ensures
        is_one_line(proto::response_line(r)),
{
    lemma_response_words();
    lemma_heads();
    match r {
        ResponseView::Hello(v) => {
            lemma_digits_visible(v as nat);
            lemma_one_line("HELLO "@, decimal::dec_digits(v as nat));
        },
        ResponseView::Status(Some(s)) => {
            lemma_plain_status(s);
            lemma_line_chars(proto::status_pairs(s));
            lemma_one_line("OK"@, proto::kv_line(proto::status_pairs(s)));
        },
        ResponseView::Event(e) => {
            lemma_plain_event(e);
            lemma_line_chars(proto::event_pairs(e));
            lemma_one_line("EVENT"@, proto::kv_line(proto::event_pairs(e)));
        },
        ResponseView::Ping(ts) => {
            lemma_int_visible(ts as int);
            lemma_one_line("PING "@, decimal::dec_int(ts as int));
        },
        ResponseView::Error(reason) => {
            lemma_encoded_visible(reason);
            lemma_one_line("ERR "@, percent::percent_encoded(reason));
        },
        _ => {},
    }
}

/// A line ending, `\n` or `\r\n`, changes nothing after a line that has none.
pub proof fn law_line_ending_is_ignored(line: Seq<char>)
    requires
        line.len() > 0 ==> line.last() != '\n' && line.last() != '\r',
    ensures
        proto::request_of(line + seq!['\n']) == proto::request_of(line),
        proto::request_of(line + seq!['\r', '\n']) == proto::request_of(line),
        proto::response_of(line + seq!['\n']) == proto::response_of(line),
        proto::response_of(line + seq!['\r', '\n']) == proto::response_of(line),
{
    let a = line + seq!['\n'];
    let b = line + seq!['\r', '\n'];
    assert(a.drop_last() =~= line);
    assert(b.drop_last().drop_last() =~= line);
    assert(b.drop_last().last() == '\r');
    if line.len() > 0 {
        assert(line.last() == line[line.len() - 1]);
    }
}

/// A pair with a key that the message does not know can stand anywhere in the
/// payload: it raises no error, and the last value of every other key is the
/// same with and without it.
pub proof fn law_unknown_keys_are_ignored(
    m: Message,
    before: Seq<Seq<char>>,
    tok: Seq<char>,
    after: Seq<Seq<char>>,
    key: Seq<char>,
)
    requires
        text::split_once_of(tok, '=') matches Some(p) && proto::kind_of(m, p.0) == FieldKind::Ignored && p.0
            != key,
    ensures
        match proto::pairs_of(m, before + after) {
            Ok(ps) => proto::pairs_of(m, before + seq![tok] + after) matches Ok(qs) && proto::last_of(qs, key)
                == proto::last_of(ps, key),
            Err(e) => proto::pairs_of(m, before + seq![tok] + after) == Err::<
                Seq<(Seq<char>, FieldView)>,
                ProtoErrorView,
            >(e),
        },
    decreases after.len(),
{
    let with = before + seq![tok] + after;
    let without = before + after;
    if after.len() == 0 {
        assert(with.drop_last() =~= before);
        assert(without =~= before);
        assert(with.last() == tok);
        if let Ok(ps) = proto::pairs_of(m, before) {
            let k = (text::split_once_of(tok, '=')->0).0;
            let qs = ps.push((k, FieldView::Ignored));
            assert(qs.drop_last() =~= ps);
        }
    } else {
        let a2 = after.drop_last();
        law_unknown_keys_are_ignored(m, before, tok, a2, key);
        assert(with.drop_last() =~= before + seq![tok] + a2);
        assert(without.drop_last() =~= before + a2);
        assert(with.last() == after.last());
        assert(without.last() == after.last());
        if let Ok(ps) = proto::pairs_of(m, before + a2) {
            let qs = proto::pairs_of(m, before + seq![tok] + a2)->Ok_0;
            if let Ok(p) = proto::pair_of(m, after.last()) {
                assert(ps.push(p).drop_last() =~= ps);
                assert(qs.push(p).drop_last() =~= qs);
            }
        }
    }
}

/// Whether a token's key is one that message `m` does not know.
pub open spec fn is_unknown(m: Message, tok: Seq<char>) -> bool {
    text::split_once_of(tok, '=') matches Some(p) && proto::kind_of(m, p.0) == FieldKind::Ignored
}

/// Whether a token gives `key` a value.
pub open spec fn sets(tok: Seq<char>, key: Seq<char>) -> bool {
    text::split_once_of(tok, '=') matches Some(p) && p.0 == key
}

/// Whether no key that message `m` knows is given a value twice.
pub open spec fn each_key_once(m: Message, toks: Seq<Seq<char>>) -> bool {
    forall|i: int, j: int, key: Seq<char>|
        0 <= i < j < toks.len() && proto::kind_of(m, key) != FieldKind::Ignored && #[trigger] sets(
            toks[i],
            key,
        ) ==> !#[trigger] sets(toks[j], key)
}

/// Whether two payloads hold the same tokens, but for their order and for the keys that
/// message `m` does not know, and no known key twice.
pub open spec fn same_fields(m: Message, rest: Seq<char>, other: Seq<char>) -> bool {
    let toks = text::tokens_of(rest);
    let others = text::tokens_of(other);
    &&& each_key_once(m, toks)
    &&& each_key_once(m, others)
    &&& forall|t: Seq<char>| !is_unknown(m, t) ==> (#[trigger] toks.contains(t) <==> others.contains(t))
}

/// A payload is read where each of its tokens is.
proof fn lemma_pairs(m: Message, toks: Seq<Seq<char>>)
    ensures
        match proto::pairs_of(m, toks) {
            Ok(ps) => ps.len() == toks.len() && forall|i: int|
                0 <= i < toks.len() ==> proto::pair_of(m, #[trigger] toks[i]) == Ok::<
                    (Seq<char>, FieldView),
                    ProtoErrorView,
                >(ps[i]),
            Err(_) => exists|i: int| 0 <= i < toks.len() && proto::pair_of(m, #[trigger] toks[i]) is Err,
        },
    decreases toks.len(),
{
    if toks.len() > 0 {
        let init = toks.drop_last();
        lemma_pairs(m, init);
        match proto::pairs_of(m, init) {
            Err(_) => {
                let i = choose|i: int| 0 <= i < init.len() && proto::pair_of(m, #[trigger] init[i]) is Err;
                assert(toks[i] == init[i]);
            },
            Ok(ps) => {
                assert(toks[toks.len() - 1] == toks.last());
                if let Ok(p) = proto::pair_of(m, toks.last()) {
                    let all = ps.push(p);
                    assert forall|i: int| 0 <= i < toks.len() implies proto::pair_of(
                        m,
                        #[trigger] toks[i],
                    ) == Ok::<(Seq<char>, FieldView), ProtoErrorView>(all[i]) by {
                        if i < init.len() {
                            assert(toks[i] == init[i]);
                        }
                    }
                }
            },
        }
    }
}

/// With the same fields, where the one payload is read the other is.
proof fn lemma_same_read(m: Message, rest: Seq<char>, other: Seq<char>)
    requires
        same_fields(m, rest, other),
        proto::pairs_of(m, text::tokens_of(rest)) is Ok,
    ensures
        proto::pairs_of(m, text::tokens_of(other)) is Ok,
{
    let toks = text::tokens_of(rest);
    let others = text::tokens_of(other);
    lemma_pairs(m, toks);
    lemma_pairs(m, others);
    if proto::pairs_of(m, others) is Err {
        let j = choose|j: int| 0 <= j < others.len() && proto::pair_of(m, #[trigger] others[j]) is Err;
        let t = others[j];
        assert(!is_unknown(m, t));
        assert(others.contains(t));
        assert(toks.contains(t));
        let i = choose|i: int| 0 <= i < toks.len() && toks[i] == t;
        assert(proto::pair_of(m, toks[i]) is Ok);
    }
}

/// With the same fields, every known key has the same value.
proof fn lemma_same_value(m: Message, rest: Seq<char>, other: Seq<char>, key: Seq<char>)
    requires
        same_fields(m, rest, other),
        proto::pairs_of(m, text::tokens_of(rest)) is Ok,
        proto::kind_of(m, key) != FieldKind::Ignored,
    ensures
        proto::pairs_of(m, text::tokens_of(other)) is Ok,
        proto::last_of(proto::pairs_of(m, text::tokens_of(rest))->Ok_0, key) == proto::last_of(
            proto::pairs_of(m, text::tokens_of(other))->Ok_0,
            key,
        ),
{
    let toks = text::tokens_of(rest);
    let others = text::tokens_of(other);
    lemma_same_read(m, rest, other);
    lemma_pairs(m, toks);
    lemma_pairs(m, others);
    let ps = proto::pairs_of(m, toks)->Ok_0;
    let qs = proto::pairs_of(m, others)->Ok_0;
    assert forall|i: int| 0 <= i < toks.len() implies sets(toks[i], key) == (#[trigger] ps[i].0 == key) by {
        assert(proto::pair_of(m, toks[i]) is Ok);
    }
    assert forall|j: int| 0 <= j < others.len() implies sets(others[j], key) == (#[trigger] qs[j].0 == key) by {
        assert(proto::pair_of(m, others[j]) is Ok);
    }
    if exists|i: int| 0 <= i < toks.len() && sets(#[trigger] toks[i], key) {
        let i = choose|i: int| 0 <= i < toks.len() && sets(#[trigger] toks[i], key);
        let t = toks[i];
        assert(toks.contains(t));
        assert(!is_unknown(m, t));
        assert(others.contains(t));
        let j = choose|j: int| 0 <= j < others.len() && others[j] == t;
        assert forall|k: int| i < k < ps.len() implies #[trigger] ps[k].0 != key by {
            assert(!sets(toks[k], key));
        }
        assert forall|k: int| j < k < qs.len() implies #[trigger] qs[k].0 != key by {
            assert(!sets(others[k], key));
        }
        assert(ps[i].0 == key && qs[j].0 == key);
        lemma_last_at(ps, key, i);
        lemma_last_at(qs, key, j);
        assert(proto::pair_of(m, toks[i]) == proto::pair_of(m, others[j]));
    } else {
        assert forall|k: int| 0 <= k < ps.len() implies #[trigger] ps[k].0 != key by {
            assert(!sets(toks[k], key));
        }
        assert forall|k: int| 0 <= k < qs.len() implies #[trigger] qs[k].0 != key by {
            if sets(others[k], key) {
                let t = others[k];
                assert(others.contains(t));
                assert(!is_unknown(m, t));
                assert(toks.contains(t));
                let i = choose|i: int| 0 <= i < toks.len() && toks[i] == t;
                assert(sets(toks[i], key));
            }
        }
        lemma_last_absent(ps, key);
        lemma_last_absent(qs, key);
    }
}

/// The payloads of two `CMD_START` lines with the same fields, in whatever order and
/// with whatever unknown keys, hold the same event, or none.
pub proof fn law_cmd_start_order_is_free(rest: Seq<char>, other: Seq<char>)
    requires
        same_fields(Message::CmdStart, rest, other),
    ensures
        proto::cmd_start_of(rest) is Ok <==> proto::cmd_start_of(other) is Ok,
        proto::cmd_start_of(rest) matches Ok(e) ==> proto::cmd_start_of(other) == Ok::<
            CmdStartView,
            ProtoErrorView,
        >(e),
{
    let m = Message::CmdStart;
    if proto::pairs_of(m, text::tokens_of(other)) is Ok {
        lemma_same_read(m, other, rest);
    }
    if proto::pairs_of(m, text::tokens_of(rest)) is Ok {
        lemma_same_value(m, rest, other, "id"@);
        lemma_same_value(m, rest, other, "session"@);
        lemma_same_value(m, rest, other, "host"@);
        lemma_same_value(m, rest, other, "cwd"@);
        lemma_same_value(m, rest, other, "cmd"@);
        lemma_same_value(m, rest, other, "started_at"@);
    }
}

/// The payloads of two `CMD_END` lines with the same fields, in whatever order and with
/// whatever unknown keys, hold the same event, or none.
pub proof fn law_cmd_end_order_is_free(rest: Seq<char>, other: Seq<char>)
    requires
        same_fields(Message::CmdEnd, rest, other),
    ensures
        proto::cmd_end_of(rest) is Ok <==> proto::cmd_end_of(other) is Ok,
        proto::cmd_end_of(rest) matches Ok(e) ==> proto::cmd_end_of(other) == Ok::<
            CmdEndView,
            ProtoErrorView,
        >(e),
{
    let m = Message::CmdEnd;
    if proto::pairs_of(m, text::tokens_of(other)) is Ok {
        lemma_same_read(m, other, rest);
    }
    if proto::pairs_of(m, text::tokens_of(rest)) is Ok {
        lemma_same_value(m, rest, other, "id"@);
        lemma_same_value(m, rest, other, "finished_at"@);
        lemma_same_value(m, rest, other, "duration_ms"@);
        lemma_same_value(m, rest, other, "exit"@);
        lemma_same_value(m, rest, other, "output_bytes"@);
        lemma_same_value(m, rest, other, "output_truncated"@);
    }
}

/// The payloads of two `OK` lines with the same fields, in whatever order and with
/// whatever unknown keys, hold the same status, or none.
pub proof fn law_status_order_is_free(rest: Seq<char>, other: Seq<char>)
    requires
        same_fields(Message::Status, rest, other),
    ensures
        proto::status_of(rest) is Ok <==> proto::status_of(other) is Ok,
        proto::status_of(rest) matches Ok(s) ==> proto::status_of(other) == Ok::<
            RepoStatusView,
            ProtoErrorView,
        >(s),
{
    let m = Message::Status;
    if proto::pairs_of(m, text::tokens_of(other)) is Ok {
        lemma_same_read(m, other, rest);
    }
    if proto::pairs_of(m, text::tokens_of(rest)) is Ok {
        lemma_same_value(m, rest, other, "repo_name"@);
        lemma_same_value(m, rest, other, "branch"@);
        lemma_same_value(m, rest, other, "detached"@);
        lemma_same_value(m, rest, other, "state"@);
        lemma_same_value(m, rest, other, "staged"@);
        lemma_same_value(m, rest, other, "modified"@);
        lemma_same_value(m, rest, other, "untracked"@);
        lemma_same_value(m, rest, other, "conflicted"@);
        lemma_same_value(m, rest, other, "ahead"@);
        lemma_same_value(m, rest, other, "behind"@);
        lemma_same_value(m, rest, other, "stashed"@);
    }
}

/// The payloads of two `SUBSCRIBE` lines with the same fields, in whatever order and
/// with whatever unknown keys, hold the same filter, or none.
pub proof fn law_subscribe_order_is_free(rest: Seq<char>, other: Seq<char>)
    requires
        same_fields(Message::Subscribe, rest, other),
    ensures
        proto::subscribe_of(rest) is Ok <==> proto::subscribe_of(other) is Ok,
        proto::subscribe_of(rest) matches Ok(s) ==> proto::subscribe_of(other) == Ok::<
            Option<Seq<char>>,
            ProtoErrorView,
        >(s),
{
    let m = Message::Subscribe;
    if proto::pairs_of(m, text::tokens_of(other)) is Ok {
        lemma_same_read(m, other, rest);
    }
    if proto::pairs_of(m, text::tokens_of(rest)) is Ok {
        lemma_same_value(m, rest, other, "cwd"@);
    }
}

/// The payloads of two `EVENT` lines with the same fields, in whatever order and with
/// whatever unknown keys, hold the same event, or none.
pub proof fn law_event_order_is_free(rest: Seq<char>, other: Seq<char>)
    requires
        same_fields(Message::Event, rest, other),
    ensures
        proto::event_of(rest) is Ok <==> proto::event_of(other) is Ok,
        proto::event_of(rest) matches Ok(e) ==> proto::event_of(other) == Ok::<EventView, ProtoErrorView>(e),
{
    let m = Message::Event;
    if proto::pairs_of(m, text::tokens_of(other)) is Ok {
        lemma_same_read(m, other, rest);
    }
    if proto::pairs_of(m, text::tokens_of(rest)) is Ok {
        lemma_same_value(m, rest, other, "type"@);
        lemma_same_value(m, rest, other, "cwd"@);
        lemma_same_value(m, rest, other, "id"@);
    }
}

} // verus!
