//! The query over the log of commands.

use vstd::prelude::*;
use crate::history::args::{Filters, FiltersView};
use crate::text;
use crate::text::{chars_of, join_strs, joined, str_eq};

verus! {

/// The columns, in the order in which a [`Row`](crate::history::render::Row)
/// takes them.
pub const BASE_SELECT: &'static str =
    "SELECT id, session_id, hostname, cwd, cmd, started_at, finished_at, duration_ms, exit_status FROM commands";

/// What a query for the rows of one command each begins with: the same rows, each with
/// its place among those of its command.
pub const PLACED_SELECT: &'static str =
    "SELECT id, session_id, hostname, cwd, cmd, started_at, finished_at, duration_ms, exit_status FROM (SELECT *, ROW_NUMBER() OVER (PARTITION BY cmd ORDER BY started_at DESC, id DESC) AS place FROM commands";

/// What it ends with: the first of each command.
pub const FIRST_OF_EACH: &'static str = ") WHERE place = 1 ORDER BY started_at DESC LIMIT ?";

/// A parameter of a query.
#[derive(Debug, Clone, PartialEq, Eq)]
pub enum SqlValue {
    Text(String),
    Integer(i64),
}

pub enum SqlView {
    Text(Seq<char>),
    Integer(i64),
}

impl View for SqlValue {
    type V = SqlView;

    open spec fn view(&self) -> SqlView {
        match self {
            SqlValue::Text(t) => SqlView::Text(t@),
            SqlValue::Integer(n) => SqlView::Integer(*n),
        }
    }
}

/// The values of a vector of parameters.
pub open spec fn sql_views(v: Seq<SqlValue>) -> Seq<SqlView> {
    Seq::new(v.len(), |i: int| v[i]@)
}

// ── LIKE patterns ───────────────────────────────────────────────────────────

/// The characters that a `LIKE` pattern reads specially.
pub open spec fn is_like_special(c: char) -> bool {
    c == '%' || c == '_' || c == '\\'
}

/// `s` with a backslash before each special character.
pub open spec fn like_escaped(s: Seq<char>) -> Seq<char>
    decreases s.len(),
{
    if s.len() == 0 {
        Seq::empty()
    } else if is_like_special(s[0]) {
        seq!['\\', s[0]] + like_escaped(s.skip(1))
    } else {
        seq![s[0]] + like_escaped(s.skip(1))
    }
}

/// `s` as a `LIKE` pattern that stands for itself under `ESCAPE '\'`.
pub fn like_escape(s: &str) -> (r: String)
    ensures
        r@ == like_escaped(s@),
{
    let v: Vec<char> = chars_of(s);
    let mut out: String = String::new();
    let mut i: usize = 0;
    proof {
        assert(v@.skip(0) =~= v@);
        assert(out@ + like_escaped(v@.skip(0)) =~= like_escaped(v@));
    }
    while i < v.len()
        invariant
            i <= v@.len(),
            out@ + like_escaped(v@.skip(i as int)) == like_escaped(v@),
        decreases v@.len() - i,
    {
        let ghost rest = v@.skip(i as int);
        let ghost before = out@;
        let c: char = v[i];
        if c == '%' || c == '_' || c == '\\' {
            out.push('\\');
        }
        out.push(c);
        proof {
            assert(rest[0] == c);
            assert(rest.skip(1) =~= v@.skip(i as int + 1));
            assert(out@ + like_escaped(rest.skip(1)) =~= before + like_escaped(rest));
        }
        i += 1;
    }
    proof {
        assert(v@.skip(i as int).len() == 0);
        assert(out@ + like_escaped(v@.skip(i as int)) =~= out@);
    }
    out
}

/// The text that a `LIKE` pattern without wildcards stands for: a backslash
/// takes the next character as it is. `None` where a wildcard is left, or a
/// backslash has nothing to take.
pub open spec fn like_literal(p: Seq<char>) -> Option<Seq<char>>
    decreases p.len(),
{
    if p.len() == 0 {
        Some(Seq::empty())
    } else if p[0] == '\\' {
        if p.len() == 1 {
            None
        } else {
            match like_literal(p.skip(2)) {
                Some(t) => Some(seq![p[1]] + t),
                None => None,
            }
        }
    } else if is_like_special(p[0]) {
        None
    } else {
        match like_literal(p.skip(1)) {
            Some(t) => Some(seq![p[0]] + t),
            None => None,
        }
    }
}

/// An escaped pattern carries no wildcard, and stands for exactly the text that
/// was escaped.
pub proof fn law_like_escape_is_literal(s: Seq<char>)
    ensures
        like_literal(like_escaped(s)) == Some(s),
    decreases s.len(),
{
    if s.len() == 0 {
        assert(s =~= Seq::empty());
    } else {
        law_like_escape_is_literal(s.skip(1));
        let e = like_escaped(s);
        assert(seq![s[0]] + s.skip(1) =~= s);
        if is_like_special(s[0]) {
            assert(e[0] == '\\' && e[1] == s[0]);
            assert(e.skip(2) =~= like_escaped(s.skip(1)));
        } else {
            assert(e[0] == s[0]);
            assert(e.skip(1) =~= like_escaped(s.skip(1)));
        }
    }
}

// ── Clauses and parameters ──────────────────────────────────────────────────

/// `s` alone, where `b` holds.
#[verifier::opaque]
pub open spec fn when(b: bool, s: Seq<char>) -> Seq<Seq<char>> {
    if b {
        seq![s]
    } else {
        Seq::empty()
    }
}

#[verifier::opaque]
pub open spec fn text_param(o: Option<Seq<char>>) -> Seq<SqlView> {
    match o {
        Some(t) => seq![SqlView::Text(t)],
        None => Seq::empty(),
    }
}

#[verifier::opaque]
pub open spec fn int_param(o: Option<i64>) -> Seq<SqlView> {
    match o {
        Some(n) => seq![SqlView::Integer(n)],
        None => Seq::empty(),
    }
}

pub open spec fn widened(o: Option<i32>) -> Option<i64> {
    match o {
        Some(n) => Some(n as i64),
        None => None,
    }
}

/// The pattern of the paths that begin with `root`.
pub open spec fn prefix_pattern(root: Option<Seq<char>>) -> Option<Seq<char>> {
    match root {
        Some(p) => Some(like_escaped(p) + seq!['%']),
        None => None,
    }
}

/// The pattern of the texts that hold `pat`.
pub open spec fn infix_pattern(pat: Option<Seq<char>>) -> Option<Seq<char>> {
    match pat {
        Some(p) => Some(seq!['%'] + like_escaped(p) + seq!['%']),
        None => None,
    }
}

/// One clause for each filter that is set.
#[verifier::opaque]
pub open spec fn clauses_of(f: FiltersView) -> Seq<Seq<char>> {
    when(f.cwd is Some, "cwd = ?"@) + when(f.session is Some, "session_id = ?"@) + when(
        f.host is Some,
        "hostname = ?"@,
    ) + when(f.exit_eq is Some, "exit_status = ?"@) + when(f.failed_only, "exit_status > 0"@)
        + when(f.success_only, "exit_status = 0"@) + when(f.since_ms is Some, "started_at >= ?"@)
        + when(f.until_ms is Some, "started_at <= ?"@) + when(
        f.workspace_prefix is Some,
        "cwd LIKE ? ESCAPE '\\'"@,
    ) + when(f.grep is Some, "cmd LIKE ? ESCAPE '\\'"@) + when(f.exclude_cwd is Some, "cwd != ?"@)
        + when(f.exclude_host is Some, "hostname != ?"@) + when(
        f.exclude_exit is Some,
        "(exit_status != ? OR exit_status IS NULL)"@,
    ) + when(f.exclude_session is Some, "session_id != ?"@)
}

/// The parameters of those clauses.
#[verifier::opaque]
pub open spec fn filter_params_of(f: FiltersView) -> Seq<SqlView> {
    text_param(f.cwd) + text_param(f.session) + text_param(f.host) + int_param(widened(f.exit_eq))
        + int_param(f.since_ms) + int_param(f.until_ms) + text_param(
        prefix_pattern(f.workspace_prefix),
    ) + text_param(infix_pattern(f.grep)) + text_param(f.exclude_cwd) + text_param(f.exclude_host)
        + int_param(widened(f.exclude_exit)) + text_param(f.exclude_session)
}

/// ` WHERE` and the clauses, where there are any.
pub open spec fn where_of(f: FiltersView) -> Seq<char> {
    if clauses_of(f).len() == 0 {
        Seq::empty()
    } else {
        " WHERE "@ + text::join_of(clauses_of(f), " AND "@)
    }
}

/// The text of the query. With `unique` the rows that pass the filters are placed
/// within their command, the latest first and among rows of one instant that of the
/// greatest id, and the first of each command is kept.
pub open spec fn sql_of(f: FiltersView) -> Seq<char> {
    if f.unique {
        PLACED_SELECT@ + where_of(f) + FIRST_OF_EACH@
    } else {
        BASE_SELECT@ + where_of(f) + " ORDER BY started_at DESC LIMIT ?"@
    }
}

/// The limit as a parameter.
pub open spec fn limit_param(limit: usize) -> SqlView {
    SqlView::Integer(
        if limit > i64::MAX {
            i64::MAX
        } else {
            limit as i64
        },
    )
}

/// The parameters of the query: those of the filters, and the limit.
pub open spec fn params_of(f: FiltersView) -> Seq<SqlView> {
    filter_params_of(f).push(limit_param(f.limit))
}

fn add_text(
    clauses: &mut Vec<&'static str>,
    params: &mut Vec<SqlValue>,
    o: &Option<String>,
    clause: &'static str,
)
    ensures
        text::str_views(final(clauses)@) == text::str_views(old(clauses)@) + when(o is Some, clause@),
        sql_views(final(params)@) == sql_views(old(params)@) + text_param(
            text::opt_view(*o),
        ),
{
    proof {
        reveal(when);
        reveal(text_param);
    }
    if let Some(t) = o {
        clauses.push(clause);
        params.push(SqlValue::Text(t.clone()));
    }
    proof {
        assert(text::str_views(clauses@) =~= text::str_views(old(clauses)@) + when(o is Some, clause@));
        assert(sql_views(params@) =~= sql_views(old(params)@) + text_param(
            text::opt_view(*o),
        ));
    }
}

fn add_int(
    clauses: &mut Vec<&'static str>,
    params: &mut Vec<SqlValue>,
    o: Option<i64>,
    clause: &'static str,
)
    ensures
        text::str_views(final(clauses)@) == text::str_views(old(clauses)@) + when(o is Some, clause@),
        sql_views(final(params)@) == sql_views(old(params)@) + int_param(o),
{
    proof {
        reveal(when);
        reveal(int_param);
    }
    if let Some(n) = o {
        clauses.push(clause);
        params.push(SqlValue::Integer(n));
    }
    proof {
        assert(text::str_views(clauses@) =~= text::str_views(old(clauses)@) + when(o is Some, clause@));
        assert(sql_views(params@) =~= sql_views(old(params)@) + int_param(o));
    }
}

fn add_switch(clauses: &mut Vec<&'static str>, on: bool, clause: &'static str)
    ensures
        text::str_views(final(clauses)@) == text::str_views(old(clauses)@) + when(on, clause@),
{
    proof {
        reveal(when);
    }
    if on {
        clauses.push(clause);
    }
    proof {
        assert(text::str_views(clauses@) =~= text::str_views(old(clauses)@) + when(on, clause@));
    }
}

fn widen(o: Option<i32>) -> (r: Option<i64>)
    ensures
        r == widened(o),
{
    match o {
        Some(n) => Some(n as i64),
        None => None,
    }
}

fn prefix_of(o: &Option<String>) -> (r: Option<String>)
    ensures
        text::opt_view(r) == prefix_pattern(text::opt_view(*o)),
{
    match o {
        Some(p) => {
            let mut out: String = like_escape(p.as_str());
            out.push('%');
            proof {
                assert(out@ =~= like_escaped(p@) + seq!['%']);
            }
            Some(out)
        },
        None => None,
    }
}

fn infix_of(o: &Option<String>) -> (r: Option<String>)
    ensures
        text::opt_view(r) == infix_pattern(text::opt_view(*o)),
{
    match o {
        Some(p) => {
            let mut out: String = String::new();
            out.push('%');
            out.push_str(like_escape(p.as_str()).as_str());
            out.push('%');
            proof {
                assert(out@ =~= seq!['%'] + like_escaped(p@) + seq!['%']);
            }
            Some(out)
        },
        None => None,
    }
}

/// The clauses and the parameters of the filters.
fn build_filters(f: &Filters) -> (r: (Vec<&'static str>, Vec<SqlValue>))
    ensures
        text::str_views(r.0@) == clauses_of(f@),
        sql_views(r.1@) == filter_params_of(f@),
{
    let mut cs: Vec<&'static str> = Vec::new();
    let mut ps: Vec<SqlValue> = Vec::new();
    add_text(&mut cs, &mut ps, &f.cwd, "cwd = ?");
    proof {
        assert(text::str_views(cs@) =~= when(f.cwd is Some, "cwd = ?"@));
        assert(sql_views(ps@) =~= text_param(f@.cwd));
    }
    add_text(&mut cs, &mut ps, &f.session, "session_id = ?");
    add_text(&mut cs, &mut ps, &f.host, "hostname = ?");
    add_int(&mut cs, &mut ps, widen(f.exit_eq), "exit_status = ?");
    add_switch(&mut cs, f.failed_only, "exit_status > 0");
    add_switch(&mut cs, f.success_only, "exit_status = 0");
    add_int(&mut cs, &mut ps, f.since_ms, "started_at >= ?");
    add_int(&mut cs, &mut ps, f.until_ms, "started_at <= ?");
    let prefix: Option<String> = prefix_of(&f.workspace_prefix);
    add_text(&mut cs, &mut ps, &prefix, "cwd LIKE ? ESCAPE '\\'");
    let infix: Option<String> = infix_of(&f.grep);
    add_text(&mut cs, &mut ps, &infix, "cmd LIKE ? ESCAPE '\\'");
    add_text(&mut cs, &mut ps, &f.exclude_cwd, "cwd != ?");
    add_text(&mut cs, &mut ps, &f.exclude_host, "hostname != ?");
    add_int(
        &mut cs,
        &mut ps,
        widen(f.exclude_exit),
        "(exit_status != ? OR exit_status IS NULL)",
    );
    add_text(&mut cs, &mut ps, &f.exclude_session, "session_id != ?");
    proof {
        reveal(clauses_of);
        reveal(filter_params_of);
    }
    (cs, ps)
}

fn limit_value(limit: usize) -> (r: SqlValue)
    ensures
        r@ == limit_param(limit),
{
    let n: u64 = limit as u64;
    if n > i64::MAX as u64 {
        SqlValue::Integer(i64::MAX)
    } else {
        SqlValue::Integer(n as i64)
    }
}

/// The query for `f`: its text and its parameters.
pub fn build_query(f: &Filters) -> (r: (String, Vec<SqlValue>))
    ensures
        r.0@ == sql_of(f@),
        sql_views(r.1@) == params_of(f@),
{
    let (cs, mut ps) = build_filters(f);
    let any: bool = cs.len() > 0;
    proof {
        assert(clauses_of(f@).len() == cs@.len());
    }
    let filter_where: String = if any {
        let filter_join: String = join_strs(&cs, " AND ");
        joined(" WHERE ", filter_join.as_str())
    } else {
        String::new()
    };
    let mut sql: String = if f.unique {
        PLACED_SELECT.to_owned()
    } else {
        BASE_SELECT.to_owned()
    };
    sql.push_str(filter_where.as_str());
    if f.unique {
        sql.push_str(FIRST_OF_EACH);
    } else {
        sql.push_str(" ORDER BY started_at DESC LIMIT ?");
    }
    let ghost once = ps@;
    ps.push(limit_value(f.limit));
    proof {
        assert(sql_views(ps@) =~= sql_views(once).push(limit_param(f.limit)));
    }
    (sql, ps)
}

// ── Placeholders ────────────────────────────────────────────────────────────

/// The number of question marks in `s`.
#[verifier::opaque]
pub open spec fn marks(s: Seq<char>) -> nat
    decreases s.len(),
{
    if s.len() == 0 {
        0
    } else {
        marks(s.drop_last()) + if s.last() == '?' {
            1nat
        } else {
            0
        }
    }
}

/// The number of question marks in a run of texts.
#[verifier::opaque]
spec fn marks_all(parts: Seq<Seq<char>>) -> nat
    decreases parts.len(),
{
    if parts.len() == 0 {
        0
    } else {
        marks_all(parts.drop_last()) + marks(parts.last())
    }
}

proof fn lemma_marks_add(a: Seq<char>, b: Seq<char>)
    ensures
        marks(a + b) == marks(a) + marks(b),
    decreases b.len(),
{
    reveal_with_fuel(marks, 2);
    if b.len() == 0 {
        assert(a + b =~= a);
    } else {
        lemma_marks_add(a, b.drop_last());
        assert((a + b).drop_last() =~= a + b.drop_last());
    }
}

proof fn lemma_no_mark(s: Seq<char>)
    requires
        forall|i: int| 0 <= i < s.len() ==> #[trigger] s[i] != '?',
    ensures
        marks(s) == 0,
    decreases s.len(),
{
    reveal_with_fuel(marks, 2);
    if s.len() > 0 {
        let t = s.drop_last();
        assert(s[s.len() - 1] != '?');
        assert forall|i: int| 0 <= i < t.len() implies #[trigger] t[i] != '?' by {
            assert(t[i] == s[i]);
        }
        lemma_no_mark(t);
    }
}

proof fn lemma_one_mark(s: Seq<char>, k: int)
    requires
        0 <= k < s.len(),
        s[k] == '?',
        forall|i: int| 0 <= i < s.len() && i != k ==> #[trigger] s[i] != '?',
    ensures
        marks(s) == 1,
{
    reveal_with_fuel(marks, 2);
    let a = s.take(k);
    let b = s.skip(k + 1);
    let m = seq!['?'];
    assert(s =~= a + m + b);
    assert forall|i: int| 0 <= i < a.len() implies #[trigger] a[i] != '?' by {
        assert(a[i] == s[i]);
    }
    assert forall|i: int| 0 <= i < b.len() implies #[trigger] b[i] != '?' by {
        assert(b[i] == s[i + k + 1]);
    }
    lemma_no_mark(a);
    lemma_no_mark(b);
    assert(m.drop_last() =~= Seq::empty());
    assert(marks(m.drop_last()) == 0);
    lemma_marks_add(a, m);
    lemma_marks_add(a + m, b);
}

proof fn lemma_marks_all_add(a: Seq<Seq<char>>, b: Seq<Seq<char>>)
    ensures
        marks_all(a + b) == marks_all(a) + marks_all(b),
    decreases b.len(),
{
    reveal_with_fuel(marks_all, 2);
    if b.len() == 0 {
        assert(a + b =~= a);
    } else {
        lemma_marks_all_add(a, b.drop_last());
        assert((a + b).drop_last() =~= a + b.drop_last());
    }
}

proof fn lemma_marks_join(parts: Seq<Seq<char>>)
    ensures
        marks(text::join_of(parts, " AND "@)) == marks_all(parts),
    decreases parts.len(),
{
    reveal_with_fuel(marks_all, 2);
    lemma_marks_and();
    lemma_no_mark(Seq::empty());
    if parts.len() == 1 {
        assert(parts.drop_last() =~= Seq::empty());
        assert(marks_all(parts.drop_last()) == 0);
    } else if parts.len() > 1 {
        lemma_marks_join(parts.drop_last());
        let j = text::join_of(parts.drop_last(), " AND "@);
        lemma_marks_add(j, " AND "@);
        lemma_marks_add(j + " AND "@, parts.last());
    }
}

proof fn lemma_marks_cwd()
    ensures
        marks("cwd = ?"@) == 1,
{
    reveal_strlit("cwd = ?");
    let s = "cwd = ?"@;
    assert(s =~= seq!['c', 'w', 'd', ' ', '=', ' ', '?']);
    lemma_one_mark(s, 6);
}

proof fn lemma_marks_session()
    ensures
        marks("session_id = ?"@) == 1,
{
    reveal_strlit("session_id = ?");
    let s = "session_id = ?"@;
    assert(s =~= seq!['s', 'e', 's', 's', 'i', 'o', 'n', '_', 'i', 'd', ' ', '=', ' ', '?']);
    lemma_one_mark(s, 13);
}

proof fn lemma_marks_host()
    ensures
        marks("hostname = ?"@) == 1,
{
    reveal_strlit("hostname = ?");
    let s = "hostname = ?"@;
    assert(s =~= seq!['h', 'o', 's', 't', 'n', 'a', 'm', 'e', ' ', '=', ' ', '?']);
    lemma_one_mark(s, 11);
}

proof fn lemma_marks_exit()
    ensures
        marks("exit_status = ?"@) == 1,
{
    reveal_strlit("exit_status = ?");
    let s = "exit_status = ?"@;
    assert(s =~= seq!['e', 'x', 'i', 't', '_', 's', 't', 'a', 't', 'u', 's', ' ', '=', ' ', '?']);
    lemma_one_mark(s, 14);
}

proof fn lemma_marks_since()
    ensures
        marks("started_at >= ?"@) == 1,
{
    reveal_strlit("started_at >= ?");
    let s = "started_at >= ?"@;
    assert(s =~= seq!['s', 't', 'a', 'r', 't', 'e', 'd', '_', 'a', 't', ' ', '>', '=', ' ', '?']);
    lemma_one_mark(s, 14);
}

proof fn lemma_marks_until()
    ensures
        marks("started_at <= ?"@) == 1,
{
    reveal_strlit("started_at <= ?");
    let s = "started_at <= ?"@;
    assert(s =~= seq!['s', 't', 'a', 'r', 't', 'e', 'd', '_', 'a', 't', ' ', '<', '=', ' ', '?']);
    lemma_one_mark(s, 14);
}

proof fn lemma_marks_workspace()
    ensures
        marks("cwd LIKE ? ESCAPE '\\'"@) == 1,
{
    reveal_strlit("cwd LIKE ? ESCAPE '\\'");
    let s = "cwd LIKE ? ESCAPE '\\'"@;
    assert(s =~= seq!['c', 'w', 'd', ' ', 'L', 'I', 'K', 'E', ' ', '?', ' ', 'E', 'S', 'C', 'A', 'P', 'E', ' ', '\'', '\\', '\'']);
    lemma_one_mark(s, 9);
}

proof fn lemma_marks_grep()
    ensures
        marks("cmd LIKE ? ESCAPE '\\'"@) == 1,
{
    reveal_strlit("cmd LIKE ? ESCAPE '\\'");
    let s = "cmd LIKE ? ESCAPE '\\'"@;
    assert(s =~= seq!['c', 'm', 'd', ' ', 'L', 'I', 'K', 'E', ' ', '?', ' ', 'E', 'S', 'C', 'A', 'P', 'E', ' ', '\'', '\\', '\'']);
    lemma_one_mark(s, 9);
}

proof fn lemma_marks_not_cwd()
    ensures
        marks("cwd != ?"@) == 1,
{
    reveal_strlit("cwd != ?");
    let s = "cwd != ?"@;
    assert(s =~= seq!['c', 'w', 'd', ' ', '!', '=', ' ', '?']);
    lemma_one_mark(s, 7);
}

proof fn lemma_marks_not_host()
    ensures
        marks("hostname != ?"@) == 1,
{
    reveal_strlit("hostname != ?");
    let s = "hostname != ?"@;
    assert(s =~= seq!['h', 'o', 's', 't', 'n', 'a', 'm', 'e', ' ', '!', '=', ' ', '?']);
    lemma_one_mark(s, 12);
}

proof fn lemma_marks_not_exit()
    ensures
        marks("(exit_status != ? OR exit_status IS NULL)"@) == 1,
{
    reveal_strlit("(exit_status != ? OR exit_status IS NULL)");
    let s = "(exit_status != ? OR exit_status IS NULL)"@;
    assert(s =~= seq!['(', 'e', 'x', 'i', 't', '_', 's', 't', 'a', 't', 'u', 's', ' ', '!', '=', ' ', '?', ' ', 'O', 'R', ' ', 'e', 'x', 'i', 't', '_', 's', 't', 'a', 't', 'u', 's', ' ', 'I', 'S', ' ', 'N', 'U', 'L', 'L', ')']);
    lemma_one_mark(s, 16);
}

proof fn lemma_marks_not_session()
    ensures
        marks("session_id != ?"@) == 1,
{
    reveal_strlit("session_id != ?");
    let s = "session_id != ?"@;
    assert(s =~= seq!['s', 'e', 's', 's', 'i', 'o', 'n', '_', 'i', 'd', ' ', '!', '=', ' ', '?']);
    lemma_one_mark(s, 14);
}

proof fn lemma_marks_order()
    ensures
        marks(" ORDER BY started_at DESC LIMIT ?"@) == 1,
{
    reveal_strlit(" ORDER BY started_at DESC LIMIT ?");
    let s = " ORDER BY started_at DESC LIMIT ?"@;
    assert(s =~= seq![' ', 'O', 'R', 'D', 'E', 'R', ' ', 'B', 'Y', ' ', 's', 't', 'a', 'r', 't', 'e', 'd', '_', 'a', 't', ' ', 'D', 'E', 'S', 'C', ' ', 'L', 'I', 'M', 'I', 'T', ' ', '?']);
    lemma_one_mark(s, 32);
}

proof fn lemma_marks_first()
    ensures
        marks(FIRST_OF_EACH@) == 1,
{
    reveal_strlit(") WHERE place = 1 ORDER BY started_at DESC LIMIT ?");
    let s = FIRST_OF_EACH@;
    assert(s =~= seq![')', ' ', 'W', 'H', 'E', 'R', 'E', ' ', 'p', 'l', 'a', 'c', 'e', ' ', '=', ' ', '1', ' ', 'O', 'R', 'D', 'E', 'R', ' ', 'B', 'Y', ' ', 's', 't', 'a', 'r', 't', 'e', 'd', '_', 'a', 't', ' ', 'D', 'E', 'S', 'C', ' ', 'L', 'I', 'M', 'I', 'T', ' ', '?']);
    lemma_one_mark(s, 49);
}

proof fn lemma_marks_failed()
    ensures
        marks("exit_status > 0"@) == 0,
{
    reveal_strlit("exit_status > 0");
    let s = "exit_status > 0"@;
    assert(s =~= seq!['e', 'x', 'i', 't', '_', 's', 't', 'a', 't', 'u', 's', ' ', '>', ' ', '0']);
    lemma_no_mark(s);
}

proof fn lemma_marks_success()
    ensures
        marks("exit_status = 0"@) == 0,
{
    reveal_strlit("exit_status = 0");
    let s = "exit_status = 0"@;
    assert(s =~= seq!['e', 'x', 'i', 't', '_', 's', 't', 'a', 't', 'u', 's', ' ', '=', ' ', '0']);
    lemma_no_mark(s);
}

proof fn lemma_marks_where()
    ensures
        marks(" WHERE "@) == 0,
{
    reveal_strlit(" WHERE ");
    let s = " WHERE "@;
    assert(s =~= seq![' ', 'W', 'H', 'E', 'R', 'E', ' ']);
    lemma_no_mark(s);
}

proof fn lemma_marks_and()
    ensures
        marks(" AND "@) == 0,
{
    reveal_strlit(" AND ");
    let s = " AND "@;
    assert(s =~= seq![' ', 'A', 'N', 'D', ' ']);
    lemma_no_mark(s);
}

proof fn lemma_placed_marks()
    ensures
        marks(PLACED_SELECT@) == 0,
{
    reveal_strlit(
        "SELECT id, session_id, hostname, cwd, cmd, started_at, finished_at, duration_ms, exit_status FROM (SELECT *, ROW_NUMBER() OVER (PARTITION BY cmd ORDER BY started_at DESC, id DESC) AS place FROM commands",
    );
    let s = PLACED_SELECT@;
    assert forall|i: int| 0 <= i < s.len() implies #[trigger] s[i] != '?' by {}
    lemma_no_mark(s);
}

proof fn lemma_base_marks()
    ensures
        marks(BASE_SELECT@) == 0,
{
    reveal_strlit(
        "SELECT id, session_id, hostname, cwd, cmd, started_at, finished_at, duration_ms, exit_status FROM commands",
    );
    let s = BASE_SELECT@;
    assert forall|i: int| 0 <= i < s.len() implies #[trigger] s[i] != '?' by {}
    lemma_no_mark(s);
}

/// The marks of one optional clause.
proof fn lemma_when_marks(b: bool, s: Seq<char>, n: nat)
    requires
        marks(s) == n,
    ensures
        marks_all(when(b, s)) == if b {
            n
        } else {
            0
        },
{
    reveal(when);
    reveal_with_fuel(marks_all, 2);
    if b {
        assert(seq![s].drop_last() =~= Seq::empty());
        assert(marks_all(seq![s].drop_last()) == 0);
    }
}

proof fn lemma_text_param_len(o: Option<Seq<char>>)
    ensures
        text_param(o).len() == if o is Some {
            1int
        } else {
            0
        },
{
    reveal(text_param);
}

proof fn lemma_int_param_len(o: Option<i64>)
    ensures
        int_param(o).len() == if o is Some {
            1int
        } else {
            0
        },
{
    reveal(int_param);
}

/// As many question marks as parameters.
#[verifier::opaque]
spec fn balanced(cs: Seq<Seq<char>>, ps: Seq<SqlView>) -> bool {
    marks_all(cs) == ps.len()
}

proof fn lemma_balanced_nothing()
    ensures
        balanced(Seq::<Seq<char>>::empty(), Seq::<SqlView>::empty()),
{
    reveal(balanced);
    reveal(marks_all);
}

/// A clause and its text parameter, appended.
proof fn lemma_balanced_text(
    cs: Seq<Seq<char>>,
    ps: Seq<SqlView>,
    b: bool,
    s: Seq<char>,
    o: Option<Seq<char>>,
)
    requires
        balanced(cs, ps),
        marks(s) == 1,
        b == (o is Some),
    ensures
        balanced(cs + when(b, s), ps + text_param(o)),
{
    reveal(balanced);
    lemma_when_marks(b, s, 1);
    lemma_marks_all_add(cs, when(b, s));
    lemma_text_param_len(o);
}

/// A clause and its integer parameter, appended.
proof fn lemma_balanced_int(
    cs: Seq<Seq<char>>,
    ps: Seq<SqlView>,
    b: bool,
    s: Seq<char>,
    o: Option<i64>,
)
    requires
        balanced(cs, ps),
        marks(s) == 1,
        b == (o is Some),
    ensures
        balanced(cs + when(b, s), ps + int_param(o)),
{
    reveal(balanced);
    lemma_when_marks(b, s, 1);
    lemma_marks_all_add(cs, when(b, s));
    lemma_int_param_len(o);
}

/// A clause without a parameter, appended.
proof fn lemma_balanced_switch(cs: Seq<Seq<char>>, ps: Seq<SqlView>, b: bool, s: Seq<char>)
    requires
        balanced(cs, ps),
        marks(s) == 0,
    ensures
        balanced(cs + when(b, s), ps),
{
    reveal(balanced);
    lemma_when_marks(b, s, 0);
    lemma_marks_all_add(cs, when(b, s));
}

proof fn lemma_clause_marks(f: FiltersView)
    ensures
        marks_all(clauses_of(f)) == filter_params_of(f).len(),
{
    lemma_marks_cwd();
    lemma_balanced_nothing();
    let mut cs = Seq::<Seq<char>>::empty();
    let mut ps = Seq::<SqlView>::empty();
    lemma_balanced_text(cs, ps, f.cwd is Some, "cwd = ?"@, f.cwd);
    assert(cs + when(f.cwd is Some, "cwd = ?"@) =~= when(f.cwd is Some, "cwd = ?"@));
    assert(ps + text_param(f.cwd) =~= text_param(f.cwd));
    cs = when(f.cwd is Some, "cwd = ?"@);
    ps = text_param(f.cwd);
    lemma_marks_session();
    lemma_balanced_text(cs, ps, f.session is Some, "session_id = ?"@, f.session);
    cs = cs + when(f.session is Some, "session_id = ?"@);
    ps = ps + text_param(f.session);
    lemma_marks_host();
    lemma_balanced_text(cs, ps, f.host is Some, "hostname = ?"@, f.host);
    cs = cs + when(f.host is Some, "hostname = ?"@);
    ps = ps + text_param(f.host);
    lemma_marks_exit();
    lemma_balanced_int(cs, ps, f.exit_eq is Some, "exit_status = ?"@, widened(f.exit_eq));
    cs = cs + when(f.exit_eq is Some, "exit_status = ?"@);
    ps = ps + int_param(widened(f.exit_eq));
    lemma_marks_failed();
    lemma_balanced_switch(cs, ps, f.failed_only, "exit_status > 0"@);
    cs = cs + when(f.failed_only, "exit_status > 0"@);
    lemma_marks_success();
    lemma_balanced_switch(cs, ps, f.success_only, "exit_status = 0"@);
    cs = cs + when(f.success_only, "exit_status = 0"@);
    lemma_marks_since();
    lemma_balanced_int(cs, ps, f.since_ms is Some, "started_at >= ?"@, f.since_ms);
    cs = cs + when(f.since_ms is Some, "started_at >= ?"@);
    ps = ps + int_param(f.since_ms);
    lemma_marks_until();
    lemma_balanced_int(cs, ps, f.until_ms is Some, "started_at <= ?"@, f.until_ms);
    cs = cs + when(f.until_ms is Some, "started_at <= ?"@);
    ps = ps + int_param(f.until_ms);
    lemma_marks_workspace();
    lemma_balanced_text(cs, ps, f.workspace_prefix is Some, "cwd LIKE ? ESCAPE '\\'"@, prefix_pattern(f.workspace_prefix));
    cs = cs + when(f.workspace_prefix is Some, "cwd LIKE ? ESCAPE '\\'"@);
    ps = ps + text_param(prefix_pattern(f.workspace_prefix));
    lemma_marks_grep();
    lemma_balanced_text(cs, ps, f.grep is Some, "cmd LIKE ? ESCAPE '\\'"@, infix_pattern(f.grep));
    cs = cs + when(f.grep is Some, "cmd LIKE ? ESCAPE '\\'"@);
    ps = ps + text_param(infix_pattern(f.grep));
    lemma_marks_not_cwd();
    lemma_balanced_text(cs, ps, f.exclude_cwd is Some, "cwd != ?"@, f.exclude_cwd);
    cs = cs + when(f.exclude_cwd is Some, "cwd != ?"@);
    ps = ps + text_param(f.exclude_cwd);
    lemma_marks_not_host();
    lemma_balanced_text(cs, ps, f.exclude_host is Some, "hostname != ?"@, f.exclude_host);
    cs = cs + when(f.exclude_host is Some, "hostname != ?"@);
    ps = ps + text_param(f.exclude_host);
    lemma_marks_not_exit();
    lemma_balanced_int(cs, ps, f.exclude_exit is Some, "(exit_status != ? OR exit_status IS NULL)"@, widened(f.exclude_exit));
    cs = cs + when(f.exclude_exit is Some, "(exit_status != ? OR exit_status IS NULL)"@);
    ps = ps + int_param(widened(f.exclude_exit));
    lemma_marks_not_session();
    lemma_balanced_text(cs, ps, f.exclude_session is Some, "session_id != ?"@, f.exclude_session);
    cs = cs + when(f.exclude_session is Some, "session_id != ?"@);
    ps = ps + text_param(f.exclude_session);
    reveal(clauses_of);
    reveal(filter_params_of);
    reveal(balanced);
}

/// The text of a query has one placeholder for each of its parameters, with
/// and without `unique`.
pub proof fn law_placeholders_match_parameters(f: FiltersView)
    ensures
        marks(sql_of(f)) == params_of(f).len(),
{
    lemma_base_marks();
    lemma_no_mark(Seq::empty());
    lemma_marks_where();
    lemma_marks_and();
    lemma_placed_marks();
    lemma_marks_order();
    lemma_marks_first();
    lemma_clause_marks(f);
    let cs = clauses_of(f);
    let j = text::join_of(cs, " AND "@);
    lemma_marks_join(cs);
    lemma_marks_add(" WHERE "@, j);
    assert(marks(where_of(f)) == marks_all(cs));
    if f.unique {
        lemma_marks_add(PLACED_SELECT@, where_of(f));
        lemma_marks_add(PLACED_SELECT@ + where_of(f), FIRST_OF_EACH@);
    } else {
        lemma_marks_add(BASE_SELECT@, where_of(f));
        lemma_marks_add(BASE_SELECT@ + where_of(f), " ORDER BY started_at DESC LIMIT ?"@);
    }
}

// ── The schema ──────────────────────────────────────────────────────────────

/// The schema version that the query is written for.
pub const SUPPORTED_SCHEMA: &'static str = "1";

/// What is said of a database with another schema version.
pub open spec fn schema_complaint(version: Seq<char>) -> Seq<char> {
    "unsupported commands.db schema version "@ + version + " (this chevron expects "@
        + SUPPORTED_SCHEMA@ + "). Upgrade chevron."@
}

/// Accepts the schema version that the query is written for, and no other.
pub fn check_schema(version: &str) -> (r: Result<(), String>)
    ensures
        r is Ok <==> version@ == SUPPORTED_SCHEMA@,
        r matches Err(m) ==> m@ == schema_complaint(version@),
{
    if str_eq(version, SUPPORTED_SCHEMA) {
        Ok(())
    } else {
        let mut out: String = joined("unsupported commands.db schema version ", version);
        out.push_str(" (this chevron expects ");
        out.push_str(SUPPORTED_SCHEMA);
        out.push_str("). Upgrade chevron.");
        Err(out)
    }
}

/// The limit is the last parameter, as the number that was asked for as far as the
/// database can count, and the filters do not depend on it.
pub proof fn law_limit_is_the_last_parameter(f: FiltersView, other: FiltersView)
    requires
        other == (FiltersView { limit: other.limit, ..f }),
    ensures
        params_of(f).last() is Integer,
        f.limit <= i64::MAX ==> params_of(f).last()->Integer_0 == f.limit,
        f.limit > i64::MAX ==> params_of(f).last()->Integer_0 == i64::MAX,
        params_of(f).drop_last() == params_of(other).drop_last(),
{
    reveal(filter_params_of);
    assert(params_of(f).drop_last() =~= filter_params_of(f));
    assert(params_of(other).drop_last() =~= filter_params_of(other));
}

} // verus!
