//! What a query means: which rows of the log its conditions let through.

use vstd::prelude::*;
use crate::decimal;
use crate::history::args::FiltersView;
use crate::history::query;
use crate::history::query::SqlView;
use crate::history::render::RowView;
use crate::text;

verus! {

// ── Conditions ──────────────────────────────────────────────────────────────

/// A value in a row of the log, or one that it is compared with.
pub enum Field {
    Null,
    Text(Seq<char>),
    Integer(int),
}

/// The value of a column.
pub open spec fn field(row: RowView, name: Seq<char>) -> Field {
    if name == "cwd"@ {
        Field::Text(row.cwd)
    } else if name == "cmd"@ {
        Field::Text(row.cmd)
    } else if name == "hostname"@ {
        Field::Text(row.hostname)
    } else if name == "session_id"@ {
        Field::Text(row.session_id)
    } else if name == "started_at"@ {
        Field::Integer(row.started_at as int)
    } else if name == "exit_status"@ {
        match row.exit_status {
            Some(n) => Field::Integer(n as int),
            None => Field::Null,
        }
    } else {
        Field::Null
    }
}

/// Whether a text matches a `LIKE` pattern: `%` stands for any run of characters, `_`
/// for any one, a backslash takes the next character as it is, and every other
/// character stands for itself, where the case of ASCII letters does not count.
pub open spec fn like(p: Seq<char>, s: Seq<char>) -> bool
    decreases p.len() + s.len(),
{
    if p.len() == 0 {
        s.len() == 0
    } else if p[0] == '%' {
        like(p.skip(1), s) || (s.len() > 0 && like(p, s.skip(1)))
    } else if p[0] == '_' {
        s.len() > 0 && like(p.skip(1), s.skip(1))
    } else if p[0] == '\\' && p.len() > 1 {
        s.len() > 0 && text::lower_char(p[1]) == text::lower_char(s[0]) && like(p.skip(2), s.skip(1))
    } else {
        s.len() > 0 && text::lower_char(p[0]) == text::lower_char(s[0]) && like(p.skip(1), s.skip(1))
    }
}

/// What a comparison says; a null value makes it say nothing.
pub open spec fn compare(a: Field, op: Seq<char>, b: Field) -> bool {
    match (a, b) {
        (Field::Text(x), Field::Text(y)) => if op == "="@ {
            x == y
        } else if op == "!="@ {
            x != y
        } else {
            op == "LIKE"@ && like(y, x)
        },
        (Field::Integer(x), Field::Integer(y)) => if op == "="@ {
            x == y
        } else if op == "!="@ {
            x != y
        } else if op == ">"@ {
            x > y
        } else if op == ">="@ {
            x >= y
        } else {
            op == "<="@ && x <= y
        },
        _ => false,
    }
}

/// What a row is compared with: the parameter where there is a question mark, else the
/// number that is written.
pub open spec fn operand(word: Seq<char>, p: Seq<SqlView>) -> Field {
    if p.len() > 0 && word.len() > 0 && word[0] == '?' {
        match p[0] {
            SqlView::Text(t) => Field::Text(t),
            SqlView::Integer(n) => Field::Integer(n as int),
        }
    } else {
        Field::Integer(decimal::digits_value(word) as int)
    }
}

/// Whether a row meets a comparison of a column: a name, an operator and an operand,
/// with spaces between them.
pub open spec fn compares(c: Seq<char>, p: Seq<SqlView>, row: RowView) -> bool {
    match text::split_once_of(c, ' ') {
        Some(a) => match text::split_once_of(a.1, ' ') {
            Some(b) => compare(field(row, a.0), b.0, operand(b.1, p)),
            None => false,
        },
        None => false,
    }
}

/// Whether a row meets a condition.
pub open spec fn meets(c: Seq<char>, p: Seq<SqlView>, row: RowView) -> bool {
    if c == "("@ + "exit_status != ?"@ + " OR exit_status IS NULL)"@ {
        compares("exit_status != ?"@, p, row) || row.exit_status is None
    } else {
        compares(c, p, row)
    }
}

/// How many parameters a condition takes.
pub open spec fn asked(c: Seq<char>) -> nat {
    if c.contains('?') {
        1
    } else {
        0
    }
}

/// Whether a row meets all of some conditions, which take their parameters one after
/// the other.
pub open spec fn meets_all(cs: Seq<Seq<char>>, ps: Seq<SqlView>, row: RowView) -> bool
    decreases cs.len(),
{
    if cs.len() == 0 {
        true
    } else {
        let n = asked(cs[0]) as int;
        n <= ps.len() && meets(cs[0], ps.take(n), row) && meets_all(cs.skip(1), ps.skip(n), row)
    }
}

/// Where the first ` AND ` stands, or the length of the text.
pub open spec fn and_at(s: Seq<char>) -> nat
    decreases s.len(),
{
    if s.len() < 5 {
        s.len()
    } else if s.take(5) == " AND "@ {
        0
    } else {
        1 + and_at(s.skip(1))
    }
}

/// The conditions that ` AND ` stands between.
pub open spec fn conditions(s: Seq<char>) -> Seq<Seq<char>>
    decreases s.len(),
{
    let n = and_at(s) as int;
    if n + 5 <= s.len() {
        seq![s.take(n)] + conditions(s.skip(n + 5))
    } else {
        seq![s]
    }
}

/// Whether a `WHERE` and what follows it let a row through.
pub open spec fn lets_through(w: Seq<char>, ps: Seq<SqlView>, row: RowView) -> bool {
    if w.len() == 0 {
        true
    } else {
        match text::strip_prefix_of(w, " WHERE "@) {
            Some(s) => meets_all(conditions(s), ps, row),
            None => false,
        }
    }
}

// ── Filters ─────────────────────────────────────────────────────────────────

/// Whether a row is one that was asked for.
pub open spec fn wanted(f: FiltersView, row: RowView) -> bool {
    &&& f.cwd matches Some(d) ==> row.cwd == d
    &&& f.session matches Some(s) ==> row.session_id == s
    &&& f.host matches Some(h) ==> row.hostname == h
    &&& f.exit_eq matches Some(n) ==> row.exit_status == Some(n as i64)
    &&& f.failed_only ==> (row.exit_status matches Some(n) && n > 0)
    &&& f.success_only ==> row.exit_status == Some(0i64)
    &&& f.since_ms matches Some(t) ==> row.started_at >= t
    &&& f.until_ms matches Some(t) ==> row.started_at <= t
    &&& f.workspace_prefix matches Some(p) ==> text::starts_with_of(text::lower_of(row.cwd), text::lower_of(p))
    &&& f.grep matches Some(p) ==> text::contains_of(text::lower_of(row.cmd), text::lower_of(p))
    &&& f.exclude_cwd matches Some(d) ==> row.cwd != d
    &&& f.exclude_host matches Some(h) ==> row.hostname != h
    &&& f.exclude_exit matches Some(n) ==> row.exit_status != Some(n as i64)
    &&& f.exclude_session matches Some(s) ==> row.session_id != s
}

// ── Patterns ────────────────────────────────────────────────────────────────

proof fn lemma_like_escaped(p: Seq<char>, q: Seq<char>, s: Seq<char>)
    ensures
        like(query::like_escaped(p) + q, s) <==> text::starts_with_of(text::lower_of(s), text::lower_of(p))
            && like(q, s.skip(p.len() as int)),
    decreases p.len(),
{
    let e = query::like_escaped(p) + q;
    let ls = text::lower_of(s);
    let lp = text::lower_of(p);
    if p.len() == 0 {
        assert(e =~= q);
        assert(s.skip(0) =~= s);
        assert(ls.subrange(0, 0) =~= lp);
    } else {
        let more = p.skip(1);
        let rest = query::like_escaped(more) + q;
        if query::is_like_special(p[0]) {
            assert(e[0] == '\\' && e[1] == p[0]);
            assert(e.skip(2) =~= rest);
        } else {
            assert(e[0] == p[0]);
            assert(e.skip(1) =~= rest);
        }
        if s.len() > 0 {
            let tail = s.skip(1);
            lemma_like_escaped(more, q, tail);
            if p.len() <= s.len() {
                assert(tail.skip(more.len() as int) =~= s.skip(p.len() as int));
            }
            let lt = text::lower_of(tail);
            let lm = text::lower_of(more);
            assert(lp[0] == text::lower_char(p[0]));
            assert(ls[0] == text::lower_char(s[0]));
            assert(lp.skip(1) =~= lm);
            assert(ls.skip(1) =~= lt);
            if p.len() <= s.len() {
                let a = ls.subrange(0, lp.len() as int);
                let b = lt.subrange(0, lm.len() as int);
                assert(a.skip(1) =~= b);
                if a == lp {
                    assert(b =~= lm);
                    assert(a[0] == lp[0]);
                }
                if b == lm && ls[0] == lp[0] {
                    assert forall|i: int| 0 <= i < a.len() implies a[i] == lp[i] by {
                        if i > 0 {
                            assert(a[i] == a.skip(1)[i - 1]);
                            assert(lp[i] == lp.skip(1)[i - 1]);
                        }
                    }
                    assert(a =~= lp);
                }
            }
        }
    }
}

proof fn lemma_like_anything(q: Seq<char>, s: Seq<char>)
    ensures
        like(seq!['%'] + q, s) <==> exists|k: int| 0 <= k <= s.len() && like(q, #[trigger] s.skip(k)),
    decreases s.len(),
{
    let p = seq!['%'] + q;
    assert(p[0] == '%');
    assert(p.skip(1) =~= q);
    assert(s.skip(0) =~= s);
    if s.len() > 0 {
        let tail = s.skip(1);
        lemma_like_anything(q, tail);
        if like(p, tail) {
            let k = choose|k: int| 0 <= k <= tail.len() && like(q, #[trigger] tail.skip(k));
            assert(tail.skip(k) =~= s.skip(k + 1));
        }
        if exists|k: int| 0 <= k <= s.len() && like(q, #[trigger] s.skip(k)) {
            let k = choose|k: int| 0 <= k <= s.len() && like(q, #[trigger] s.skip(k));
            if k > 0 {
                assert(tail.skip(k - 1) =~= s.skip(k));
            }
        }
        if like(q, s) {
            assert(like(q, s.skip(0)));
        }
    } else {
        if like(q, s) {
            assert(like(q, s.skip(0)));
        }
    }
}

proof fn lemma_like_rest(s: Seq<char>)
    ensures
        like(seq!['%'], s),
{
    let none = Seq::<char>::empty();
    assert(seq!['%'] + none =~= seq!['%']);
    lemma_like_anything(none, s);
    assert(s.skip(s.len() as int) =~= none);
    assert(like(none, s.skip(s.len() as int)));
}

/// The pattern of a path stands for the texts that begin with the path.
pub proof fn law_prefix_pattern(p: Seq<char>, s: Seq<char>)
    ensures
        like(query::prefix_pattern(Some(p))->0, s) <==> text::starts_with_of(
            text::lower_of(s),
            text::lower_of(p),
        ),
{
    lemma_like_escaped(p, seq!['%'], s);
    lemma_like_rest(s.skip(p.len() as int));
}

/// The pattern of a text stands for the texts that hold it.
pub proof fn law_infix_pattern(p: Seq<char>, s: Seq<char>)
    ensures
        like(query::infix_pattern(Some(p))->0, s) <==> text::contains_of(
            text::lower_of(s),
            text::lower_of(p),
        ),
{
    let q = query::like_escaped(p) + seq!['%'];
    assert(query::infix_pattern(Some(p))->0 =~= seq!['%'] + q);
    lemma_like_anything(q, s);
    let ls = text::lower_of(s);
    let lp = text::lower_of(p);
    assert forall|k: int| 0 <= k <= s.len() implies (like(q, #[trigger] s.skip(k)) <==> text::occurs_at(
        ls,
        lp,
        k,
    )) by {
        let t = s.skip(k);
        lemma_like_escaped(p, seq!['%'], t);
        lemma_like_rest(t.skip(p.len() as int));
        let lt = text::lower_of(t);
        if k + p.len() <= s.len() {
            assert(lt.subrange(0, lp.len() as int) =~= ls.subrange(k, k + lp.len()));
        }
    }
    if like(seq!['%'] + q, s) {
        let k = choose|k: int| 0 <= k <= s.len() && like(q, #[trigger] s.skip(k));
        assert(text::occurs_at(ls, lp, k));
    }
    if text::contains_of(ls, lp) {
        let k = choose|k: int| text::occurs_at(ls, lp, k);
        assert(like(q, s.skip(k)));
    }
}

// ── Each condition ──────────────────────────────────────────────────────────

/// Whether a text has no space.
spec fn is_word(s: Seq<char>) -> bool {
    forall|i: int| 0 <= i < s.len() ==> #[trigger] s[i] != ' '
}

proof fn lemma_compares(
    c: Seq<char>,
    name: Seq<char>,
    op: Seq<char>,
    word: Seq<char>,
    p: Seq<SqlView>,
    row: RowView,
)
    requires
        c == name + seq![' '] + (op + seq![' '] + word),
        is_word(name),
        is_word(op),
    ensures
        compares(c, p, row) == compare(field(row, name), op, operand(word, p)),
{
    text::lemma_split_once_at(name, ' ', op + seq![' '] + word);
    text::lemma_split_once_at(op, ' ', word);
}

proof fn lemma_fields(row: RowView)
    ensures
        field(row, "cwd"@) == Field::Text(row.cwd),
        field(row, "cmd"@) == Field::Text(row.cmd),
        field(row, "hostname"@) == Field::Text(row.hostname),
        field(row, "session_id"@) == Field::Text(row.session_id),
        field(row, "started_at"@) == Field::Integer(row.started_at as int),
        field(row, "exit_status"@) == (match row.exit_status {
            Some(n) => Field::Integer(n as int),
            None => Field::Null,
        }),
{
    reveal_strlit("cwd");
    reveal_strlit("cmd");
    reveal_strlit("hostname");
    reveal_strlit("session_id");
    reveal_strlit("started_at");
    reveal_strlit("exit_status");
    assert("exit_status"@.len() == 11 && "session_id"@.len() == 10 && "started_at"@.len() == 10);
    assert("hostname"@.len() == 8 && "cwd"@.len() == 3 && "cmd"@.len() == 3);
    assert("cwd"@[1] != "cmd"@[1]);
    assert("session_id"@[1] != "started_at"@[1]);
}

proof fn lemma_operators()
    ensures
        "="@ != "!="@,
        "="@ != ">"@,
        "="@ != ">="@,
        "="@ != "<="@,
        "="@ != "LIKE"@,
        "!="@ != ">"@,
        "!="@ != ">="@,
        "!="@ != "<="@,
        "!="@ != "LIKE"@,
        ">"@ != ">="@,
        ">"@ != "<="@,
        ">="@ != "<="@,
{
    reveal_strlit("=");
    reveal_strlit("!=");
    reveal_strlit(">");
    reveal_strlit(">=");
    reveal_strlit("<=");
    reveal_strlit("LIKE");
    assert("="@.len() == 1 && ">"@.len() == 1 && "LIKE"@.len() == 4);
    assert("!="@.len() == 2 && ">="@.len() == 2 && "<="@.len() == 2);
    assert("="@[0] != ">"@[0]);
    assert("!="@[0] != ">="@[0]);
    assert("!="@[0] != "<="@[0]);
    assert(">="@[0] != "<="@[0]);
}

/// Whether no ` AND ` can begin within a text that another one follows.
spec fn apart(c: Seq<char>) -> bool {
    forall|i: int| 0 <= i < c.len() && #[trigger] c[i] == ' ' ==> i + 1 < c.len() && c[i + 1] != 'A'
}

proof fn lemma_cwd(t: Seq<char>, row: RowView)
    ensures
        meets("cwd = ?"@, seq![SqlView::Text(t)], row) == (row.cwd == t),
        asked("cwd = ?"@) == 1,
        apart("cwd = ?"@),
{
    let c = "cwd = ?"@;
    reveal_strlit("cwd = ?");
    reveal_strlit("cwd");
    reveal_strlit("=");
    reveal_strlit("?");
    reveal_strlit("(");
    assert(c[6] == '?');
    assert(c =~= "cwd"@ + seq![' '] + ("="@ + seq![' '] + "?"@));
    lemma_compares(c, "cwd"@, "="@, "?"@, seq![SqlView::Text(t)], row);
    lemma_fields(row);
    lemma_operators();
    assert(("("@ + "exit_status != ?"@ + " OR exit_status IS NULL)"@)[0] == '(');
}

proof fn lemma_session(t: Seq<char>, row: RowView)
    ensures
        meets("session_id = ?"@, seq![SqlView::Text(t)], row) == (row.session_id == t),
        asked("session_id = ?"@) == 1,
        apart("session_id = ?"@),
{
    let c = "session_id = ?"@;
    reveal_strlit("session_id = ?");
    reveal_strlit("session_id");
    reveal_strlit("=");
    reveal_strlit("?");
    reveal_strlit("(");
    assert(c[13] == '?');
    assert(c =~= "session_id"@ + seq![' '] + ("="@ + seq![' '] + "?"@));
    lemma_compares(c, "session_id"@, "="@, "?"@, seq![SqlView::Text(t)], row);
    lemma_fields(row);
    lemma_operators();
    assert(("("@ + "exit_status != ?"@ + " OR exit_status IS NULL)"@)[0] == '(');
}

proof fn lemma_host(t: Seq<char>, row: RowView)
    ensures
        meets("hostname = ?"@, seq![SqlView::Text(t)], row) == (row.hostname == t),
        asked("hostname = ?"@) == 1,
        apart("hostname = ?"@),
{
    let c = "hostname = ?"@;
    reveal_strlit("hostname = ?");
    reveal_strlit("hostname");
    reveal_strlit("=");
    reveal_strlit("?");
    reveal_strlit("(");
    assert(c[11] == '?');
    assert(c =~= "hostname"@ + seq![' '] + ("="@ + seq![' '] + "?"@));
    lemma_compares(c, "hostname"@, "="@, "?"@, seq![SqlView::Text(t)], row);
    lemma_fields(row);
    lemma_operators();
    assert(("("@ + "exit_status != ?"@ + " OR exit_status IS NULL)"@)[0] == '(');
}

proof fn lemma_exit(n: i64, row: RowView)
    ensures
        meets("exit_status = ?"@, seq![SqlView::Integer(n)], row) == (row.exit_status == Some(n)),
        asked("exit_status = ?"@) == 1,
        apart("exit_status = ?"@),
{
    let c = "exit_status = ?"@;
    reveal_strlit("exit_status = ?");
    reveal_strlit("exit_status");
    reveal_strlit("=");
    reveal_strlit("?");
    reveal_strlit("(");
    assert(c[14] == '?');
    assert(c =~= "exit_status"@ + seq![' '] + ("="@ + seq![' '] + "?"@));
    lemma_compares(c, "exit_status"@, "="@, "?"@, seq![SqlView::Integer(n)], row);
    lemma_fields(row);
    lemma_operators();
    assert(("("@ + "exit_status != ?"@ + " OR exit_status IS NULL)"@)[0] == '(');
}

proof fn lemma_failed(row: RowView)
    ensures
        meets("exit_status > 0"@, Seq::empty(), row) == (row.exit_status matches Some(n) && n > 0),
        asked("exit_status > 0"@) == 0,
        apart("exit_status > 0"@),
{
    let c = "exit_status > 0"@;
    reveal_strlit("exit_status > 0");
    reveal_strlit("exit_status");
    reveal_strlit(">");
    reveal_strlit("0");
    reveal_strlit("(");
    assert(c =~= "exit_status"@ + seq![' '] + (">"@ + seq![' '] + "0"@));
    lemma_compares(c, "exit_status"@, ">"@, "0"@, Seq::empty(), row);
    assert(decimal::digits_value("0"@) == 0) by {
        assert("0"@.drop_last() =~= Seq::<char>::empty());
        reveal_with_fuel(decimal::digits_value, 2);
    }
    lemma_fields(row);
    lemma_operators();
    assert(("("@ + "exit_status != ?"@ + " OR exit_status IS NULL)"@)[0] == '(');
}

proof fn lemma_success(row: RowView)
    ensures
        meets("exit_status = 0"@, Seq::empty(), row) == (row.exit_status == Some(0i64)),
        asked("exit_status = 0"@) == 0,
        apart("exit_status = 0"@),
{
    let c = "exit_status = 0"@;
    reveal_strlit("exit_status = 0");
    reveal_strlit("exit_status");
    reveal_strlit("=");
    reveal_strlit("0");
    reveal_strlit("(");
    assert(c =~= "exit_status"@ + seq![' '] + ("="@ + seq![' '] + "0"@));
    lemma_compares(c, "exit_status"@, "="@, "0"@, Seq::empty(), row);
    assert(decimal::digits_value("0"@) == 0) by {
        assert("0"@.drop_last() =~= Seq::<char>::empty());
        reveal_with_fuel(decimal::digits_value, 2);
    }
    lemma_fields(row);
    lemma_operators();
    assert(("("@ + "exit_status != ?"@ + " OR exit_status IS NULL)"@)[0] == '(');
}

proof fn lemma_since(n: i64, row: RowView)
    ensures
        meets("started_at >= ?"@, seq![SqlView::Integer(n)], row) == (row.started_at >= n),
        asked("started_at >= ?"@) == 1,
        apart("started_at >= ?"@),
{
    let c = "started_at >= ?"@;
    reveal_strlit("started_at >= ?");
    reveal_strlit("started_at");
    reveal_strlit(">=");
    reveal_strlit("?");
    reveal_strlit("(");
    assert(c[14] == '?');
    assert(c =~= "started_at"@ + seq![' '] + (">="@ + seq![' '] + "?"@));
    lemma_compares(c, "started_at"@, ">="@, "?"@, seq![SqlView::Integer(n)], row);
    lemma_fields(row);
    lemma_operators();
    assert(("("@ + "exit_status != ?"@ + " OR exit_status IS NULL)"@)[0] == '(');
}

proof fn lemma_until(n: i64, row: RowView)
    ensures
        meets("started_at <= ?"@, seq![SqlView::Integer(n)], row) == (row.started_at <= n),
        asked("started_at <= ?"@) == 1,
        apart("started_at <= ?"@),
{
    let c = "started_at <= ?"@;
    reveal_strlit("started_at <= ?");
    reveal_strlit("started_at");
    reveal_strlit("<=");
    reveal_strlit("?");
    reveal_strlit("(");
    assert(c[14] == '?');
    assert(c =~= "started_at"@ + seq![' '] + ("<="@ + seq![' '] + "?"@));
    lemma_compares(c, "started_at"@, "<="@, "?"@, seq![SqlView::Integer(n)], row);
    lemma_fields(row);
    lemma_operators();
    assert(("("@ + "exit_status != ?"@ + " OR exit_status IS NULL)"@)[0] == '(');
}

proof fn lemma_workspace(t: Seq<char>, row: RowView)
    ensures
        meets("cwd LIKE ? ESCAPE '\\'"@, seq![SqlView::Text(t)], row) == (like(t, row.cwd)),
        asked("cwd LIKE ? ESCAPE '\\'"@) == 1,
        apart("cwd LIKE ? ESCAPE '\\'"@),
{
    let c = "cwd LIKE ? ESCAPE '\\'"@;
    reveal_strlit("cwd LIKE ? ESCAPE '\\'");
    reveal_strlit("cwd");
    reveal_strlit("LIKE");
    reveal_strlit("? ESCAPE '\\'");
    reveal_strlit("(");
    assert(c[9] == '?');
    assert(c =~= "cwd"@ + seq![' '] + ("LIKE"@ + seq![' '] + "? ESCAPE '\\'"@));
    lemma_compares(c, "cwd"@, "LIKE"@, "? ESCAPE '\\'"@, seq![SqlView::Text(t)], row);
    lemma_fields(row);
    lemma_operators();
    assert(("("@ + "exit_status != ?"@ + " OR exit_status IS NULL)"@)[0] == '(');
}

proof fn lemma_grep(t: Seq<char>, row: RowView)
    ensures
        meets("cmd LIKE ? ESCAPE '\\'"@, seq![SqlView::Text(t)], row) == (like(t, row.cmd)),
        asked("cmd LIKE ? ESCAPE '\\'"@) == 1,
        apart("cmd LIKE ? ESCAPE '\\'"@),
{
    let c = "cmd LIKE ? ESCAPE '\\'"@;
    reveal_strlit("cmd LIKE ? ESCAPE '\\'");
    reveal_strlit("cmd");
    reveal_strlit("LIKE");
    reveal_strlit("? ESCAPE '\\'");
    reveal_strlit("(");
    assert(c[9] == '?');
    assert(c =~= "cmd"@ + seq![' '] + ("LIKE"@ + seq![' '] + "? ESCAPE '\\'"@));
    lemma_compares(c, "cmd"@, "LIKE"@, "? ESCAPE '\\'"@, seq![SqlView::Text(t)], row);
    lemma_fields(row);
    lemma_operators();
    assert(("("@ + "exit_status != ?"@ + " OR exit_status IS NULL)"@)[0] == '(');
}

proof fn lemma_not_cwd(t: Seq<char>, row: RowView)
    ensures
        meets("cwd != ?"@, seq![SqlView::Text(t)], row) == (row.cwd != t),
        asked("cwd != ?"@) == 1,
        apart("cwd != ?"@),
{
    let c = "cwd != ?"@;
    reveal_strlit("cwd != ?");
    reveal_strlit("cwd");
    reveal_strlit("!=");
    reveal_strlit("?");
    reveal_strlit("(");
    assert(c[7] == '?');
    assert(c =~= "cwd"@ + seq![' '] + ("!="@ + seq![' '] + "?"@));
    lemma_compares(c, "cwd"@, "!="@, "?"@, seq![SqlView::Text(t)], row);
    lemma_fields(row);
    lemma_operators();
    assert(("("@ + "exit_status != ?"@ + " OR exit_status IS NULL)"@)[0] == '(');
}

proof fn lemma_not_host(t: Seq<char>, row: RowView)
    ensures
        meets("hostname != ?"@, seq![SqlView::Text(t)], row) == (row.hostname != t),
        asked("hostname != ?"@) == 1,
        apart("hostname != ?"@),
{
    let c = "hostname != ?"@;
    reveal_strlit("hostname != ?");
    reveal_strlit("hostname");
    reveal_strlit("!=");
    reveal_strlit("?");
    reveal_strlit("(");
    assert(c[12] == '?');
    assert(c =~= "hostname"@ + seq![' '] + ("!="@ + seq![' '] + "?"@));
    lemma_compares(c, "hostname"@, "!="@, "?"@, seq![SqlView::Text(t)], row);
    lemma_fields(row);
    lemma_operators();
    assert(("("@ + "exit_status != ?"@ + " OR exit_status IS NULL)"@)[0] == '(');
}

proof fn lemma_not_session(t: Seq<char>, row: RowView)
    ensures
        meets("session_id != ?"@, seq![SqlView::Text(t)], row) == (row.session_id != t),
        asked("session_id != ?"@) == 1,
        apart("session_id != ?"@),
{
    let c = "session_id != ?"@;
    reveal_strlit("session_id != ?");
    reveal_strlit("session_id");
    reveal_strlit("!=");
    reveal_strlit("?");
    reveal_strlit("(");
    assert(c[14] == '?');
    assert(c =~= "session_id"@ + seq![' '] + ("!="@ + seq![' '] + "?"@));
    lemma_compares(c, "session_id"@, "!="@, "?"@, seq![SqlView::Text(t)], row);
    lemma_fields(row);
    lemma_operators();
    assert(("("@ + "exit_status != ?"@ + " OR exit_status IS NULL)"@)[0] == '(');
}

proof fn lemma_not_exit(n: i64, row: RowView)
    ensures
        meets("(exit_status != ? OR exit_status IS NULL)"@, seq![SqlView::Integer(n)], row) == (
        row.exit_status != Some(n)),
        asked("(exit_status != ? OR exit_status IS NULL)"@) == 1,
        apart("(exit_status != ? OR exit_status IS NULL)"@),
{
    let c = "(exit_status != ? OR exit_status IS NULL)"@;
    reveal_strlit("(exit_status != ? OR exit_status IS NULL)");
    reveal_strlit("(");
    reveal_strlit("exit_status != ?");
    reveal_strlit(" OR exit_status IS NULL)");
    reveal_strlit("exit_status");
    reveal_strlit("!=");
    reveal_strlit("?");
    assert(c[16] == '?');
    assert(c =~= "("@ + "exit_status != ?"@ + " OR exit_status IS NULL)"@);
    let p = seq![SqlView::Integer(n)];
    assert("exit_status != ?"@ =~= "exit_status"@ + seq![' '] + ("!="@ + seq![' '] + "?"@));
    lemma_compares("exit_status != ?"@, "exit_status"@, "!="@, "?"@, p, row);
    lemma_fields(row);
    lemma_operators();
}

// ── All of them ─────────────────────────────────────────────────────────────

/// How many parameters some conditions take.
spec fn asked_all(cs: Seq<Seq<char>>) -> nat
    decreases cs.len(),
{
    if cs.len() == 0 {
        0
    } else {
        asked(cs[0]) + asked_all(cs.skip(1))
    }
}

/// Conditions and their parameters that a row meets just where `b` holds.
#[verifier::opaque]
spec fn tell(cs: Seq<Seq<char>>, ps: Seq<SqlView>, row: RowView, b: bool) -> bool {
    &&& asked_all(cs) == ps.len()
    &&& meets_all(cs, ps, row) == b
    &&& forall|i: int| 0 <= i < cs.len() ==> apart(#[trigger] cs[i])
}

proof fn lemma_meets_push(cs: Seq<Seq<char>>, ps: Seq<SqlView>, c: Seq<char>, p: Seq<SqlView>, row: RowView)
    requires
        asked_all(cs) == ps.len(),
        asked(c) == p.len(),
    ensures
        meets_all(cs.push(c), ps + p, row) == (meets_all(cs, ps, row) && meets(c, p, row)),
        asked_all(cs.push(c)) == (ps + p).len(),
    decreases cs.len(),
{
    let all = cs.push(c);
    let qs = ps + p;
    if cs.len() == 0 {
        assert(all[0] == c);
        assert(all.skip(1) =~= Seq::<Seq<char>>::empty());
        assert(qs =~= p);
        assert(p.take(p.len() as int) =~= p);
        reveal_with_fuel(meets_all, 2);
        reveal_with_fuel(asked_all, 2);
    } else {
        let n = asked(cs[0]) as int;
        assert(all[0] == cs[0]);
        assert(all.skip(1) =~= cs.skip(1).push(c));
        assert(qs.take(n) =~= ps.take(n));
        assert(qs.skip(n) =~= ps.skip(n) + p);
        lemma_meets_push(cs.skip(1), ps.skip(n), c, p, row);
    }
}

proof fn lemma_tell(
    cs: Seq<Seq<char>>,
    ps: Seq<SqlView>,
    row: RowView,
    b: bool,
    on: bool,
    c: Seq<char>,
    p: Seq<SqlView>,
    m: bool,
)
    requires
        tell(cs, ps, row, b),
        on ==> meets(c, p, row) == m && asked(c) == p.len() && apart(c),
        !on ==> p.len() == 0,
    ensures
        tell(cs + query::when(on, c), ps + p, row, b && (on ==> m)),
{
    reveal(tell);
    reveal(query::when);
    if on {
        lemma_meets_push(cs, ps, c, p, row);
        assert(cs + query::when(on, c) =~= cs.push(c));
    } else {
        assert(cs + query::when(on, c) =~= cs);
        assert(ps + p =~= ps);
    }
}

#[verifier::opaque]
spec fn asks_cwd(f: FiltersView, row: RowView) -> bool {
    f.cwd matches Some(d) ==> row.cwd == d
}

#[verifier::opaque]
spec fn asks_session(f: FiltersView, row: RowView) -> bool {
    f.session matches Some(s) ==> row.session_id == s
}

#[verifier::opaque]
spec fn asks_host(f: FiltersView, row: RowView) -> bool {
    f.host matches Some(h) ==> row.hostname == h
}

#[verifier::opaque]
spec fn asks_exit(f: FiltersView, row: RowView) -> bool {
    f.exit_eq matches Some(n) ==> row.exit_status == Some(n as i64)
}

#[verifier::opaque]
spec fn asks_failed(f: FiltersView, row: RowView) -> bool {
    f.failed_only ==> (row.exit_status matches Some(n) && n > 0)
}

#[verifier::opaque]
spec fn asks_success(f: FiltersView, row: RowView) -> bool {
    f.success_only ==> row.exit_status == Some(0i64)
}

#[verifier::opaque]
spec fn asks_since(f: FiltersView, row: RowView) -> bool {
    f.since_ms matches Some(t) ==> row.started_at >= t
}

#[verifier::opaque]
spec fn asks_until(f: FiltersView, row: RowView) -> bool {
    f.until_ms matches Some(t) ==> row.started_at <= t
}

#[verifier::opaque]
spec fn asks_workspace(f: FiltersView, row: RowView) -> bool {
    f.workspace_prefix matches Some(p) ==> text::starts_with_of(text::lower_of(row.cwd), text::lower_of(p))
}

#[verifier::opaque]
spec fn asks_grep(f: FiltersView, row: RowView) -> bool {
    f.grep matches Some(p) ==> text::contains_of(text::lower_of(row.cmd), text::lower_of(p))
}

#[verifier::opaque]
spec fn asks_not_cwd(f: FiltersView, row: RowView) -> bool {
    f.exclude_cwd matches Some(d) ==> row.cwd != d
}

#[verifier::opaque]
spec fn asks_not_host(f: FiltersView, row: RowView) -> bool {
    f.exclude_host matches Some(h) ==> row.hostname != h
}

#[verifier::opaque]
spec fn asks_not_exit(f: FiltersView, row: RowView) -> bool {
    f.exclude_exit matches Some(n) ==> row.exit_status != Some(n as i64)
}

#[verifier::opaque]
spec fn asks_not_session(f: FiltersView, row: RowView) -> bool {
    f.exclude_session matches Some(s) ==> row.session_id != s
}

proof fn lemma_tell_cwd(cs: Seq<Seq<char>>, ps: Seq<SqlView>, row: RowView, b: bool, f: FiltersView)
    requires
        tell(cs, ps, row, b),
    ensures
        tell(
            cs + query::when(f.cwd is Some, "cwd = ?"@),
            ps + query::text_param(f.cwd),
            row,
            b && asks_cwd(f, row),
        ),
{
    reveal(asks_cwd);
    reveal(query::text_param);
    let p = query::text_param(f.cwd);
    if f.cwd is Some {
        lemma_cwd((f.cwd)->0, row);
    }
    lemma_tell(cs, ps, row, b, f.cwd is Some, "cwd = ?"@, p, meets("cwd = ?"@, p, row));
}

proof fn lemma_tell_session(cs: Seq<Seq<char>>, ps: Seq<SqlView>, row: RowView, b: bool, f: FiltersView)
    requires
        tell(cs, ps, row, b),
    ensures
        tell(
            cs + query::when(f.session is Some, "session_id = ?"@),
            ps + query::text_param(f.session),
            row,
            b && asks_session(f, row),
        ),
{
    reveal(asks_session);
    reveal(query::text_param);
    let p = query::text_param(f.session);
    if f.session is Some {
        lemma_session((f.session)->0, row);
    }
    lemma_tell(cs, ps, row, b, f.session is Some, "session_id = ?"@, p, meets("session_id = ?"@, p, row));
}

proof fn lemma_tell_host(cs: Seq<Seq<char>>, ps: Seq<SqlView>, row: RowView, b: bool, f: FiltersView)
    requires
        tell(cs, ps, row, b),
    ensures
        tell(
            cs + query::when(f.host is Some, "hostname = ?"@),
            ps + query::text_param(f.host),
            row,
            b && asks_host(f, row),
        ),
{
    reveal(asks_host);
    reveal(query::text_param);
    let p = query::text_param(f.host);
    if f.host is Some {
        lemma_host((f.host)->0, row);
    }
    lemma_tell(cs, ps, row, b, f.host is Some, "hostname = ?"@, p, meets("hostname = ?"@, p, row));
}

proof fn lemma_tell_exit(cs: Seq<Seq<char>>, ps: Seq<SqlView>, row: RowView, b: bool, f: FiltersView)
    requires
        tell(cs, ps, row, b),
    ensures
        tell(
            cs + query::when(f.exit_eq is Some, "exit_status = ?"@),
            ps + query::int_param(query::widened(f.exit_eq)),
            row,
            b && asks_exit(f, row),
        ),
{
    reveal(asks_exit);
    reveal(query::int_param);
    let p = query::int_param(query::widened(f.exit_eq));
    if f.exit_eq is Some {
        lemma_exit((query::widened(f.exit_eq))->0, row);
    }
    lemma_tell(cs, ps, row, b, f.exit_eq is Some, "exit_status = ?"@, p, meets("exit_status = ?"@, p, row));
}

proof fn lemma_tell_failed(cs: Seq<Seq<char>>, ps: Seq<SqlView>, row: RowView, b: bool, f: FiltersView)
    requires
        tell(cs, ps, row, b),
    ensures
        tell(cs + query::when(f.failed_only, "exit_status > 0"@), ps, row, b && asks_failed(f, row)),
{
    reveal(asks_failed);
    lemma_failed(row);
    let none = Seq::<SqlView>::empty();
    lemma_tell(cs, ps, row, b, f.failed_only, "exit_status > 0"@, none, meets("exit_status > 0"@, none, row));
    assert(ps + none =~= ps);
}

proof fn lemma_tell_success(cs: Seq<Seq<char>>, ps: Seq<SqlView>, row: RowView, b: bool, f: FiltersView)
    requires
        tell(cs, ps, row, b),
    ensures
        tell(cs + query::when(f.success_only, "exit_status = 0"@), ps, row, b && asks_success(f, row)),
{
    reveal(asks_success);
    lemma_success(row);
    let none = Seq::<SqlView>::empty();
    lemma_tell(cs, ps, row, b, f.success_only, "exit_status = 0"@, none, meets("exit_status = 0"@, none, row));
    assert(ps + none =~= ps);
}

proof fn lemma_tell_since(cs: Seq<Seq<char>>, ps: Seq<SqlView>, row: RowView, b: bool, f: FiltersView)
    requires
        tell(cs, ps, row, b),
    ensures
        tell(
            cs + query::when(f.since_ms is Some, "started_at >= ?"@),
            ps + query::int_param(f.since_ms),
            row,
            b && asks_since(f, row),
        ),
{
    reveal(asks_since);
    reveal(query::int_param);
    let p = query::int_param(f.since_ms);
    if f.since_ms is Some {
        lemma_since((f.since_ms)->0, row);
    }
    lemma_tell(cs, ps, row, b, f.since_ms is Some, "started_at >= ?"@, p, meets("started_at >= ?"@, p, row));
}

proof fn lemma_tell_until(cs: Seq<Seq<char>>, ps: Seq<SqlView>, row: RowView, b: bool, f: FiltersView)
    requires
        tell(cs, ps, row, b),
    ensures
        tell(
            cs + query::when(f.until_ms is Some, "started_at <= ?"@),
            ps + query::int_param(f.until_ms),
            row,
            b && asks_until(f, row),
        ),
{
    reveal(asks_until);
    reveal(query::int_param);
    let p = query::int_param(f.until_ms);
    if f.until_ms is Some {
        lemma_until((f.until_ms)->0, row);
    }
    lemma_tell(cs, ps, row, b, f.until_ms is Some, "started_at <= ?"@, p, meets("started_at <= ?"@, p, row));
}

proof fn lemma_tell_workspace(cs: Seq<Seq<char>>, ps: Seq<SqlView>, row: RowView, b: bool, f: FiltersView)
    requires
        tell(cs, ps, row, b),
    ensures
        tell(
            cs + query::when(f.workspace_prefix is Some, "cwd LIKE ? ESCAPE '\\'"@),
            ps + query::text_param(query::prefix_pattern(f.workspace_prefix)),
            row,
            b && asks_workspace(f, row),
        ),
{
    reveal(asks_workspace);
    reveal(query::text_param);
    let p = query::text_param(query::prefix_pattern(f.workspace_prefix));
    if f.workspace_prefix is Some {
        lemma_workspace((query::prefix_pattern(f.workspace_prefix))->0, row);
        law_prefix_pattern(f.workspace_prefix->0, row.cwd);
    }
    lemma_tell(cs, ps, row, b, f.workspace_prefix is Some, "cwd LIKE ? ESCAPE '\\'"@, p, meets("cwd LIKE ? ESCAPE '\\'"@, p, row));
}

proof fn lemma_tell_grep(cs: Seq<Seq<char>>, ps: Seq<SqlView>, row: RowView, b: bool, f: FiltersView)
    requires
        tell(cs, ps, row, b),
    ensures
        tell(
            cs + query::when(f.grep is Some, "cmd LIKE ? ESCAPE '\\'"@),
            ps + query::text_param(query::infix_pattern(f.grep)),
            row,
            b && asks_grep(f, row),
        ),
{
    reveal(asks_grep);
    reveal(query::text_param);
    let p = query::text_param(query::infix_pattern(f.grep));
    if f.grep is Some {
        lemma_grep((query::infix_pattern(f.grep))->0, row);
        law_infix_pattern(f.grep->0, row.cmd);
    }
    lemma_tell(cs, ps, row, b, f.grep is Some, "cmd LIKE ? ESCAPE '\\'"@, p, meets("cmd LIKE ? ESCAPE '\\'"@, p, row));
}

proof fn lemma_tell_not_cwd(cs: Seq<Seq<char>>, ps: Seq<SqlView>, row: RowView, b: bool, f: FiltersView)
    requires
        tell(cs, ps, row, b),
    ensures
        tell(
            cs + query::when(f.exclude_cwd is Some, "cwd != ?"@),
            ps + query::text_param(f.exclude_cwd),
            row,
            b && asks_not_cwd(f, row),
        ),
{
    reveal(asks_not_cwd);
    reveal(query::text_param);
    let p = query::text_param(f.exclude_cwd);
    if f.exclude_cwd is Some {
        lemma_not_cwd((f.exclude_cwd)->0, row);
    }
    lemma_tell(cs, ps, row, b, f.exclude_cwd is Some, "cwd != ?"@, p, meets("cwd != ?"@, p, row));
}

proof fn lemma_tell_not_host(cs: Seq<Seq<char>>, ps: Seq<SqlView>, row: RowView, b: bool, f: FiltersView)
    requires
        tell(cs, ps, row, b),
    ensures
        tell(
            cs + query::when(f.exclude_host is Some, "hostname != ?"@),
            ps + query::text_param(f.exclude_host),
            row,
            b && asks_not_host(f, row),
        ),
{
    reveal(asks_not_host);
    reveal(query::text_param);
    let p = query::text_param(f.exclude_host);
    if f.exclude_host is Some {
        lemma_not_host((f.exclude_host)->0, row);
    }
    lemma_tell(cs, ps, row, b, f.exclude_host is Some, "hostname != ?"@, p, meets("hostname != ?"@, p, row));
}

proof fn lemma_tell_not_exit(cs: Seq<Seq<char>>, ps: Seq<SqlView>, row: RowView, b: bool, f: FiltersView)
    requires
        tell(cs, ps, row, b),
    ensures
        tell(
            cs + query::when(f.exclude_exit is Some, "(exit_status != ? OR exit_status IS NULL)"@),
            ps + query::int_param(query::widened(f.exclude_exit)),
            row,
            b && asks_not_exit(f, row),
        ),
{
    reveal(asks_not_exit);
    reveal(query::int_param);
    let p = query::int_param(query::widened(f.exclude_exit));
    if f.exclude_exit is Some {
        lemma_not_exit((query::widened(f.exclude_exit))->0, row);
    }
    lemma_tell(cs, ps, row, b, f.exclude_exit is Some, "(exit_status != ? OR exit_status IS NULL)"@, p, meets("(exit_status != ? OR exit_status IS NULL)"@, p, row));
}

proof fn lemma_tell_not_session(cs: Seq<Seq<char>>, ps: Seq<SqlView>, row: RowView, b: bool, f: FiltersView)
    requires
        tell(cs, ps, row, b),
    ensures
        tell(
            cs + query::when(f.exclude_session is Some, "session_id != ?"@),
            ps + query::text_param(f.exclude_session),
            row,
            b && asks_not_session(f, row),
        ),
{
    reveal(asks_not_session);
    reveal(query::text_param);
    let p = query::text_param(f.exclude_session);
    if f.exclude_session is Some {
        lemma_not_session((f.exclude_session)->0, row);
    }
    lemma_tell(cs, ps, row, b, f.exclude_session is Some, "session_id != ?"@, p, meets("session_id != ?"@, p, row));
}

proof fn lemma_clauses_tell(f: FiltersView, row: RowView)
    ensures
        tell(query::clauses_of(f), query::filter_params_of(f), row, wanted(f, row)),
{
    reveal(query::clauses_of);
    reveal(query::filter_params_of);
    let none_c = Seq::<Seq<char>>::empty();
    let none_p = Seq::<SqlView>::empty();
    assert(tell(none_c, none_p, row, true)) by {
        reveal(tell);
    }
    lemma_tell_cwd(none_c, none_p, row, true, f);
    assert(none_c + query::when(f.cwd is Some, "cwd = ?"@) =~= query::when(f.cwd is Some, "cwd = ?"@));
    assert(none_p + query::text_param(f.cwd) =~= query::text_param(f.cwd));
    let mut cs = query::when(f.cwd is Some, "cwd = ?"@);
    let mut ps = query::text_param(f.cwd);
    let mut b = true && asks_cwd(f, row);
    lemma_tell_session(cs, ps, row, b, f);
    cs = cs + query::when(f.session is Some, "session_id = ?"@);
    ps = ps + query::text_param(f.session);
    b = b && asks_session(f, row);
    lemma_tell_host(cs, ps, row, b, f);
    cs = cs + query::when(f.host is Some, "hostname = ?"@);
    ps = ps + query::text_param(f.host);
    b = b && asks_host(f, row);
    lemma_tell_exit(cs, ps, row, b, f);
    cs = cs + query::when(f.exit_eq is Some, "exit_status = ?"@);
    ps = ps + query::int_param(query::widened(f.exit_eq));
    b = b && asks_exit(f, row);
    lemma_tell_failed(cs, ps, row, b, f);
    cs = cs + query::when(f.failed_only, "exit_status > 0"@);
    b = b && asks_failed(f, row);
    lemma_tell_success(cs, ps, row, b, f);
    cs = cs + query::when(f.success_only, "exit_status = 0"@);
    b = b && asks_success(f, row);
    lemma_tell_since(cs, ps, row, b, f);
    cs = cs + query::when(f.since_ms is Some, "started_at >= ?"@);
    ps = ps + query::int_param(f.since_ms);
    b = b && asks_since(f, row);
    lemma_tell_until(cs, ps, row, b, f);
    cs = cs + query::when(f.until_ms is Some, "started_at <= ?"@);
    ps = ps + query::int_param(f.until_ms);
    b = b && asks_until(f, row);
    lemma_tell_workspace(cs, ps, row, b, f);
    cs = cs + query::when(f.workspace_prefix is Some, "cwd LIKE ? ESCAPE '\\'"@);
    ps = ps + query::text_param(query::prefix_pattern(f.workspace_prefix));
    b = b && asks_workspace(f, row);
    lemma_tell_grep(cs, ps, row, b, f);
    cs = cs + query::when(f.grep is Some, "cmd LIKE ? ESCAPE '\\'"@);
    ps = ps + query::text_param(query::infix_pattern(f.grep));
    b = b && asks_grep(f, row);
    lemma_tell_not_cwd(cs, ps, row, b, f);
    cs = cs + query::when(f.exclude_cwd is Some, "cwd != ?"@);
    ps = ps + query::text_param(f.exclude_cwd);
    b = b && asks_not_cwd(f, row);
    lemma_tell_not_host(cs, ps, row, b, f);
    cs = cs + query::when(f.exclude_host is Some, "hostname != ?"@);
    ps = ps + query::text_param(f.exclude_host);
    b = b && asks_not_host(f, row);
    lemma_tell_not_exit(cs, ps, row, b, f);
    cs = cs + query::when(f.exclude_exit is Some, "(exit_status != ? OR exit_status IS NULL)"@);
    ps = ps + query::int_param(query::widened(f.exclude_exit));
    b = b && asks_not_exit(f, row);
    lemma_tell_not_session(cs, ps, row, b, f);
    cs = cs + query::when(f.exclude_session is Some, "session_id != ?"@);
    ps = ps + query::text_param(f.exclude_session);
    b = b && asks_not_session(f, row);
    assert(b == wanted(f, row)) by {
        reveal(asks_cwd);
        reveal(asks_session);
        reveal(asks_host);
        reveal(asks_exit);
        reveal(asks_failed);
        reveal(asks_success);
        reveal(asks_since);
        reveal(asks_until);
        reveal(asks_workspace);
        reveal(asks_grep);
        reveal(asks_not_cwd);
        reveal(asks_not_host);
        reveal(asks_not_exit);
        reveal(asks_not_session);
    }
}

proof fn lemma_and_at(c: Seq<char>, rest: Seq<char>)
    requires
        apart(c),
    ensures
        and_at(c + " AND "@ + rest) == c.len(),
    decreases c.len(),
{
    reveal_strlit(" AND ");
    let s = c + " AND "@ + rest;
    if c.len() == 0 {
        assert(s.take(5) =~= " AND "@);
    } else {
        let more = c.skip(1);
        assert(s[0] == c[0]);
        if s.take(5) == " AND "@ {
            assert(s.take(5)[0] == ' ' && s.take(5)[1] == 'A');
            assert(s[1] == c[1]);
        }
        assert(s.skip(1) =~= more + " AND "@ + rest);
        assert(apart(more)) by {
            assert forall|i: int| 0 <= i < more.len() && #[trigger] more[i] == ' ' implies i + 1 < more.len()
                && more[i + 1] != 'A' by {
                assert(more[i] == c[i + 1]);
                assert(more[i + 1] == c[i + 2]);
            }
        }
        lemma_and_at(more, rest);
    }
}

proof fn lemma_no_and(c: Seq<char>)
    requires
        apart(c),
    ensures
        and_at(c) == c.len() || and_at(c) + 5 > c.len(),
    decreases c.len(),
{
    reveal_strlit(" AND ");
    if c.len() >= 5 {
        let more = c.skip(1);
        if c.take(5) == " AND "@ {
            assert(c.take(5)[0] == ' ' && c.take(5)[1] == 'A');
            assert(c[0] == ' ' && c[1] == 'A');
        }
        assert(apart(more)) by {
            assert forall|i: int| 0 <= i < more.len() && #[trigger] more[i] == ' ' implies i + 1 < more.len()
                && more[i + 1] != 'A' by {
                assert(more[i] == c[i + 1]);
                assert(more[i + 1] == c[i + 2]);
            }
        }
        lemma_no_and(more);
    }
}

proof fn lemma_join_front(cs: Seq<Seq<char>>, sep: Seq<char>)
    requires
        cs.len() >= 2,
    ensures
        text::join_of(cs, sep) == cs[0] + sep + text::join_of(cs.skip(1), sep),
    decreases cs.len(),
{
    let dl = cs.drop_last();
    let more = cs.skip(1);
    assert(more.last() == cs.last());
    if cs.len() == 2 {
        reveal_with_fuel(text::join_of, 2);
        assert(dl.len() == 1 && dl[0] == cs[0]);
        assert(more.len() == 1 && more[0] == cs[1]);
    } else {
        lemma_join_front(dl, sep);
        assert(dl.skip(1) =~= more.drop_last());
        assert(dl[0] == cs[0]);
        assert(text::join_of(cs, sep) =~= cs[0] + sep + text::join_of(more, sep));
    }
}

proof fn lemma_conditions(cs: Seq<Seq<char>>)
    requires
        cs.len() > 0,
        forall|i: int| 0 <= i < cs.len() ==> apart(#[trigger] cs[i]),
    ensures
        conditions(text::join_of(cs, " AND "@)) == cs,
    decreases cs.len(),
{
    reveal_strlit(" AND ");
    let s = text::join_of(cs, " AND "@);
    assert(apart(cs[0]));
    if cs.len() == 1 {
        lemma_no_and(cs[0]);
        assert(cs =~= seq![cs[0]]);
    } else {
        let more = cs.skip(1);
        lemma_join_front(cs, " AND "@);
        let rest = text::join_of(more, " AND "@);
        lemma_and_at(cs[0], rest);
        assert forall|i: int| 0 <= i < more.len() implies apart(#[trigger] more[i]) by {
            assert(more[i] == cs[i + 1]);
        }
        lemma_conditions(more);
        assert(s.take(cs[0].len() as int) =~= cs[0]);
        assert(s.skip(cs[0].len() as int + 5) =~= rest);
        assert(seq![cs[0]] + more =~= cs);
    }
}

// ── Laws ────────────────────────────────────────────────────────────────────

/// A query lets through exactly the rows that were asked for: a row passes its
/// `WHERE`, with the parameters that go with it, just where it satisfies every filter
/// that is set.
pub proof fn law_query_finds_what_was_asked(f: FiltersView, row: RowView)
    ensures
        lets_through(query::where_of(f), query::filter_params_of(f), row) <==> wanted(f, row),
{
    lemma_clauses_tell(f, row);
    reveal(tell);
    let cs = query::clauses_of(f);
    let w = query::where_of(f);
    reveal_strlit(" WHERE ");
    if cs.len() > 0 {
        let j = text::join_of(cs, " AND "@);
        lemma_conditions(cs);
        assert(w.subrange(0, " WHERE "@.len() as int) =~= " WHERE "@);
        assert(w.skip(" WHERE "@.len() as int) =~= j);
    }
}

/// With only successes asked for, exactly the rows whose exit status is known and 0
/// pass; with only failures, exactly those whose status is known and above 0. No row
/// passes both.
pub proof fn law_success_and_failure(f: FiltersView, row: RowView)
    requires
        f == (FiltersView {
            success_only: f.success_only,
            failed_only: f.failed_only,
            limit: f.limit,
            reverse: f.reverse,
            unique: f.unique,
            format: f.format,
            ..crate::history::args::no_filters(f.limit)
        }),
    ensures
        ({
            let through = lets_through(query::where_of(f), query::filter_params_of(f), row);
            &&& f.success_only && !f.failed_only ==> (through <==> row.exit_status == Some(0i64))
            &&& f.failed_only && !f.success_only ==> (through <==> (row.exit_status matches Some(n) && n > 0))
            &&& f.failed_only && f.success_only ==> !through
            &&& !f.failed_only && !f.success_only ==> through
        }),
{
    law_query_finds_what_was_asked(f, row);
}

/// The text of a query is its `WHERE` between a beginning and an end that only depend
/// on whether one row of each command is asked for; the rows come newest first, no
/// more of them than the limit, which is the last parameter.
pub proof fn law_newest_rows_come_first(f: FiltersView)
    ensures
        exists|head: Seq<char>|
            #![trigger head + query::where_of(f)]
            query::sql_of(f) == head + query::where_of(f) + (if f.unique {
                ") WHERE place = 1"@
            } else {
                Seq::empty()
            }) + " ORDER BY started_at DESC LIMIT ?"@ && (head == query::BASE_SELECT@ || head
                == query::PLACED_SELECT@),
        query::params_of(f).drop_last() == query::filter_params_of(f),
        query::params_of(f).last() matches SqlView::Integer(n) && (f.limit <= i64::MAX ==> n == f.limit) && (
        f.limit > i64::MAX ==> n == i64::MAX),
{
    assert(query::params_of(f).drop_last() =~= query::filter_params_of(f));
    let w = query::where_of(f);
    let order = " ORDER BY started_at DESC LIMIT ?"@;
    if f.unique {
        reveal_strlit(") WHERE place = 1");
        reveal_strlit(" ORDER BY started_at DESC LIMIT ?");
        reveal_strlit(") WHERE place = 1 ORDER BY started_at DESC LIMIT ?");
        assert(query::FIRST_OF_EACH@ =~= ") WHERE place = 1"@ + order);
        let head = query::PLACED_SELECT@;
        assert(query::sql_of(f) =~= head + w + ") WHERE place = 1"@ + order);
    } else {
        let head = query::BASE_SELECT@;
        assert(query::sql_of(f) =~= head + w + Seq::<char>::empty() + order);
    }
}

} // verus!
