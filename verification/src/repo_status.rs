//! The summary of a repository: its branch, its last commits, and what is open.

use vstd::prelude::*;
use crate::decimal;
use crate::decimal::{dec_u64, push_u64};
use crate::text;
use crate::text::{
    chars_of, owned, split_lines, split_once_char, str_eq, string_lossy, string_of_range, trim_str,
};

verus! {

// ── Words ───────────────────────────────────────────────────────────────────

/// The ending of a counted noun.
pub open spec fn plural_of(n: nat) -> Seq<char> {
    if n == 1 {
        ""@
    } else {
        "s"@
    }
}

/// The ending of a counted noun.
pub fn plural(n: u64) -> (r: &'static str)
    ensures
        r@ == plural_of(n as nat),
{
    if n == 1 {
        ""
    } else {
        "s"
    }
}

/// A number of units of time.
pub open spec fn ago_of(n: nat, unit: Seq<char>) -> Seq<char> {
    decimal::dec_digits(n) + unit + plural_of(n) + " ago"@
}

/// How long ago a moment was, in the largest unit that is full.
pub open spec fn age_of(now: int, epoch: int) -> Seq<char> {
    let then_at = if epoch < 0 {
        0
    } else {
        epoch
    };
    let delta = (if now > then_at {
        now - then_at
    } else {
        0
    }) as nat;
    if delta < 60 {
        "just now"@
    } else if delta < 3_600 {
        ago_of(delta / 60, " min"@)
    } else if delta < 86_400 {
        ago_of(delta / 3_600, " hour"@)
    } else {
        ago_of(delta / 86_400, " day"@)
    }
}

fn ago(n: u64, unit: &str) -> (r: String)
    ensures
        r@ == ago_of(n as nat, unit@),
{
    let mut s: String = dec_u64(n);
    s.push_str(unit);
    s.push_str(plural(n));
    s.push_str(" ago");
    s
}

/// How long ago a moment was. `now` is in seconds, as is the moment.
pub fn format_age(now: u64, epoch_secs: i64) -> (r: String)
    ensures
        r@ == age_of(now as int, epoch_secs as int),
{
    let then_at: u64 = if epoch_secs < 0 {
        0
    } else {
        epoch_secs as u64
    };
    let delta: u64 = if now > then_at {
        now - then_at
    } else {
        0
    };
    if delta < 60 {
        owned("just now")
    } else if delta < 3_600 {
        ago(delta / 60, " min")
    } else if delta < 86_400 {
        ago(delta / 3_600, " hour")
    } else {
        ago(delta / 86_400, " day")
    }
}

// ── The branch ──────────────────────────────────────────────────────────────

/// Where a repository stands.
#[derive(Debug)]
pub enum Head {
    /// On no branch; the full name of the commit, where it can be read.
    Detached(Option<String>),
    /// On a branch; its name, where it can be read.
    Branch(Option<String>),
}

/// The first seven characters of a commit's name.
pub open spec fn short_of(id: Seq<char>) -> Seq<char> {
    id.take(7)
}

/// The first seven characters of a commit's name.
pub fn short_id(id: &str) -> (r: String)
    requires
        id@.len() >= 7,
    ensures
        r@ == short_of(id@),
{
    let v: Vec<char> = chars_of(id);
    proof {
        assert(v@.subrange(0, 7) =~= short_of(id@));
    }
    string_of_range(&v, 0, 7)
}

/// What the place of a repository is called.
pub open spec fn branch_of(head: Head) -> Seq<char> {
    match head {
        Head::Detached(Some(id)) => short_of(id@),
        Head::Branch(Some(name)) => name@,
        Head::Detached(None) => "HEAD"@,
        Head::Branch(None) => "HEAD"@,
    }
}

/// What the place of a repository is called.
pub fn current_branch(head: &Head) -> (r: String)
    requires
        head matches Head::Detached(Some(id)) ==> id@.len() >= 7,
    ensures
        r@ == branch_of(*head),
{
    match head {
        Head::Detached(Some(id)) => short_id(id.as_str()),
        Head::Branch(Some(name)) => owned(name.as_str()),
        Head::Detached(None) => owned("HEAD"),
        Head::Branch(None) => owned("HEAD"),
    }
}

/// The branch that others start from; `main` where there is neither.
pub open spec fn main_of(has_main: bool, has_master: bool) -> Seq<char> {
    if has_main || !has_master {
        "main"@
    } else {
        "master"@
    }
}

/// The branch that others start from.
pub fn find_main_branch(has_main: bool, has_master: bool) -> (r: &'static str)
    ensures
        r@ == main_of(has_main, has_master),
{
    if has_main {
        "main"
    } else if has_master {
        "master"
    } else {
        "main"
    }
}

/// A count, as far as it goes.
pub open spec fn capped(n: int) -> int {
    if n > u32::MAX {
        u32::MAX as int
    } else {
        n
    }
}

/// How far a branch is ahead and behind; nothing where that cannot be told.
pub fn ahead_behind(counts: Option<(usize, usize)>) -> (r: (u32, u32))
    ensures
        r == (match counts {
            Some(c) => (capped(c.0 as int) as u32, capped(c.1 as int) as u32),
            None => (0u32, 0u32),
        }),
{
    match counts {
        Some((a, b)) => {
            let ahead: u32 = if a as u64 > u32::MAX as u64 {
                u32::MAX
            } else {
                a as u32
            };
            let behind: u32 = if b as u64 > u32::MAX as u64 {
                u32::MAX
            } else {
                b as u32
            };
            (ahead, behind)
        },
        None => (0, 0),
    }
}

// ── The parts of the summary ────────────────────────────────────────────────

/// The name of the repository and its branch.
pub open spec fn header_of(name: Seq<char>, branch: Seq<char>) -> Seq<char> {
    "\x1b[1m"@ + name + "\x1b[0m on \x1b[36m"@ + branch + "\x1b[0m\n\n"@
}

/// Appends the name of the repository and its branch.
pub fn render_header(name: &str, branch: &str, out: &mut String)
    ensures
        final(out)@ == old(out)@ + header_of(name@, branch@),
{
    let ghost before = out@;
    out.push_str("\x1b[1m");
    out.push_str(name);
    out.push_str("\x1b[0m on \x1b[36m");
    out.push_str(branch);
    out.push_str("\x1b[0m\n\n");
    proof {
        assert(out@ =~= before + header_of(name@, branch@));
    }
}

/// A line on commits that are ahead or behind; none where there are none.
pub open spec fn count_line(n: nat, color: Seq<char>, word: Seq<char>) -> Seq<char> {
    if n == 0 {
        Seq::empty()
    } else {
        color + decimal::dec_digits(n) + " commit"@ + plural_of(n) + word
    }
}

fn push_count(out: &mut String, n: u64, color: &str, word: &str)
    ensures
        final(out)@ == old(out)@ + count_line(n as nat, color@, word@),
{
    let ghost before = out@;
    if n > 0 {
        out.push_str(color);
        push_u64(out, n);
        out.push_str(" commit");
        out.push_str(plural(n));
        out.push_str(word);
    }
    proof {
        assert(out@ =~= before + count_line(n as nat, color@, word@));
    }
}

/// How the branch stands to its remote.
pub open spec fn branch_status_of(ahead: nat, behind: nat) -> Seq<char> {
    (if ahead == 0 && behind == 0 {
        "  \x1b[32mup to date with remote\x1b[0m\n"@
    } else {
        count_line(ahead, "  \x1b[33m"@, " ahead\x1b[0m\n"@) + count_line(
            behind,
            "  \x1b[33m"@,
            " behind\x1b[0m\n"@,
        )
    }) + "\n"@
}

/// Appends how the branch stands to its remote.
pub fn render_branch_status(ahead: u32, behind: u32, out: &mut String)
    ensures
        final(out)@ == old(out)@ + branch_status_of(ahead as nat, behind as nat),
{
    let ghost before = out@;
    if ahead == 0 && behind == 0 {
        out.push_str("  \x1b[32mup to date with remote\x1b[0m\n");
    } else {
        push_count(out, ahead as u64, "  \x1b[33m", " ahead\x1b[0m\n");
        push_count(out, behind as u64, "  \x1b[33m", " behind\x1b[0m\n");
    }
    out.push_str("\n");
    proof {
        assert(out@ =~= before + branch_status_of(ahead as nat, behind as nat));
    }
}

/// A commit.
#[derive(Debug)]
pub struct Commit {
    /// Its full name.
    pub id: String,
    /// The first line of its message.
    pub summary: String,
    /// When it was made, in seconds.
    pub time: i64,
}

/// The line of a commit.
pub open spec fn commit_line(c: Commit, now: int) -> Seq<char> {
    "  \x1b[33m"@ + short_of(c.id@) + "\x1b[0m "@ + c.summary@ + " \x1b[90m("@ + age_of(now, c.time as int)
        + ")\x1b[0m\n"@
}

/// The lines of the first `n` commits; one that cannot be read is left out.
pub open spec fn commit_lines(cs: Seq<Option<Commit>>, now: int, n: nat) -> Seq<char>
    decreases n,
{
    if n == 0 {
        Seq::empty()
    } else {
        let head = commit_lines(cs, now, (n - 1) as nat);
        match cs[n - 1] {
            Some(c) => head + commit_line(c, now),
            None => head,
        }
    }
}

/// How many of the first `n` commits can be read.
pub open spec fn readable(cs: Seq<Option<Commit>>, n: nat) -> nat
    decreases n,
{
    if n == 0 {
        0
    } else {
        readable(cs, (n - 1) as nat) + (if cs[n - 1] is Some {
            1nat
        } else {
            0
        })
    }
}

/// How many commits are looked at.
pub open spec fn looked_at(cs: Seq<Option<Commit>>) -> nat {
    if cs.len() < 5 {
        cs.len()
    } else {
        5
    }
}

/// The last five commits.
pub open spec fn recent_of(cs: Option<Seq<Option<Commit>>>, now: int) -> Seq<char> {
    "\x1b[1mRecent commits:\x1b[0m\n"@ + (match cs {
        Some(v) => commit_lines(v, now, looked_at(v)) + (if readable(v, looked_at(v)) == 0 {
            "  (no commits)\n"@
        } else {
            Seq::empty()
        }) + "\n"@,
        None => Seq::empty(),
    })
}

/// Whether the names of all commits are long enough to be cut short.
pub open spec fn named(cs: Seq<Option<Commit>>) -> bool {
    forall|i: int| 0 <= i < cs.len() ==> (#[trigger] cs[i] matches Some(c) ==> c.id@.len() >= 7)
}

/// The value of an optional list of commits.
pub open spec fn commits_view(cs: Option<Vec<Option<Commit>>>) -> Option<Seq<Option<Commit>>> {
    match cs {
        Some(v) => Some(v@),
        None => None,
    }
}

/// Appends the last five commits. There is no list where the history cannot be walked,
/// and no commit where it cannot be read.
pub fn render_recent_commits(commits: &Option<Vec<Option<Commit>>>, now: u64, out: &mut String)
    requires
        commits matches Some(v) ==> named(v@),
    ensures
        final(out)@ == old(out)@ + recent_of(commits_view(*commits), now as int),
{
    let ghost before = out@;
    out.push_str("\x1b[1mRecent commits:\x1b[0m\n");
    let ghost head = out@;
    let v: &Vec<Option<Commit>> = match commits {
        Some(v) => v,
        None => {
            proof {
                assert(out@ =~= before + recent_of(commits_view(*commits), now as int));
            }
            return;
        },
    };
    let n: usize = if v.len() < 5 {
        v.len()
    } else {
        5
    };
    let mut i: usize = 0;
    let mut count: usize = 0;
    proof {
        assert(out@ =~= head + commit_lines(v@, now as int, 0));
    }
    while i < n
        invariant
            n == looked_at(v@),
            named(v@),
            i <= n,
            count <= i,
            count == readable(v@, i as nat),
            out@ == head + commit_lines(v@, now as int, i as nat),
        decreases n - i,
    {
        let ghost prior = out@;
        match &v[i] {
            Some(c) => {
                out.push_str("  \x1b[33m");
                out.push_str(short_id(c.id.as_str()).as_str());
                out.push_str("\x1b[0m ");
                out.push_str(c.summary.as_str());
                out.push_str(" \x1b[90m(");
                out.push_str(format_age(now, c.time).as_str());
                out.push_str(")\x1b[0m\n");
                count += 1;
                proof {
                    assert(out@ =~= prior + commit_line(*c, now as int));
                    assert(out@ =~= head + commit_lines(v@, now as int, (i + 1) as nat));
                }
            },
            None => (),
        }
        i += 1;
    }
    if count == 0 {
        out.push_str("  (no commits)\n");
    }
    out.push_str("\n");
    proof {
        assert(out@ =~= before + recent_of(commits_view(*commits), now as int));
    }
}

/// How far a branch has drifted from the main one. On that one, and where it cannot
/// be told, there is nothing to say.
pub open spec fn drift_of(branch: Seq<char>, main: Seq<char>, counts: Option<(u64, u64)>) -> Seq<char> {
    match counts {
        Some(c) => if branch == main {
            Seq::empty()
        } else {
            "\x1b[1mDrift from "@ + main + ":\x1b[0m\n"@ + (if c.0 == 0 && c.1 == 0 {
                "  \x1b[32meven\x1b[0m\n"@
            } else {
                count_line(c.0 as nat, "  \x1b[36m"@, " ahead\x1b[0m\n"@) + count_line(
                    c.1 as nat,
                    "  \x1b[33m"@,
                    " behind\x1b[0m\n"@,
                )
            }) + "\n"@
        },
        None => Seq::empty(),
    }
}

/// Appends how far a branch has drifted from the main one.
pub fn render_drift(branch: &str, main: &str, counts: Option<(u64, u64)>, out: &mut String)
    ensures
        final(out)@ == old(out)@ + drift_of(branch@, main@, counts),
{
    let ghost before = out@;
    match counts {
        Some((ahead, behind)) => {
            if !str_eq(branch, main) {
                out.push_str("\x1b[1mDrift from ");
                out.push_str(main);
                out.push_str(":\x1b[0m\n");
                if ahead == 0 && behind == 0 {
                    out.push_str("  \x1b[32meven\x1b[0m\n");
                } else {
                    push_count(out, ahead, "  \x1b[36m", " ahead\x1b[0m\n");
                    push_count(out, behind, "  \x1b[33m", " behind\x1b[0m\n");
                }
                out.push_str("\n");
            }
        },
        None => (),
    }
    proof {
        assert(out@ =~= before + drift_of(branch@, main@, counts));
    }
}

// ── What GitHub's tool tells ────────────────────────────────────────────────

/// The three parts of a line with tabs between them; what is behind the second tab
/// stays in one.
pub open spec fn three_of(s: Seq<char>) -> Option<(Seq<char>, Seq<char>, Seq<char>)> {
    match text::split_once_of(s, '\t') {
        Some(p) => match text::split_once_of(p.1, '\t') {
            Some(q) => Some((p.0, q.0, q.1)),
            None => None,
        },
        None => None,
    }
}

fn split_three(s: &str) -> (r: Option<(String, String, String)>)
    ensures
        r matches Some(p) ==> three_of(s@) == Some((p.0@, p.1@, p.2@)),
        r is None <==> three_of(s@) is None,
{
    match split_once_char(s, '\t') {
        Some((a, rest)) => match split_once_char(rest.as_str(), '\t') {
            Some((b, c)) => Some((a, b, c)),
            None => None,
        },
        None => None,
    }
}

/// The mark of a request's checks.
pub open spec fn checks_mark(state: Seq<char>) -> Seq<char> {
    if state == "passing"@ {
        " [\x1b[32mpassing\x1b[0m]"@
    } else if state == "running"@ {
        " [\x1b[33mrunning\x1b[0m]"@
    } else if state == "failing"@ {
        " [\x1b[31mfailing\x1b[0m]"@
    } else {
        ""@
    }
}

/// The line of an open request; a line that does not have four parts says nothing.
pub open spec fn pr_line(line: Seq<char>) -> Seq<char> {
    match three_of(line) {
        Some((number, title, rest)) => match text::split_once_of(rest, '\t') {
            Some((branch, state)) => "  \x1b[36m#"@ + number + "\x1b[0m "@ + title + " ("@ + branch + ")"@
                + checks_mark(state) + "\n"@,
            None => Seq::empty(),
        },
        None => Seq::empty(),
    }
}

/// The lines of open requests.
pub open spec fn pr_lines(lines: Seq<Seq<char>>) -> Seq<char>
    decreases lines.len(),
{
    if lines.len() == 0 {
        Seq::empty()
    } else {
        pr_lines(lines.drop_last()) + pr_line(lines.last())
    }
}

/// The open requests; nothing where there are none.
pub open spec fn open_prs_of(said: Seq<char>) -> Seq<char> {
    if text::trim_of(said).len() == 0 {
        Seq::empty()
    } else {
        "\x1b[1mOpen PRs:\x1b[0m\n"@ + pr_lines(text::lines_of(said)) + "\n"@
    }
}

fn push_pr_line(out: &mut String, line: &str)
    ensures
        final(out)@ == old(out)@ + pr_line(line@),
{
    let ghost before = out@;
    if let Some((number, title, rest)) = split_three(line) {
        if let Some((branch, state)) = split_once_char(rest.as_str(), '\t') {
            let mark: &'static str = if str_eq(state.as_str(), "passing") {
                " [\x1b[32mpassing\x1b[0m]"
            } else if str_eq(state.as_str(), "running") {
                " [\x1b[33mrunning\x1b[0m]"
            } else if str_eq(state.as_str(), "failing") {
                " [\x1b[31mfailing\x1b[0m]"
            } else {
                ""
            };
            out.push_str("  \x1b[36m#");
            out.push_str(number.as_str());
            out.push_str("\x1b[0m ");
            out.push_str(title.as_str());
            out.push_str(" (");
            out.push_str(branch.as_str());
            out.push_str(")");
            out.push_str(mark);
            out.push_str("\n");
        }
    }
    proof {
        assert(out@ =~= before + pr_line(line@));
    }
}

/// Appends the open requests that a text of lines with tabs tells of.
pub fn open_prs(said: &str, out: &mut String)
    ensures
        final(out)@ == old(out)@ + open_prs_of(said@),
{
    let ghost before = out@;
    if trim_str(said).as_str().is_empty() {
        proof {
            assert(out@ =~= before + open_prs_of(said@));
        }
        return;
    }
    out.push_str("\x1b[1mOpen PRs:\x1b[0m\n");
    let ghost head = out@;
    let lines: Vec<String> = split_lines(said);
    let ghost all = text::views(lines@);
    let mut i: usize = 0;
    proof {
        assert(out@ =~= head + pr_lines(all.take(0)));
    }
    while i < lines.len()
        invariant
            all == text::views(lines@),
            i <= lines@.len(),
            out@ == head + pr_lines(all.take(i as int)),
        decreases lines@.len() - i,
    {
        push_pr_line(out, lines[i].as_str());
        proof {
            let t = all.take(i as int + 1);
            assert(t.drop_last() =~= all.take(i as int));
            assert(t.last() == lines@[i as int]@);
            assert(out@ =~= head + pr_lines(t));
        }
        i += 1;
    }
    out.push_str("\n");
    proof {
        assert(all.take(i as int) =~= all);
        assert(out@ =~= before + open_prs_of(said@));
    }
}

/// Appends the open requests that the tool's output tells of, if the tool succeeded.
pub fn render_open_prs(ok: bool, stdout: &Vec<u8>, out: &mut String)
    ensures
        final(out)@ == (if ok {
            old(out)@ + open_prs_of(text::lossy_text(stdout@))
        } else {
            old(out)@
        }),
{
    if ok {
        let said: String = string_lossy(stdout.as_slice());
        open_prs(said.as_str(), out);
    }
}

/// The sign of a check.
pub open spec fn check_sign(state: Seq<char>, conclusion: Seq<char>) -> Seq<char> {
    if conclusion == "SUCCESS"@ {
        "\x1b[32m\u{2713}\x1b[0m"@
    } else if conclusion == "FAILURE"@ {
        "\x1b[31m\u{2717}\x1b[0m"@
    } else if state == "IN_PROGRESS"@ {
        "\x1b[33m\u{25cf}\x1b[0m"@
    } else {
        "\x1b[90m\u{25cb}\x1b[0m"@
    }
}

/// The line of a check; a line that does not have three parts says nothing.
pub open spec fn check_line(line: Seq<char>) -> Seq<char> {
    match three_of(line) {
        Some((name, state, conclusion)) => "  "@ + check_sign(state, conclusion) + " "@ + name + "\n"@,
        None => Seq::empty(),
    }
}

/// The lines of checks.
pub open spec fn check_lines(lines: Seq<Seq<char>>) -> Seq<char>
    decreases lines.len(),
{
    if lines.len() == 0 {
        Seq::empty()
    } else {
        check_lines(lines.drop_last()) + check_line(lines.last())
    }
}

/// The checks; nothing where there are none.
pub open spec fn ci_checks_of(said: Seq<char>) -> Seq<char> {
    if text::trim_of(said).len() == 0 {
        Seq::empty()
    } else {
        "\x1b[1mCI checks:\x1b[0m\n"@ + check_lines(text::lines_of(said)) + "\n"@
    }
}

fn push_check_line(out: &mut String, line: &str)
    ensures
        final(out)@ == old(out)@ + check_line(line@),
{
    let ghost before = out@;
    if let Some((name, state, conclusion)) = split_three(line) {
        let sign: &'static str = if str_eq(conclusion.as_str(), "SUCCESS") {
            "\x1b[32m\u{2713}\x1b[0m"
        } else if str_eq(conclusion.as_str(), "FAILURE") {
            "\x1b[31m\u{2717}\x1b[0m"
        } else if str_eq(state.as_str(), "IN_PROGRESS") {
            "\x1b[33m\u{25cf}\x1b[0m"
        } else {
            "\x1b[90m\u{25cb}\x1b[0m"
        };
        out.push_str("  ");
        out.push_str(sign);
        out.push_str(" ");
        out.push_str(name.as_str());
        out.push_str("\n");
    }
    proof {
        assert(out@ =~= before + check_line(line@));
    }
}

/// Appends the checks that a text of lines with tabs tells of.
pub fn ci_checks(said: &str, out: &mut String)
    ensures
        final(out)@ == old(out)@ + ci_checks_of(said@),
{
    let ghost before = out@;
    if trim_str(said).as_str().is_empty() {
        proof {
            assert(out@ =~= before + ci_checks_of(said@));
        }
        return;
    }
    out.push_str("\x1b[1mCI checks:\x1b[0m\n");
    let ghost head = out@;
    let lines: Vec<String> = split_lines(said);
    let ghost all = text::views(lines@);
    let mut i: usize = 0;
    proof {
        assert(out@ =~= head + check_lines(all.take(0)));
    }
    while i < lines.len()
        invariant
            all == text::views(lines@),
            i <= lines@.len(),
            out@ == head + check_lines(all.take(i as int)),
        decreases lines@.len() - i,
    {
        push_check_line(out, lines[i].as_str());
        proof {
            let t = all.take(i as int + 1);
            assert(t.drop_last() =~= all.take(i as int));
            assert(t.last() == lines@[i as int]@);
            assert(out@ =~= head + check_lines(t));
        }
        i += 1;
    }
    out.push_str("\n");
    proof {
        assert(all.take(i as int) =~= all);
        assert(out@ =~= before + ci_checks_of(said@));
    }
}

/// Appends the checks that the tool's output tells of, if the tool succeeded.
pub fn render_ci_status(ok: bool, stdout: &Vec<u8>, out: &mut String)
    ensures
        final(out)@ == (if ok {
            old(out)@ + ci_checks_of(text::lossy_text(stdout@))
        } else {
            old(out)@
        }),
{
    if ok {
        let said: String = string_lossy(stdout.as_slice());
        ci_checks(said.as_str(), out);
    }
}

// ── Laws ────────────────────────────────────────────────────────────────────

/// Whether a line has a sign of one colour behind its two spaces.
pub open spec fn shows_sign(line: Seq<char>, color: Seq<char>, glyph: char) -> bool {
    line.len() >= 3 + color.len() && line.subrange(2, 2 + color.len() as int) == color && line[2 + color.len() as int]
        == glyph
}

/// The line of a check tells its outcome: the green tick is shown exactly where it
/// concluded in success, the red cross exactly where it concluded in failure, the
/// yellow disc exactly where it has come to neither and is in progress, and the grey
/// ring exactly for the rest. The check's name follows.
pub proof fn law_check_line_tells_the_outcome(name: Seq<char>, state: Seq<char>, conclusion: Seq<char>)
    requires
        forall|i: int| 0 <= i < name.len() ==> #[trigger] name[i] != '\t',
        forall|i: int| 0 <= i < state.len() ==> #[trigger] state[i] != '\t',
    ensures
        ({
            let line = check_line(name + seq!['\t'] + (state + seq!['\t'] + conclusion));
            let done = conclusion == "SUCCESS"@ || conclusion == "FAILURE"@;
            &&& shows_sign(line, "\x1b[32m"@, '\u{2713}') <==> conclusion == "SUCCESS"@
            &&& shows_sign(line, "\x1b[31m"@, '\u{2717}') <==> conclusion == "FAILURE"@
            &&& shows_sign(line, "\x1b[33m"@, '\u{25cf}') <==> !done && state == "IN_PROGRESS"@
            &&& shows_sign(line, "\x1b[90m"@, '\u{25cb}') <==> !done && state != "IN_PROGRESS"@
            &&& line.subrange(12, line.len() as int) == seq![' '] + name + seq!['\n']
        }),
{
    text::lemma_split_once_at(name, '\t', state + seq!['\t'] + conclusion);
    text::lemma_split_once_at(state, '\t', conclusion);
    let line = check_line(name + seq!['\t'] + (state + seq!['\t'] + conclusion));
    let sign = check_sign(state, conclusion);
    reveal_strlit("  ");
    reveal_strlit(" ");
    reveal_strlit("\n");
    reveal_strlit("SUCCESS");
    reveal_strlit("FAILURE");
    reveal_strlit("\x1b[32m");
    reveal_strlit("\x1b[31m");
    reveal_strlit("\x1b[33m");
    reveal_strlit("\x1b[90m");
    reveal_strlit("\x1b[32m\u{2713}\x1b[0m");
    reveal_strlit("\x1b[31m\u{2717}\x1b[0m");
    reveal_strlit("\x1b[33m\u{25cf}\x1b[0m");
    reveal_strlit("\x1b[90m\u{25cb}\x1b[0m");
    assert("SUCCESS"@[0] != "FAILURE"@[0]);
    assert(sign.len() == 10);
    assert(forall|i: int| 0 <= i < 10 ==> line[2 + i] == sign[i]);
    assert(line[7] == sign[5]);
    assert(line.subrange(2, 7) =~= sign.take(5));
    assert(sign.take(5) =~= if conclusion == "SUCCESS"@ {
        "\x1b[32m"@
    } else if conclusion == "FAILURE"@ {
        "\x1b[31m"@
    } else if state == "IN_PROGRESS"@ {
        "\x1b[33m"@
    } else {
        "\x1b[90m"@
    });
    assert(line.subrange(12, line.len() as int) =~= seq![' '] + name + seq!['\n']);
}

/// What a check has come to.
pub enum Outcome {
    Passed,
    Failed,
    Running,
    Other,
}

/// What a check has come to, by what is said of it.
pub open spec fn outcome_of(state: Seq<char>, conclusion: Seq<char>) -> Outcome {
    if conclusion == "SUCCESS"@ {
        Outcome::Passed
    } else if conclusion == "FAILURE"@ {
        Outcome::Failed
    } else if state == "IN_PROGRESS"@ {
        Outcome::Running
    } else {
        Outcome::Other
    }
}

/// Checks have the same sign exactly where they have come to the same: success,
/// failure, progress and the rest are told apart.
pub proof fn law_outcomes_are_told_apart(
    state: Seq<char>,
    conclusion: Seq<char>,
    other_state: Seq<char>,
    other_conclusion: Seq<char>,
)
    ensures
        check_sign(state, conclusion) == check_sign(other_state, other_conclusion) <==> outcome_of(
            state,
            conclusion,
        ) == outcome_of(other_state, other_conclusion),
{
    reveal_strlit("SUCCESS");
    reveal_strlit("FAILURE");
    reveal_strlit("\x1b[32m\u{2713}\x1b[0m");
    reveal_strlit("\x1b[31m\u{2717}\x1b[0m");
    reveal_strlit("\x1b[33m\u{25cf}\x1b[0m");
    reveal_strlit("\x1b[90m\u{25cb}\x1b[0m");
    assert("SUCCESS"@[0] != "FAILURE"@[0]);
    let a = check_sign(state, conclusion);
    let b = check_sign(other_state, other_conclusion);
    assert(a[5] == b[5] <==> outcome_of(state, conclusion) == outcome_of(other_state, other_conclusion));
}

/// The line of an open request names, in this order, its number, its title and its
/// branch, and ends with the state of its checks where that is known: passing in green,
/// running in yellow, failing in red.
pub proof fn law_request_line_tells_the_request(
    number: Seq<char>,
    title: Seq<char>,
    branch: Seq<char>,
    state: Seq<char>,
)
    requires
        forall|i: int| 0 <= i < number.len() ==> #[trigger] number[i] != '\t',
        forall|i: int| 0 <= i < title.len() ==> #[trigger] title[i] != '\t',
        forall|i: int| 0 <= i < branch.len() ==> #[trigger] branch[i] != '\t',
    ensures
        ({
            let line = pr_line(
                number + seq!['\t'] + (title + seq!['\t'] + (branch + seq!['\t'] + state)),
            );
            let n = number.len() as int;
            let t = title.len() as int;
            let b = branch.len() as int;
            let mark = line.subrange(15 + n + t + b + 1, line.len() - 1);
            &&& line[7] == '#'
            &&& text::occurs_at(line, number, 8)
            &&& text::occurs_at(line, title, 8 + n + 5)
            &&& text::occurs_at(line, seq!['('] + branch + seq![')'], 8 + n + 5 + t + 1)
            &&& state == "passing"@ <==> mark == " ["@ + "\x1b[32m"@ + "passing"@ + "\x1b[0m]"@
            &&& state == "running"@ <==> mark == " ["@ + "\x1b[33m"@ + "running"@ + "\x1b[0m]"@
            &&& state == "failing"@ <==> mark == " ["@ + "\x1b[31m"@ + "failing"@ + "\x1b[0m]"@
            &&& state != "passing"@ && state != "running"@ && state != "failing"@ <==> mark.len() == 0
        }),
{
    text::lemma_split_once_at(number, '\t', title + seq!['\t'] + (branch + seq!['\t'] + state));
    text::lemma_split_once_at(title, '\t', branch + seq!['\t'] + state);
    text::lemma_split_once_at(branch, '\t', state);
    let line = pr_line(number + seq!['\t'] + (title + seq!['\t'] + (branch + seq!['\t'] + state)));
    let n = number.len() as int;
    let t = title.len() as int;
    let b = branch.len() as int;
    let mark = checks_mark(state);
    reveal_strlit("  \x1b[36m#");
    reveal_strlit("\x1b[0m ");
    reveal_strlit(" (");
    reveal_strlit(")");
    reveal_strlit("\n");
    reveal_strlit("");
    reveal_strlit(" [");
    reveal_strlit("\x1b[32m");
    reveal_strlit("\x1b[33m");
    reveal_strlit("\x1b[31m");
    reveal_strlit("passing");
    reveal_strlit("running");
    reveal_strlit("failing");
    reveal_strlit("\x1b[0m]");
    reveal_strlit(" [\x1b[32mpassing\x1b[0m]");
    reveal_strlit(" [\x1b[33mrunning\x1b[0m]");
    reveal_strlit(" [\x1b[31mfailing\x1b[0m]");
    assert(line.subrange(8, 8 + n) =~= number);
    assert(line.subrange(8 + n + 5, 8 + n + 5 + t) =~= title);
    let p = seq!['('] + branch + seq![')'];
    assert(line.subrange(8 + n + 5 + t + 1, 8 + n + 5 + t + 1 + p.len()) =~= p);
    assert(line.subrange(15 + n + t + b + 1, line.len() - 1) =~= mark);
    let green = " ["@ + "\x1b[32m"@ + "passing"@ + "\x1b[0m]"@;
    let yellow = " ["@ + "\x1b[33m"@ + "running"@ + "\x1b[0m]"@;
    let red = " ["@ + "\x1b[31m"@ + "failing"@ + "\x1b[0m]"@;
    assert(" [\x1b[32mpassing\x1b[0m]"@ =~= green);
    assert(" [\x1b[33mrunning\x1b[0m]"@ =~= yellow);
    assert(" [\x1b[31mfailing\x1b[0m]"@ =~= red);
    assert("passing"@[0] != "running"@[0]);
    assert("passing"@[0] != "failing"@[0]);
    assert("running"@[0] != "failing"@[0]);
    assert(green[5] != yellow[5]);
    assert(green[5] != red[5]);
    assert(yellow[5] != red[5]);
}

/// So many commits, ahead or behind, in words.
pub open spec fn commits_phrase(n: nat, word: Seq<char>) -> Seq<char> {
    decimal::dec_digits(n) + (if n == 1 {
        " commit "@
    } else {
        " commits "@
    }) + word
}

/// A branch is up to date just where it is neither ahead nor behind. What it is ahead
/// comes first, in a line of its own, what it is behind in another, and each is there
/// just where it is not zero, with its own number.
pub proof fn law_status_tells_both_counts(ahead: nat, behind: nat)
    ensures
        ({
            let said = branch_status_of(ahead, behind);
            let up = "  \x1b[33m"@ + commits_phrase(ahead, "ahead"@) + "\x1b[0m\n"@;
            let down = "  \x1b[33m"@ + commits_phrase(behind, "behind"@) + "\x1b[0m\n"@;
            &&& ahead > 0 && behind == 0 ==> said == up + "\n"@
            &&& ahead == 0 && behind > 0 ==> said == down + "\n"@
            &&& ahead > 0 && behind > 0 ==> said == up + down + "\n"@
            &&& ahead == 0 && behind == 0 <==> said[5] == '2'
        }),
{
    lemma_phrase(ahead);
    lemma_phrase(behind);
    reveal_strlit("  \x1b[32mup to date with remote\x1b[0m\n");
    reveal_strlit("  \x1b[33m");
    reveal_strlit("\n");
    let said = branch_status_of(ahead, behind);
    let up = "  \x1b[33m"@ + commits_phrase(ahead, "ahead"@) + "\x1b[0m\n"@;
    let down = "  \x1b[33m"@ + commits_phrase(behind, "behind"@) + "\x1b[0m\n"@;
    let first = count_line(ahead, "  \x1b[33m"@, " ahead\x1b[0m\n"@);
    let second = count_line(behind, "  \x1b[33m"@, " behind\x1b[0m\n"@);
    if ahead > 0 {
        assert(first =~= up) by {
            lemma_count_line(ahead, "  \x1b[33m"@);
        }
    }
    if behind > 0 {
        assert(second =~= down) by {
            lemma_count_line(behind, "  \x1b[33m"@);
        }
    }
    assert(ahead > 0 && behind == 0 ==> said =~= up + "\n"@);
    assert(ahead == 0 && behind > 0 ==> said =~= down + "\n"@);
    assert(ahead > 0 && behind > 0 ==> said =~= up + down + "\n"@);
}

proof fn lemma_phrase(n: nat)
    ensures
        " commit"@ + plural_of(n) + " "@ == if n == 1 {
            " commit "@
        } else {
            " commits "@
        },
{
    reveal_strlit(" commit");
    reveal_strlit(" commit ");
    reveal_strlit(" commits ");
    reveal_strlit("");
    reveal_strlit("s");
    reveal_strlit(" ");
    assert(" commit"@ + ""@ + " "@ =~= " commit "@);
    assert(" commit"@ + "s"@ + " "@ =~= " commits "@);
}

proof fn lemma_count_line(n: nat, color: Seq<char>)
    requires
        n > 0,
    ensures
        count_line(n, color, " ahead\x1b[0m\n"@) == color + commits_phrase(n, "ahead"@) + "\x1b[0m\n"@,
        count_line(n, color, " behind\x1b[0m\n"@) == color + commits_phrase(n, "behind"@) + "\x1b[0m\n"@,
{
    lemma_phrase(n);
    reveal_strlit(" ahead\x1b[0m\n");
    reveal_strlit(" behind\x1b[0m\n");
    reveal_strlit("ahead");
    reveal_strlit("behind");
    reveal_strlit("\x1b[0m\n");
    reveal_strlit(" ");
    assert(" ahead\x1b[0m\n"@ =~= " "@ + "ahead"@ + "\x1b[0m\n"@);
    assert(" behind\x1b[0m\n"@ =~= " "@ + "behind"@ + "\x1b[0m\n"@);
    let d = decimal::dec_digits(n);
    let c = " commit"@ + plural_of(n);
    assert(color + d + " commit"@ + plural_of(n) + (" "@ + "ahead"@ + "\x1b[0m\n"@) =~= color + (d + (c
        + " "@) + "ahead"@) + "\x1b[0m\n"@);
    assert(color + d + " commit"@ + plural_of(n) + (" "@ + "behind"@ + "\x1b[0m\n"@) =~= color + (d + (c
        + " "@) + "behind"@) + "\x1b[0m\n"@);
}

/// Drift is told from the main branch, which is named: what the branch is ahead, then
/// what it is behind, each with its own number; even just where it is neither. On the
/// main branch itself, and where nothing is known, nothing is said.
pub proof fn law_drift_tells_both_counts(branch: Seq<char>, main: Seq<char>, ahead: u64, behind: u64)
    ensures
        ({
            let said = drift_of(branch, main, Some((ahead, behind)));
            let head = "\x1b[1mDrift from "@ + main + ":\x1b[0m\n"@;
            let up = "  \x1b[36m"@ + commits_phrase(ahead as nat, "ahead"@) + "\x1b[0m\n"@;
            let down = "  \x1b[33m"@ + commits_phrase(behind as nat, "behind"@) + "\x1b[0m\n"@;
            &&& said.len() == 0 <==> branch == main
            &&& branch != main ==> head.is_prefix_of(said)
            &&& branch != main && ahead > 0 && behind == 0 ==> said == head + up + "\n"@
            &&& branch != main && ahead == 0 && behind > 0 ==> said == head + down + "\n"@
            &&& branch != main && ahead > 0 && behind > 0 ==> said == head + (up + down) + "\n"@
            &&& branch != main ==> (ahead == 0 && behind == 0 <==> said[head.len() as int + 5] == '2')
        }),
        drift_of(branch, main, None).len() == 0,
{
    reveal_strlit("\x1b[1mDrift from ");
    reveal_strlit("  \x1b[32meven\x1b[0m\n");
    reveal_strlit("  \x1b[36m");
    reveal_strlit("  \x1b[33m");
    reveal_strlit("\n");
    let said = drift_of(branch, main, Some((ahead, behind)));
    let head = "\x1b[1mDrift from "@ + main + ":\x1b[0m\n"@;
    let up = "  \x1b[36m"@ + commits_phrase(ahead as nat, "ahead"@) + "\x1b[0m\n"@;
    let down = "  \x1b[33m"@ + commits_phrase(behind as nat, "behind"@) + "\x1b[0m\n"@;
    if branch != main {
        assert(head =~= said.take(head.len() as int));
        if ahead > 0 {
            lemma_count_line(ahead as nat, "  \x1b[36m"@);
        }
        if behind > 0 {
            lemma_count_line(behind as nat, "  \x1b[33m"@);
        }
        assert(ahead > 0 && behind == 0 ==> said =~= head + up + "\n"@);
        assert(ahead == 0 && behind > 0 ==> said =~= head + down + "\n"@);
        assert(ahead > 0 && behind > 0 ==> said =~= head + (up + down) + "\n"@);
    }
}

/// An age is told in the largest unit that is full: below a minute it is just now, then
/// so many full minutes, hours or days, with the singular for one.
pub proof fn law_age_in_the_largest_unit(epoch: nat, n: nat, rest: nat)
    ensures
        rest < 60 ==> age_of((epoch + rest) as int, epoch as int) == "just now"@,
        1 <= n < 60 && rest < 60 ==> age_of((epoch + n * 60 + rest) as int, epoch as int)
            == decimal::dec_digits(n) + " min"@ + (if n == 1 {
            ""@
        } else {
            "s"@
        }) + " ago"@,
        1 <= n < 24 && rest < 3_600 ==> age_of((epoch + n * 3_600 + rest) as int, epoch as int)
            == decimal::dec_digits(n) + " hour"@ + (if n == 1 {
            ""@
        } else {
            "s"@
        }) + " ago"@,
        1 <= n && rest < 86_400 ==> age_of((epoch + n * 86_400 + rest) as int, epoch as int)
            == decimal::dec_digits(n) + " day"@ + (if n == 1 {
            ""@
        } else {
            "s"@
        }) + " ago"@,
{
    assert(rest < 60 ==> (n * 60 + rest) / 60 == n) by (nonlinear_arith);
    assert(rest < 3_600 ==> (n * 3_600 + rest) / 3_600 == n) by (nonlinear_arith);
    assert(rest < 86_400 ==> (n * 86_400 + rest) / 86_400 == n) by (nonlinear_arith);
}

/// What is still to come is just now, and what was before the epoch counts from it.
pub proof fn law_age_outside_the_range(now: int, epoch: int)
    ensures
        now <= epoch ==> age_of(now, epoch) == "just now"@,
        epoch < 0 ==> age_of(now, epoch) == age_of(now, 0),
{
}

/// Only the first five commits are told of; each of them that can be read has its line,
/// in their order.
pub proof fn law_recent_commits_are_the_first_five(cs: Seq<Option<Commit>>, now: int)
    ensures
        cs.len() > 5 ==> recent_of(Some(cs), now) == recent_of(Some(cs.take(5)), now),
        looked_at(cs) <= 5,
        looked_at(cs) <= cs.len(),
        cs.len() <= 5 ==> looked_at(cs) == cs.len(),
{
    if cs.len() > 5 {
        let t = cs.take(5);
        lemma_commit_prefix(cs, t, now, 5);
    }
}

proof fn lemma_commit_prefix(a: Seq<Option<Commit>>, b: Seq<Option<Commit>>, now: int, n: nat)
    requires
        n <= a.len(),
        n <= b.len(),
        forall|i: int| 0 <= i < n ==> #[trigger] a[i] == b[i],
    ensures
        commit_lines(a, now, n) == commit_lines(b, now, n),
        readable(a, n) == readable(b, n),
    decreases n,
{
    if n > 0 {
        lemma_commit_prefix(a, b, now, (n - 1) as nat);
        assert(a[n - 1] == b[n - 1]);
    }
}

/// The line of a commit has the first seven characters of its name, then its summary,
/// then its age.
pub proof fn law_commit_line_tells_the_commit(c: Commit, now: int)
    requires
        c.id@.len() >= 7,
    ensures
        ({
            let line = commit_line(c, now);
            let k = c.summary@.len() as int;
            &&& text::occurs_at(line, c.id@.subrange(0, 7), 7)
            &&& text::occurs_at(line, c.summary@, 19)
            &&& text::occurs_at(line, age_of(now, c.time as int), 19 + k + 7)
        }),
{
    reveal_strlit("  \x1b[33m");
    reveal_strlit("\x1b[0m ");
    reveal_strlit(" \x1b[90m(");
    let line = commit_line(c, now);
    let k = c.summary@.len() as int;
    let age = age_of(now, c.time as int);
    assert(short_of(c.id@).len() == 7);
    assert(line.subrange(7, 14) =~= c.id@.subrange(0, 7));
    assert(line.subrange(19, 19 + k) =~= c.summary@);
    assert(line.subrange(19 + k + 7, 19 + k + 7 + age.len()) =~= age);
}

/// The branch is called by its name, and a place that is on none by the start of its
/// commit's name.
pub proof fn law_place_has_a_name(head: Head)
    ensures
        head matches Head::Branch(Some(name)) ==> branch_of(head) == name@,
        head matches Head::Detached(Some(id)) ==> (id@.len() >= 7 ==> branch_of(head).len() == 7
            && branch_of(head).is_prefix_of(id@)),
        (head is Branch && head->Branch_0 is None) || (head is Detached && head->Detached_0 is None)
            ==> branch_of(head) == "HEAD"@,
{
    if let Head::Detached(Some(id)) = head {
        if id@.len() >= 7 {
            assert(branch_of(head) =~= id@.take(7));
        }
    }
}

/// `master` is the main branch only where there is no `main`.
pub proof fn law_main_comes_before_master(has_main: bool, has_master: bool)
    ensures
        main_of(has_main, has_master) == "master"@ <==> has_master && !has_main,
        main_of(has_main, has_master) == "main"@ <==> has_main || !has_master,
{
    reveal_strlit("main");
    reveal_strlit("master");
    assert("main"@.len() != "master"@.len());
}

/// The header has the repository's name in bold, and behind it the branch in colour.
pub proof fn law_header_names_repository_and_branch(name: Seq<char>, branch: Seq<char>)
    ensures
        text::occurs_at(header_of(name, branch), "\x1b[1m"@ + name + "\x1b[0m"@, 0),
        text::occurs_at(
            header_of(name, branch),
            "\x1b[36m"@ + branch + "\x1b[0m"@,
            4 + name.len() as int + 8,
        ),
{
    reveal_strlit("\x1b[1m");
    reveal_strlit("\x1b[0m");
    reveal_strlit("\x1b[36m");
    reveal_strlit("\x1b[0m on \x1b[36m");
    reveal_strlit("\x1b[0m\n\n");
    let h = header_of(name, branch);
    let a = "\x1b[1m"@ + name + "\x1b[0m"@;
    let b = "\x1b[36m"@ + branch + "\x1b[0m"@;
    let at = 4 + name.len() as int + 8;
    assert(h.subrange(0, a.len() as int) =~= a);
    assert(h.subrange(at, at + b.len()) =~= b);
}

/// What the branch is ahead comes first and what it is behind second, as far as they
/// can be counted; where nothing is known, it is neither.
pub proof fn law_ahead_comes_before_behind(ahead: usize, behind: usize, r: (u32, u32), none: (u32, u32))
    requires
        call_ensures(ahead_behind, (Some((ahead, behind)),), r),
        call_ensures(ahead_behind, (None::<(usize, usize)>,), none),
    ensures
        ahead <= u32::MAX ==> r.0 == ahead,
        behind <= u32::MAX ==> r.1 == behind,
        none == (0u32, 0u32),
{
}

proof fn lemma_check_lines(a: Seq<Seq<char>>, b: Seq<Seq<char>>)
    ensures
        check_lines(a + b) == check_lines(a) + check_lines(b),
        pr_lines(a + b) == pr_lines(a) + pr_lines(b),
    decreases b.len(),
{
    let all = a + b;
    if b.len() == 0 {
        assert(all =~= a);
        assert(check_lines(a) + Seq::<char>::empty() =~= check_lines(a));
        assert(pr_lines(a) + Seq::<char>::empty() =~= pr_lines(a));
    } else {
        let less = b.drop_last();
        lemma_check_lines(a, less);
        assert(all.drop_last() =~= a + less);
        assert(all.last() == b.last());
        assert((check_lines(a) + check_lines(less)) + check_line(b.last()) =~= check_lines(a) + (check_lines(less)
            + check_line(b.last())));
        assert((pr_lines(a) + pr_lines(less)) + pr_line(b.last()) =~= pr_lines(a) + (pr_lines(less) + pr_line(
            b.last(),
        )));
    }
}

/// Every line that the tool prints is told in its place: behind what the lines before
/// it say and before what the lines after it say.
pub proof fn law_lines_are_told_in_order(before: Seq<Seq<char>>, line: Seq<char>, after: Seq<Seq<char>>)
    ensures
        check_lines(before + seq![line] + after) == check_lines(before) + check_line(line) + check_lines(after),
        pr_lines(before + seq![line] + after) == pr_lines(before) + pr_line(line) + pr_lines(after),
{
    let one = seq![line];
    lemma_check_lines(before + one, after);
    lemma_check_lines(before, one);
    let none = Seq::<Seq<char>>::empty();
    assert(one.drop_last() =~= none);
    assert(one.last() == line);
    assert(check_lines(none) == Seq::<char>::empty() && pr_lines(none) == Seq::<char>::empty());
    assert(check_lines(one) == check_lines(none) + check_line(line));
    assert(pr_lines(one) == pr_lines(none) + pr_line(line));
    assert(check_lines(one) =~= check_line(line));
    assert(pr_lines(one) =~= pr_line(line));
}

proof fn lemma_blank(said: Seq<char>)
    ensures
        text::trim_of(said).len() == 0 <==> text::all_white(said),
{
    text::law_trim_takes_white_space_alone(said);
    let kept = text::trim_of(said);
    let (a, b) = choose|a: Seq<char>, b: Seq<char>|
        text::all_white(a) && text::all_white(b) && said == #[trigger] (a + kept + b);
    if kept.len() == 0 {
        assert forall|i: int| 0 <= i < said.len() implies text::is_white(#[trigger] said[i]) by {
            if i < a.len() {
                assert(said[i] == a[i]);
            } else {
                assert(said[i] == b[i - a.len()]);
            }
        }
    } else {
        assert(said[a.len() as int] == kept[0]);
    }
}

/// Where the tool has nothing to say there is no section at all; else the section has
/// its title, what the lines say, and an empty line behind them.
pub proof fn law_sections_have_something_to_say(said: Seq<char>)
    ensures
        text::all_white(said) ==> ci_checks_of(said).len() == 0 && open_prs_of(said).len() == 0,
        !text::all_white(said) ==> {
            &&& text::starts_with_of(ci_checks_of(said), "\x1b[1mCI checks:\x1b[0m\n"@)
            &&& text::starts_with_of(open_prs_of(said), "\x1b[1mOpen PRs:\x1b[0m\n"@)
            &&& ci_checks_of(said).last() == '\n' && open_prs_of(said).last() == '\n'
            &&& text::occurs_at(ci_checks_of(said), check_lines(text::lines_of(said)), 19)
            &&& text::occurs_at(open_prs_of(said), pr_lines(text::lines_of(said)), 18)
        },
{
    lemma_blank(said);
    reveal_strlit("\n");
    reveal_strlit("\x1b[1mCI checks:\x1b[0m\n");
    reveal_strlit("\x1b[1mOpen PRs:\x1b[0m\n");
    if !text::all_white(said) {
        let h = "\x1b[1mCI checks:\x1b[0m\n"@;
        let m = check_lines(text::lines_of(said));
        let s = ci_checks_of(said);
        assert(s.subrange(0, h.len() as int) =~= h);
        assert(s.subrange(h.len() as int, h.len() as int + m.len()) =~= m);
        let g = "\x1b[1mOpen PRs:\x1b[0m\n"@;
        let n = pr_lines(text::lines_of(said));
        let t = open_prs_of(said);
        assert(t.subrange(0, g.len() as int) =~= g);
        assert(t.subrange(g.len() as int, g.len() as int + n.len()) =~= n);
    }
}

} // verus!
