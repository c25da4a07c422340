//! Removing the prompt that older releases left on disk.

use vstd::prelude::*;
use crate::decimal;
use crate::decimal::{digit_char_of, push_u64};
use crate::paths;
use crate::paths::join_path;
use crate::text;
use crate::text::{joined, owned};

verus! {

/// What came of it.
#[derive(Debug, Clone, PartialEq, Eq)]
pub enum Cleanup {
    /// There was nothing to remove.
    Absent,
    /// Something was removed.
    Removed,
    /// The directory is not the user's own: nothing was touched, and this is why.
    UnsafeParent(String),
    /// It could not be removed: this is why.
    Failed(String),
}

/// The value of what came of it.
pub enum CleanupView {
    Absent,
    Removed,
    UnsafeParent(Seq<char>),
    Failed(Seq<char>),
}

impl View for Cleanup {
    type V = CleanupView;

    open spec fn view(&self) -> CleanupView {
        match self {
            Cleanup::Absent => CleanupView::Absent,
            Cleanup::Removed => CleanupView::Removed,
            Cleanup::UnsafeParent(s) => CleanupView::UnsafeParent(s@),
            Cleanup::Failed(s) => CleanupView::Failed(s@),
        }
    }
}

/// The directory that older releases used.
pub open spec fn dir_of(runtime: Option<Seq<char>>, uid: nat) -> Seq<char> {
    let base = match runtime {
        Some(d) if d.len() > 0 => d,
        _ => "/tmp"@,
    };
    paths::join_of_paths(base, "chevron-"@ + decimal::dec_digits(uid))
}

/// The directory that older releases used, from `XDG_RUNTIME_DIR` and the number of
/// the user.
#[must_use]
pub fn dir(runtime: Option<&str>, uid: u32) -> (r: String)
    ensures
        r@ == dir_of(text::opt_str_view(runtime), uid as nat),
{
    let mut name: String = owned("chevron-");
    push_u64(&mut name, uid as u64);
    if let Some(d) = runtime {
        if !d.is_empty() {
            return join_path(d, name.as_str());
        }
    }
    join_path("/tmp", name.as_str())
}

/// The files that older releases wrote there.
pub fn legacy_entries() -> (r: Vec<&'static str>)
    ensures
        text::str_views(r@) == seq!["last-prompt"@, "last-prompt.tmp"@],
{
    let v: Vec<&'static str> = vec!["last-prompt", "last-prompt.tmp"];
    proof {
        assert(text::str_views(v@) =~= seq!["last-prompt"@, "last-prompt.tmp"@]);
    }
    v
}

/// What came of opening the directory, without following a link.
#[derive(Debug)]
pub enum ParentState {
    NotFound,
    /// There is a link in its place.
    Link,
    /// There is something else in its place.
    NotDirectory,
    /// It cannot be opened: this is why.
    CannotOpen(String),
    /// Nothing can be learnt of it: this is why.
    CannotStat(String),
    /// It is there.
    Opened { is_dir: bool, uid: u32, mode: u32 },
}

/// Four octal digits.
pub open spec fn octal4(n: nat) -> Seq<char> {
    seq![
        decimal::digit_char((n / 512) % 8),
        decimal::digit_char((n / 64) % 8),
        decimal::digit_char((n / 8) % 8),
        decimal::digit_char(n % 8),
    ]
}

/// What there is to say against a directory; `None` where it is the user's own and
/// no one else's.
pub open spec fn objection(path: Seq<char>, p: ParentState, me: u32) -> Option<CleanupView> {
    match p {
        ParentState::NotFound => Some(CleanupView::Absent),
        ParentState::Link => Some(
            CleanupView::UnsafeParent(path + " is a symlink where a directory is expected"@),
        ),
        ParentState::NotDirectory => Some(CleanupView::UnsafeParent(path + " is not a directory"@)),
        ParentState::CannotOpen(e) => Some(CleanupView::Failed("open "@ + path + ": "@ + e@)),
        ParentState::CannotStat(e) => Some(CleanupView::Failed("stat "@ + path + ": "@ + e@)),
        ParentState::Opened { is_dir, uid, mode } => if !is_dir {
            Some(CleanupView::UnsafeParent(path + " is not a directory"@))
        } else if uid != me {
            Some(
                CleanupView::UnsafeParent(
                    path + " is owned by uid "@ + decimal::dec_digits(uid as nat) + ", not by you"@,
                ),
            )
        } else if mode % 64 != 0 {
            Some(
                CleanupView::UnsafeParent(
                    path + " is accessible to other users (mode "@ + octal4((mode % 4096) as nat) + ")"@,
                ),
            )
        } else {
            None
        },
    }
}

/// The value of an optional outcome.
pub open spec fn cleanup_view(c: Option<Cleanup>) -> Option<CleanupView> {
    match c {
        Some(c) => Some(c@),
        None => None,
    }
}

fn octal(n: u32) -> (r: String)
    ensures
        r@ == octal4(n as nat),
{
    let mut s: String = String::new();
    s.push(digit_char_of(((n / 512) % 8) as u8));
    s.push(digit_char_of(((n / 64) % 8) as u8));
    s.push(digit_char_of(((n / 8) % 8) as u8));
    s.push(digit_char_of((n % 8) as u8));
    proof {
        assert(s@ =~= octal4(n as nat));
    }
    s
}

/// Whether a directory may be touched: `None` where it may, else what came of it.
#[must_use]
pub fn retire_in(path: &str, p: &ParentState, me: u32) -> (r: Option<Cleanup>)
    ensures
        cleanup_view(r) == objection(path@, *p, me),
{
    match p {
        ParentState::NotFound => Some(Cleanup::Absent),
        ParentState::Link => Some(
            Cleanup::UnsafeParent(joined(path, " is a symlink where a directory is expected")),
        ),
        ParentState::NotDirectory => Some(Cleanup::UnsafeParent(joined(path, " is not a directory"))),
        ParentState::CannotOpen(e) => {
            let mut s: String = joined("open ", path);
            s.push_str(": ");
            s.push_str(e.as_str());
            Some(Cleanup::Failed(s))
        },
        ParentState::CannotStat(e) => {
            let mut s: String = joined("stat ", path);
            s.push_str(": ");
            s.push_str(e.as_str());
            Some(Cleanup::Failed(s))
        },
        ParentState::Opened { is_dir, uid, mode } => {
            if !*is_dir {
                Some(Cleanup::UnsafeParent(joined(path, " is not a directory")))
            } else if *uid != me {
                let mut s: String = joined(path, " is owned by uid ");
                push_u64(&mut s, *uid as u64);
                s.push_str(", not by you");
                Some(Cleanup::UnsafeParent(s))
            } else if *mode % 64 != 0 {
                let mut s: String = joined(path, " is accessible to other users (mode ");
                s.push_str(octal(*mode % 4096).as_str());
                s.push_str(")");
                Some(Cleanup::UnsafeParent(s))
            } else {
                None
            }
        },
    }
}

/// What came of removing one file.
#[derive(Debug)]
pub enum Unlink {
    Removed,
    Missing,
    /// It could not be removed: this is why.
    Failed(String),
}

/// What came of removing some files, one after another: the first failure ends it.
pub open spec fn retired(path: Seq<char>, names: Seq<Seq<char>>, done: Seq<Unlink>) -> CleanupView
    decreases done.len(),
{
    if done.len() == 0 {
        CleanupView::Absent
    } else {
        let rest = retired(path, names, done.drop_last());
        match (rest, done.last()) {
            (CleanupView::Failed(e), _) => CleanupView::Failed(e),
            (_, Unlink::Failed(e)) => CleanupView::Failed(
                "remove "@ + path + "/"@ + names[done.len() - 1] + ": "@ + e@,
            ),
            (_, Unlink::Removed) => CleanupView::Removed,
            (r, Unlink::Missing) => r,
        }
    }
}

/// What came of removing the files; `done` tells it of each, in order.
#[must_use]
pub fn retire(path: &str, done: &Vec<Unlink>) -> (r: Cleanup)
    requires
        done@.len() <= 2,
    ensures
        r@ == retired(path@, seq!["last-prompt"@, "last-prompt.tmp"@], done@),
{
    let names: Vec<&'static str> = legacy_entries();
    let ghost nv = text::str_views(names@);
    let mut out: Cleanup = Cleanup::Absent;
    let mut i: usize = 0;
    while i < done.len()
        invariant
            nv == text::str_views(names@),
            nv.len() == 2,
            done@.len() <= 2,
            i <= done@.len(),
            out@ == retired(path@, nv, done@.take(i as int)),
        decreases done@.len() - i,
    {
        proof {
            let t = done@.take(i as int + 1);
            assert(t.drop_last() =~= done@.take(i as int));
            assert(t.last() == done@[i as int]);
            assert(nv[i as int] == names@[i as int]@);
        }
        if let Cleanup::Failed(_) = out {
        } else {
            match &done[i] {
                Unlink::Failed(e) => {
                    let mut s: String = joined("remove ", path);
                    s.push_str("/");
                    s.push_str(names[i]);
                    s.push_str(": ");
                    s.push_str(e.as_str());
                    out = Cleanup::Failed(s);
                },
                Unlink::Removed => {
                    out = Cleanup::Removed;
                },
                Unlink::Missing => {},
            }
        }
        i += 1;
    }
    proof {
        assert(done@.take(i as int) =~= done@);
    }
    out
}

/// Once the files are gone there is nothing left to do.
pub proof fn law_second_time_finds_nothing(path: Seq<char>, names: Seq<Seq<char>>, done: Seq<Unlink>)
    requires
        forall|i: int| 0 <= i < done.len() ==> #[trigger] done[i] is Missing,
    ensures
        retired(path, names, done) == CleanupView::Absent,
    decreases done.len(),
{
    if done.len() > 0 {
        let rest = done.drop_last();
        assert forall|i: int| 0 <= i < rest.len() implies #[trigger] rest[i] is Missing by {
            assert(done[i] is Missing);
        }
        law_second_time_finds_nothing(path, names, rest);
        assert(done[done.len() - 1] is Missing);
    }
}

/// What is said on every start of a shell: why a directory was left alone, unless
/// notices are switched off.
pub fn notice(c: &Cleanup, setting: Option<&str>) -> (r: Option<String>)
    ensures
        text::opt_view(r) == (match c@ {
            CleanupView::UnsafeParent(reason) if text::opt_str_view(setting) != Some("0"@) => Some(
                "chevron: "@ + reason + "; run `chevron doctor` for details"@,
            ),
            _ => None,
        }),
{
    if let Cleanup::UnsafeParent(reason) = c {
        let off: bool = match setting {
            Some(s) => crate::text::str_eq(s, "0"),
            None => false,
        };
        if !off {
            let mut s: String = joined("chevron: ", reason.as_str());
            s.push_str("; run `chevron doctor` for details");
            return Some(s);
        }
    }
    None
}

/// Files are removed only from a directory that is really one, that belongs to the
/// caller, and that no one else has any right to.
pub proof fn law_only_a_private_directory_is_touched(path: Seq<char>, p: ParentState, me: u32)
    ensures
        objection(path, p, me) is None <==> (p matches ParentState::Opened { is_dir, uid, mode } && is_dir && uid
            == me && mode & 0o077 == 0),
        objection(path, p, me) == Some(CleanupView::Absent) <==> p is NotFound,
        (objection(path, p, me) matches Some(CleanupView::Failed(_))) <==> p is CannotOpen || p is CannotStat,
{
    if let ParentState::Opened { is_dir, uid, mode } = p {
        assert(mode & 0o077 == mode % 64) by (bit_vector);
    }
}

/// The first failure is what is reported; without one, whether anything was removed.
pub proof fn law_failure_is_reported(path: Seq<char>, names: Seq<Seq<char>>, done: Seq<Unlink>)
    ensures
        (retired(path, names, done) is Failed) <==> exists|i: int|
            0 <= i < done.len() && #[trigger] done[i] is Failed,
        (retired(path, names, done) is Absent) <==> forall|i: int|
            0 <= i < done.len() ==> #[trigger] done[i] is Missing,
        !(retired(path, names, done) is UnsafeParent),
    decreases done.len(),
{
    if done.len() > 0 {
        let dl = done.drop_last();
        law_failure_is_reported(path, names, dl);
        let l = done.last();
        assert(done[done.len() - 1] == l);
        assert(forall|i: int| 0 <= i < dl.len() ==> #[trigger] dl[i] == done[i]);
        if retired(path, names, dl) is Failed {
            let i = choose|i: int| 0 <= i < dl.len() && #[trigger] dl[i] is Failed;
            assert(done[i] is Failed);
        }
        if exists|i: int| 0 <= i < done.len() && #[trigger] done[i] is Failed {
            let i = choose|i: int| 0 <= i < done.len() && #[trigger] done[i] is Failed;
            if i < dl.len() {
                assert(dl[i] is Failed);
            }
        }
        if retired(path, names, done) is Absent {
            assert forall|i: int| 0 <= i < done.len() implies #[trigger] done[i] is Missing by {
                if i < dl.len() {
                    assert(dl[i] is Missing);
                }
            }
        }
        if forall|i: int| 0 <= i < done.len() ==> #[trigger] done[i] is Missing {
            assert forall|i: int| 0 <= i < dl.len() implies #[trigger] dl[i] is Missing by {
                assert(done[i] is Missing);
            }
        }
    }
}

/// The mode is written in octal, in four digits.
pub proof fn law_octal_reads_back(n: nat)
    requires
        n < 4096,
    ensures
        ({
            let s = octal4(n);
            &&& s.len() == 4
            &&& decimal::digit_value(s[0]) * 512 + decimal::digit_value(s[1]) * 64 + decimal::digit_value(s[2]) * 8
                + decimal::digit_value(s[3]) == n
        }),
{
    assert(n / 512 < 8);
    assert((n / 512) % 8 == n / 512);
    assert(n == (n / 512) * 512 + ((n / 64) % 8) * 64 + ((n / 8) % 8) * 8 + n % 8);
}

/// The directory of a user stands below the runtime directory, or below `/tmp` where
/// there is none, and is named after that user alone.
pub proof fn law_directory_is_the_users_own(runtime: Option<Seq<char>>, uid: nat, other: nat)
    ensures
        runtime matches Some(d) ==> (d.len() > 0 ==> text::starts_with_of(dir_of(runtime, uid), d)),
        runtime is None || (runtime->0).len() == 0 ==> text::starts_with_of(dir_of(runtime, uid), "/tmp/"@),
        text::ends_with_of(dir_of(runtime, uid), "/chevron-"@ + decimal::dec_digits(uid)),
        uid != other ==> dir_of(runtime, uid) != dir_of(runtime, other),
{
    reveal_strlit("/tmp");
    reveal_strlit("/tmp/");
    reveal_strlit("chevron-");
    reveal_strlit("/chevron-");
    let base = match runtime {
        Some(d) if d.len() > 0 => d,
        _ => "/tmp"@,
    };
    let a = decimal::dec_digits(uid);
    let b = decimal::dec_digits(other);
    decimal::lemma_dec_digits(uid);
    decimal::lemma_dec_digits(other);
    paths::law_joined_paths(base, "chevron-"@ + a);
    paths::law_joined_paths(base, "chevron-"@ + b);
    let head = if base.last() == '/' {
        base
    } else {
        base.push('/')
    };
    let p = dir_of(runtime, uid);
    let q = dir_of(runtime, other);
    assert(p == head + ("chevron-"@ + a));
    assert(q == head + ("chevron-"@ + b));
    assert(p.subrange(0, base.len() as int) =~= base);
    if base == "/tmp"@ {
        assert(p.subrange(0, 5) =~= "/tmp/"@);
    }
    let tail = "/chevron-"@ + a;
    assert(p.subrange(p.len() - tail.len(), p.len() as int) =~= tail);
    if p == q {
        let n = head.len() as int + 8;
        assert(p.skip(n) =~= a);
        assert(q.skip(n) =~= b);
    }
}

} // verus!
