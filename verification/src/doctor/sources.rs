//! Which files a shell starts with, as far as that can be read without running
//! them.

use vstd::prelude::*;
use crate::doctor::checks;
use crate::doctor::checks::{Found, ShellTarget};
use crate::order;
use crate::order::sorted;
use crate::paths;
use crate::paths::{file_name, is_absolute, join_path};
use crate::text;
use crate::text::{
    byte_len_of, chars_of, contains_char, ends_with_str, holds, owned, position,
    split_lines, split_words, string_of_range, strip_prefix_str, trim_end_char, trim_str,
};

verus! {

/// How many paths are looked at, and how many entries of a directory.
pub const MAX_ENTRIES: usize = 128;

/// How large a file may be to be read, in bytes.
pub const MAX_FILE_BYTES: usize = 65_536;

/// How many steps a path may be away from the files that a shell starts with.
pub const MAX_DEPTH: u32 = 8;

// ── Lines ───────────────────────────────────────────────────────────────────

/// Whether a line does anything: it is neither empty nor a comment.
pub open spec fn is_active(line: Seq<char>) -> bool {
    line.len() > 0 && line[0] != '#'
}

/// Those of some lines that do anything, without the space around them.
pub open spec fn active_of(lines: Seq<Seq<char>>) -> Seq<Seq<char>>
    decreases lines.len(),
{
    if lines.len() == 0 {
        Seq::empty()
    } else {
        let line = text::trim_of(lines.last());
        if is_active(line) {
            active_of(lines.drop_last()).push(line)
        } else {
            active_of(lines.drop_last())
        }
    }
}

/// The lines of a file that do anything, without the space around them.
pub fn active_lines(contents: &str) -> (r: Vec<String>)
    ensures
        text::views(r@) == active_of(text::lines_of(contents@)),
{
    let lines: Vec<String> = split_lines(contents);
    let ghost lv = text::views(lines@);
    let mut out: Vec<String> = Vec::new();
    let mut i: usize = 0;
    proof {
        assert(text::views(out@) =~= Seq::empty());
    }
    while i < lines.len()
        invariant
            lv == text::views(lines@),
            i <= lines@.len(),
            text::views(out@) == active_of(lv.take(i as int)),
        decreases lines@.len() - i,
    {
        let line: String = trim_str(lines[i].as_str());
        let v: Vec<char> = chars_of(line.as_str());
        proof {
            let t = lv.take(i as int + 1);
            assert(t.drop_last() =~= lv.take(i as int));
            assert(t.last() == lines@[i as int]@);
        }
        if v.len() > 0 && v[0] != '#' {
            let ghost prior = out@;
            let ghost shown = line@;
            out.push(line);
            proof {
                assert(text::views(out@) =~= text::views(prior).push(shown));
            }
        }
        i += 1;
    }
    proof {
        assert(lv.take(i as int) =~= lv);
    }
    out
}

// ── The file that a line reads ──────────────────────────────────────────────

/// What follows `source` or `.` in a line.
pub open spec fn sourced_of(line: Seq<char>) -> Option<Seq<char>> {
    match text::strip_prefix_of(line, "source "@) {
        Some(rest) => Some(text::trim_of(rest)),
        None => match text::strip_prefix_of(line, ". "@) {
            Some(rest) => Some(text::trim_of(rest)),
            None => None,
        },
    }
}

/// The first word of what is sourced, or what stands in quotes.
pub open spec fn word_of(rest: Seq<char>) -> Option<Seq<char>> {
    if rest.len() > 0 && (rest[0] == '\'' || rest[0] == '"') {
        let inner = rest.skip(1);
        Some(inner.take(text::find_char(inner, rest[0]) as int))
    } else if text::words_of(rest).len() > 0 {
        Some(text::trim_end_char_of(text::words_of(rest)[0], ';'))
    } else {
        None
    }
}

/// What follows a spelling of the home directory.
pub open spec fn below_home(path: Seq<char>) -> Option<Seq<char>> {
    match text::strip_prefix_of(path, "$HOME/"@) {
        Some(s) => Some(s),
        None => match text::strip_prefix_of(path, "${HOME}/"@) {
            Some(s) => Some(s),
            None => text::strip_prefix_of(path, "~/"@),
        },
    }
}

/// A path with the home directory filled in.
pub open spec fn expanded_of(path: Seq<char>, home: Seq<char>) -> Seq<char> {
    match below_home(path) {
        Some(suffix) => paths::join_of_paths(home, suffix),
        None => path,
    }
}

/// Whether a text names no command and no variable.
pub open spec fn is_literal(text: Seq<char>) -> bool {
    !text.contains('`') && !text.contains('(') && !text.contains(')') && !text.contains('$')
}

/// What of a path has to be written out: what follows a spelling of the home directory,
/// or all of it.
pub open spec fn written_part(path: Seq<char>) -> Seq<char> {
    match below_home(path) {
        Some(suffix) => suffix,
        None => path,
    }
}

/// The file that a line reads, where that can be told: it is absolute and
/// written out.
pub open spec fn source_path_of(line: Seq<char>, home: Seq<char>) -> Option<Seq<char>> {
    match sourced_of(line) {
        None => None,
        Some(rest) => match word_of(rest) {
            None => None,
            Some(path) => {
                let expanded = expanded_of(path, home);
                if paths::is_absolute_of(expanded) && is_literal(written_part(path)) {
                    Some(expanded)
                } else {
                    None
                }
            },
        },
    }
}

fn sourced(line: &str) -> (r: Option<String>)
    ensures
        text::opt_view(r) == sourced_of(line@),
{
    match strip_prefix_str(line, "source ") {
        Some(rest) => Some(trim_str(rest.as_str())),
        None => match strip_prefix_str(line, ". ") {
            Some(rest) => Some(trim_str(rest.as_str())),
            None => None,
        },
    }
}

fn word(rest: &str) -> (r: Option<String>)
    ensures
        text::opt_view(r) == word_of(rest@),
{
    let v: Vec<char> = chars_of(rest);
    if v.len() > 0 && (v[0] == '\'' || v[0] == '"') {
        let quote: char = v[0];
        let inner_text: String = string_of_range(&v, 1, v.len());
        let inner: Vec<char> = chars_of(inner_text.as_str());
        proof {
            assert(v@.subrange(1, v@.len() as int) =~= v@.skip(1));
            text::lemma_find_char(inner@, quote);
        }
        let n: usize = position(&inner, quote);
        proof {
            assert(inner@.subrange(0, n as int) =~= inner@.take(n as int));
        }
        Some(string_of_range(&inner, 0, n))
    } else {
        let words: Vec<String> = split_words(rest);
        if words.len() > 0 {
            proof {
                assert(text::views(words@)[0] == words@[0]@);
            }
            Some(trim_end_char(words[0].as_str(), ';'))
        } else {
            None
        }
    }
}

/// What follows a spelling of the home directory.
fn suffix(path: &str) -> (r: Option<String>)
    ensures
        text::opt_view(r) == below_home(path@),
{
    match strip_prefix_str(path, "$HOME/") {
        Some(s) => Some(s),
        None => match strip_prefix_str(path, "${HOME}/") {
            Some(s) => Some(s),
            None => strip_prefix_str(path, "~/"),
        },
    }
}

fn literal(s: &str) -> (r: bool)
    ensures
        r == is_literal(s@),
{
    !contains_char(s, '`') && !contains_char(s, '(') && !contains_char(s, ')') && !contains_char(s, '$')
}

/// The file that a line reads, where that can be told.
pub fn source_path(line: &str, home: &str) -> (r: Option<String>)
    ensures
        text::opt_view(r) == source_path_of(line@, home@),
{
    let rest: String = match sourced(line) {
        Some(rest) => rest,
        None => {
            return None;
        },
    };
    let path: String = match word(rest.as_str()) {
        Some(path) => path,
        None => {
            return None;
        },
    };
    let (full, plain): (String, bool) = match suffix(path.as_str()) {
        Some(s) => (join_path(home, s.as_str()), literal(s.as_str())),
        None => {
            let plain: bool = literal(path.as_str());
            (path, plain)
        },
    };
    if is_absolute(full.as_str()) && plain {
        Some(full)
    } else {
        None
    }
}

// ── The walk ────────────────────────────────────────────────────────────────

/// Whether a file of a directory is read: its name ends as a script's does.
pub open spec fn is_script(path: Seq<char>) -> bool {
    match paths::file_name_of(path) {
        Some(name) => (text::ends_with_of(name, ".zsh"@) && name.len() > 4) || (text::ends_with_of(
            name,
            ".sh"@,
        ) && name.len() > 3),
        None => false,
    }
}

/// Whether a file of a directory is read.
pub fn script(path: &str) -> (r: bool)
    ensures
        r == is_script(path@),
{
    match file_name(path) {
        Some(name) => {
            let len: usize = chars_of(name.as_str()).len();
            (ends_with_str(name.as_str(), ".zsh") && len > 4) || (ends_with_str(name.as_str(), ".sh") && len > 3)
        },
        None => false,
    }
}

/// An entry of a directory.
#[derive(Debug)]
pub struct Entry {
    pub path: String,
    pub is_dir: bool,
}

/// How far the walk is with the path in hand.
#[derive(Debug, Clone, Copy, PartialEq, Eq, Structural)]
pub enum Hand {
    /// There is none, or it is done with.
    Empty,
    /// It was taken from the queue.
    Taken,
    /// It was entered: it is not another name of something seen before.
    Entered,
}

/// The state of a walk through the files that a shell starts with.
#[derive(Debug)]
pub struct Walk {
    pub home: String,
    /// The paths to look at, and how far each is from the start.
    pub queue: Vec<(String, u32)>,
    /// How many of them have been looked at.
    pub visited: usize,
    /// How far the path in hand is from the start.
    pub depth: u32,
    pub hand: Hand,
    /// What the paths that were entered really are.
    pub seen: Vec<String>,
    /// The files that were read.
    pub found: Vec<Found>,
}

/// The paths of a queue with their distances.
pub open spec fn queue_view(q: Seq<(String, u32)>) -> Seq<(Seq<char>, u32)> {
    Seq::new(q.len(), |i: int| (q[i].0@, q[i].1))
}

/// The values of some files.
pub open spec fn found_views(v: Seq<Found>) -> Seq<(Seq<char>, Seq<char>)> {
    Seq::new(v.len(), |i: int| (v[i].path@, v[i].contents@))
}

/// Some paths, all as far from the start.
pub open spec fn at_depth(ps: Seq<Seq<char>>, depth: int) -> Seq<(Seq<char>, u32)> {
    Seq::new(ps.len(), |i: int| (ps[i], depth as u32))
}

/// Where a walk starts.
pub open spec fn start_paths(home: Seq<char>, t: ShellTarget) -> Seq<Seq<char>> {
    let c = checks::target_candidates(t);
    let files = Seq::new(c.len(), |i: int| paths::join_of_paths(home, c[i]));
    if t == ShellTarget::Zsh {
        files + seq![paths::join_of_paths(home, ".zsh"@), paths::join_of_paths(home, ".config/zsh"@)]
    } else {
        files
    }
}

/// The first path from `at` on that is near enough to be looked at.
pub open spec fn next_near(q: Seq<(Seq<char>, u32)>, at: nat) -> nat
    decreases q.len() - at,
{
    if at < q.len() && at < MAX_ENTRIES && q[at as int].1 > MAX_DEPTH {
        next_near(q, at + 1)
    } else {
        at
    }
}

/// The paths that some lines read.
pub open spec fn sources_of(lines: Seq<Seq<char>>, home: Seq<char>) -> Seq<Seq<char>>
    decreases lines.len(),
{
    if lines.len() == 0 {
        Seq::empty()
    } else {
        match source_path_of(lines.last(), home) {
            Some(p) => sources_of(lines.drop_last(), home).push(p),
            None => sources_of(lines.drop_last(), home),
        }
    }
}

/// Those of some entries that are looked at: directories and scripts, among the
/// first of them.
pub open spec fn kept_of(entries: Seq<Entry>) -> Seq<Seq<char>>
    decreases entries.len(),
{
    if entries.len() == 0 {
        Seq::empty()
    } else if entries.last().is_dir || is_script(entries.last().path@) {
        kept_of(entries.drop_last()).push(entries.last().path@)
    } else {
        kept_of(entries.drop_last())
    }
}

/// Those of some entries that are looked at, among the first of them.
pub open spec fn children_of(entries: Seq<Entry>) -> Seq<Seq<char>> {
    kept_of(
        if entries.len() > MAX_ENTRIES {
            entries.take(MAX_ENTRIES as int)
        } else {
            entries
        },
    )
}

impl Walk {
    /// No more paths than are allowed have been looked at, and the one in hand is
    /// near enough. Nothing was entered that was not looked at, nothing twice, and
    /// nothing was read that was not entered or is too large.
    pub open spec fn wf(&self) -> bool {
        &&& self.visited <= MAX_ENTRIES
        &&& self.visited <= self.queue@.len()
        &&& self.depth <= MAX_DEPTH
        &&& self.seen@.len() <= self.visited
        &&& self.found@.len() <= self.seen@.len()
        &&& self.hand is Taken ==> self.seen@.len() < self.visited
        &&& self.hand is Entered ==> self.found@.len() < self.seen@.len()
        &&& forall|i: int, j: int|
            0 <= i < j < self.seen@.len() ==> (#[trigger] self.seen@[i])@ != (#[trigger] self.seen@[j])@
        &&& forall|i: int|
            0 <= i < self.found@.len() ==> text::byte_len((#[trigger] self.found@[i]).contents@) <= MAX_FILE_BYTES
    }

    /// A walk through the files that a shell starts with.
    pub fn start(home: &str, t: ShellTarget) -> (r: Walk)
        ensures
            r.wf(),
            r.home@ == home@,
            queue_view(r.queue@) == at_depth(start_paths(home@, t), 0),
            r.visited == 0,
            r.hand is Empty,
            r.seen@.len() == 0,
            r.found@.len() == 0,
    {
        let names: Vec<&'static str> = t.candidates();
        let ghost c = checks::target_candidates(t);
        let mut queue: Vec<(String, u32)> = Vec::new();
        let mut i: usize = 0;
        while i < names.len()
            invariant
                text::str_views(names@) == c,
                i <= names@.len(),
                queue@.len() == i,
                forall|j: int|
                    0 <= j < i ==> (#[trigger] queue@[j]).0@ == paths::join_of_paths(home@, c[j])
                        && queue@[j].1 == 0,
            decreases names@.len() - i,
        {
            proof {
                assert(text::str_views(names@)[i as int] == names@[i as int]@);
            }
            queue.push((join_path(home, names[i]), 0));
            i += 1;
        }
        proof {
            assert(names@.len() == text::str_views(names@).len());
        }
        if t == ShellTarget::Zsh {
            queue.push((join_path(home, ".zsh"), 0));
            queue.push((join_path(home, ".config/zsh"), 0));
        }
        proof {
            assert(queue_view(queue@) =~= at_depth(start_paths(home@, t), 0));
        }
        Walk { home: owned(home), queue, visited: 0, depth: 0, hand: Hand::Empty, seen: Vec::new(), found: Vec::new() }
    }

    /// The next path to look at; `None` ends the walk. A path that is too far from
    /// the start is passed over.
    pub fn next(&mut self) -> (r: Option<String>)
        requires
            old(self).wf(),
        ensures
            final(self).wf(),
            ({
                let q = queue_view(old(self).queue@);
                let at = next_near(q, old(self).visited as nat);
                if at < q.len() && at < MAX_ENTRIES {
                    &&& text::opt_view(r) == Some(q[at as int].0)
                    &&& final(self).visited == at + 1
                    &&& final(self).depth == q[at as int].1
                    &&& final(self).hand is Taken
                } else {
                    &&& r is None
                    &&& final(self).visited == at
                    &&& final(self).depth == old(self).depth
                    &&& final(self).hand is Empty
                }
            }),
            final(self).home == old(self).home,
            final(self).queue == old(self).queue,
            final(self).seen == old(self).seen,
            final(self).found == old(self).found,
    {
        let ghost q = queue_view(self.queue@);
        let ghost from = self.visited as nat;
        self.hand = Hand::Empty;
        while self.visited < self.queue.len() && self.visited < MAX_ENTRIES
            && self.queue[self.visited].1 > MAX_DEPTH
            invariant
                self.wf(),
                self.hand is Empty,
                q == queue_view(self.queue@),
                from <= self.visited,
                next_near(q, from) == next_near(q, self.visited as nat),
                self.depth == old(self).depth,
                self.home == old(self).home,
                self.queue == old(self).queue,
                self.seen == old(self).seen,
                self.found == old(self).found,
            decreases self.queue@.len() - self.visited,
        {
            proof {
                assert(q[self.visited as int].1 == self.queue@[self.visited as int].1);
            }
            self.visited = self.visited + 1;
        }
        if self.visited >= self.queue.len() || self.visited >= MAX_ENTRIES {
            return None;
        }
        proof {
            assert(q[self.visited as int].1 == self.queue@[self.visited as int].1);
        }
        let path: String = owned(self.queue[self.visited].0.as_str());
        self.depth = self.queue[self.visited].1;
        self.visited = self.visited + 1;
        self.hand = Hand::Taken;
        Some(path)
    }

    /// Whether the path in hand has not been entered before under another name.
    pub fn enter(&mut self, target: String) -> (r: bool)
        requires
            old(self).wf(),
            old(self).hand is Taken,
        ensures
            final(self).wf(),
            final(self).hand == (if r {
                Hand::Entered
            } else {
                Hand::Empty
            }),
            r == !text::views(old(self).seen@).contains(target@),
            text::views(final(self).seen@).contains(target@),
            r ==> text::views(final(self).seen@) == text::views(old(self).seen@).push(target@),
            !r ==> final(self).seen == old(self).seen,
            final(self).home == old(self).home,
            final(self).queue == old(self).queue,
            final(self).visited == old(self).visited,
            final(self).depth == old(self).depth,
            final(self).found == old(self).found,
    {
        if holds(&self.seen, target.as_str()) {
            self.hand = Hand::Empty;
            return false;
        }
        self.hand = Hand::Entered;
        let ghost prior = self.seen@;
        let ghost rv = target@;
        self.seen.push(target);
        proof {
            assert(text::views(self.seen@) =~= text::views(prior).push(rv));
            assert(text::views(self.seen@)[prior.len() as int] == rv);
            assert forall|i: int, j: int| 0 <= i < j < self.seen@.len() implies (#[trigger] self.seen@[i])@ != (
            #[trigger] self.seen@[j])@ by {
                if j == prior.len() {
                    assert(text::views(prior)[i] == prior[i]@);
                }
            }
        }
        true
    }

    /// Puts paths behind those that are to be looked at, one step further away.
    fn add_paths(&mut self, ps: &Vec<String>)
        requires
            old(self).wf(),
        ensures
            final(self).wf(),
            queue_view(final(self).queue@) == queue_view(old(self).queue@) + at_depth(
                text::views(ps@),
                old(self).depth + 1,
            ),
            final(self).home == old(self).home,
            final(self).visited == old(self).visited,
            final(self).depth == old(self).depth,
            final(self).seen == old(self).seen,
            final(self).found == old(self).found,
            final(self).hand == old(self).hand,
    {
        let ghost was = queue_view(self.queue@);
        let ghost pv = text::views(ps@);
        let mut i: usize = 0;
        proof {
            assert(was + at_depth(pv.take(0), self.depth + 1) =~= was);
        }
        while i < ps.len()
            invariant
                self.wf(),
                pv == text::views(ps@),
                i <= ps@.len(),
                queue_view(self.queue@) == was + at_depth(pv.take(i as int), self.depth + 1),
                self.home == old(self).home,
                self.visited == old(self).visited,
                self.depth == old(self).depth,
                self.seen == old(self).seen,
                self.found == old(self).found,
                self.hand == old(self).hand,
            decreases ps@.len() - i,
        {
            let ghost prior = self.queue@;
            self.queue.push((owned(ps[i].as_str()), self.depth + 1));
            proof {
                assert(queue_view(self.queue@) =~= queue_view(prior).push(
                    (pv[i as int], (self.depth + 1) as u32),
                ));
                assert(at_depth(pv.take(i as int + 1), self.depth + 1) =~= at_depth(
                    pv.take(i as int),
                    self.depth + 1,
                ).push((pv[i as int], (self.depth + 1) as u32)));
                assert(queue_view(self.queue@) =~= was + at_depth(
                    pv.take(i as int + 1),
                    self.depth + 1,
                ));
            }
            i += 1;
        }
        proof {
            assert(pv.take(i as int) =~= pv);
        }
    }

    /// The path in hand is a directory: its directories and scripts are looked at
    /// later, in the order of their names.
    pub fn add_dir(&mut self, entries: &Vec<Entry>)
        requires
            old(self).wf(),
            old(self).hand is Entered,
        ensures
            final(self).wf(),
            final(self).hand is Empty,
            exists|ps: Seq<Seq<char>>| #[trigger]
                order::sorted_of(children_of(entries@), ps) && queue_view(final(self).queue@)
                    == queue_view(old(self).queue@) + at_depth(ps, old(self).depth + 1),
            final(self).home == old(self).home,
            final(self).visited == old(self).visited,
            final(self).depth == old(self).depth,
            final(self).seen == old(self).seen,
            final(self).found == old(self).found,
    {
        let mut kept: Vec<String> = Vec::new();
        let mut i: usize = 0;
        proof {
            assert(text::views(kept@) =~= Seq::empty());
        }
        while i < entries.len() && i < MAX_ENTRIES
            invariant
                i <= entries@.len(),
                i <= MAX_ENTRIES,
                text::views(kept@) == kept_of(entries@.take(i as int)),
            decreases entries@.len() - i,
        {
            proof {
                let t = entries@.take(i as int + 1);
                assert(t.drop_last() =~= entries@.take(i as int));
                assert(t.last() == entries@[i as int]);
            }
            if entries[i].is_dir || script(entries[i].path.as_str()) {
                let ghost prior = kept@;
                kept.push(owned(entries[i].path.as_str()));
                proof {
                    assert(text::views(kept@) =~= text::views(prior).push(entries@[i as int].path@));
                }
            }
            i += 1;
        }
        proof {
            if entries@.len() <= MAX_ENTRIES {
                assert(entries@.take(i as int) =~= entries@);
            }
        }
        let ps: Vec<String> = sorted(kept);
        proof {
            assert(order::sorted_of(children_of(entries@), text::views(ps@)));
        }
        self.add_paths(&ps);
        self.hand = Hand::Empty;
    }

    /// The path in hand is a file: it is kept, and the files that it reads are
    /// looked at later. One that is too large is passed over.
    pub fn add_file(&mut self, path: String, contents: String)
        requires
            old(self).wf(),
            old(self).hand is Entered,
        ensures
            final(self).wf(),
            final(self).hand is Empty,
            if text::byte_len(contents@) <= MAX_FILE_BYTES {
                &&& found_views(final(self).found@) == found_views(old(self).found@).push(
                    (path@, contents@),
                )
                &&& queue_view(final(self).queue@) == queue_view(old(self).queue@) + at_depth(
                    sources_of(active_of(text::lines_of(contents@)), old(self).home@),
                    old(self).depth + 1,
                )
            } else {
                final(self).found == old(self).found && final(self).queue == old(self).queue
            },
            final(self).home == old(self).home,
            final(self).visited == old(self).visited,
            final(self).depth == old(self).depth,
            final(self).seen == old(self).seen,
    {
        if byte_len_of(contents.as_str()) > MAX_FILE_BYTES {
            self.hand = Hand::Empty;
            return;
        }
        let lines: Vec<String> = active_lines(contents.as_str());
        let ghost lv = text::views(lines@);
        let mut ps: Vec<String> = Vec::new();
        let mut i: usize = 0;
        proof {
            assert(text::views(ps@) =~= Seq::empty());
        }
        while i < lines.len()
            invariant
                lv == text::views(lines@),
                i <= lines@.len(),
                text::views(ps@) == sources_of(lv.take(i as int), self.home@),
            decreases lines@.len() - i,
        {
            proof {
                let t = lv.take(i as int + 1);
                assert(t.drop_last() =~= lv.take(i as int));
                assert(t.last() == lines@[i as int]@);
            }
            if let Some(p) = source_path(lines[i].as_str(), self.home.as_str()) {
                let ghost prior = ps@;
                let ghost pv = p@;
                ps.push(p);
                proof {
                    assert(text::views(ps@) =~= text::views(prior).push(pv));
                }
            }
            i += 1;
        }
        proof {
            assert(lv.take(i as int) =~= lv);
        }
        self.add_paths(&ps);
        let ghost was = self.found@;
        let ghost pair = (path@, contents@);
        self.found.push(Found { path, contents });
        self.hand = Hand::Empty;
        proof {
            assert(found_views(self.found@) =~= found_views(was).push(pair));
        }
    }
}

// ── Laws ────────────────────────────────────────────────────────────────────

/// A spelling of the home directory names no command.
proof fn lemma_written_part(path: Seq<char>, c: char)
    requires
        path.contains(c),
        c == '(' || c == ')' || c == '`',
    ensures
        written_part(path).contains(c),
{
    reveal_strlit("$HOME/");
    reveal_strlit("${HOME}/");
    reveal_strlit("~/");
    let i = path.index_of(c);
    match below_home(path) {
        Some(suffix) => {
            let n = path.len() - suffix.len();
            let spelling = if text::strip_prefix_of(path, "$HOME/"@) is Some {
                "$HOME/"@
            } else if text::strip_prefix_of(path, "${HOME}/"@) is Some {
                "${HOME}/"@
            } else {
                "~/"@
            };
            assert(text::occurs_at(path, spelling, 0));
            assert(path.subrange(0, n) == spelling);
            if i < n {
                assert(path.subrange(0, n)[i] == c);
            }
            assert(i >= n);
            assert(suffix[i - n] == c);
        },
        None => {},
    }
}

/// What a line that runs a command reads is never followed.
pub proof fn law_commands_are_not_followed(line: Seq<char>, home: Seq<char>, rest: Seq<char>, path: Seq<char>)
    requires
        sourced_of(line) == Some(rest),
        word_of(rest) == Some(path),
        path.contains('(') || path.contains(')') || path.contains('`'),
    ensures
        source_path_of(line, home) is None,
{
    if path.contains('(') {
        lemma_written_part(path, '(');
    } else if path.contains(')') {
        lemma_written_part(path, ')');
    } else {
        lemma_written_part(path, '`');
    }
}

proof fn lemma_literal_sum(a: Seq<char>, b: Seq<char>)
    requires
        is_literal(a),
        is_literal(b),
    ensures
        is_literal(a + b),
{
    assert forall|c: char| !a.contains(c) && !b.contains(c) implies !#[trigger] (a + b).contains(c) by {
        if (a + b).contains(c) {
            let i = (a + b).index_of(c);
            if i < a.len() {
                assert(a[i] == c);
            } else {
                assert(b[i - a.len()] == c);
            }
        }
    }
}

/// Only literal absolute paths are followed: below a home directory that is one, what
/// a line reads names no variable and no command, and stands at the root.
pub proof fn law_only_literal_paths_are_followed(line: Seq<char>, home: Seq<char>, p: Seq<char>)
    requires
        is_literal(home),
        source_path_of(line, home) == Some(p),
    ensures
        is_literal(p),
        paths::is_absolute_of(p),
{
    reveal_strlit("/");
    assert(is_literal("/"@));
    let path = word_of(sourced_of(line)->0)->0;
    match below_home(path) {
        Some(suffix) => {
            lemma_literal_sum(home, suffix);
            lemma_literal_sum(home, "/"@);
            lemma_literal_sum(home + "/"@, suffix);
        },
        None => {},
    }
}

/// A variable in a path, but for the home directory at its head, is not followed.
pub proof fn law_variables_are_not_followed(line: Seq<char>, home: Seq<char>, rest: Seq<char>, path: Seq<char>)
    requires
        sourced_of(line) == Some(rest),
        word_of(rest) == Some(path),
        written_part(path).contains('$'),
    ensures
        source_path_of(line, home) is None,
{
}

/// A walk looks at no more than it may, and reads no more than it looks at.
pub proof fn law_walk_is_bounded(w: Walk)
    requires
        w.wf(),
    ensures
        w.found@.len() <= w.seen@.len() <= w.visited <= MAX_ENTRIES,
{
}

proof fn lemma_one_word(w: Seq<char>)
    requires
        w.len() > 0,
        forall|i: int| 0 <= i < w.len() ==> !text::is_white(#[trigger] w[i]),
    ensures
        text::words_of(w) == seq![w],
{
    let none = Seq::<char>::empty();
    assert forall|i: int| 0 <= i < w.len() implies !text::is_gap(text::Gap::White, #[trigger] w[i]) by {
        assert(!text::is_white(w[i]));
    }
    text::lemma_runs_first(text::Gap::White, w, none);
    assert(w + none =~= w);
    assert(seq![w] + text::runs_of(text::Gap::White, none) =~= seq![w]);
}

/// A line that reads another file is followed to that file, in both of its spellings:
/// an absolute path as it is, and one behind a tilde below the home directory.
pub proof fn law_sourced_files_are_followed(home: Seq<char>, path: Seq<char>)
    requires
        home.len() > 0,
        home[0] == '/',
        path.len() > 0,
        path[0] != '/' && path.last() != ';',
        is_literal(path),
        forall|i: int| 0 <= i < path.len() ==> !text::is_white(#[trigger] path[i]),
    ensures
        source_path_of("source ~/"@ + path, home) == Some(paths::join_of_paths(home, path)),
        source_path_of(". ~/"@ + path, home) == Some(paths::join_of_paths(home, path)),
        source_path_of("source /"@ + path, home) == Some(seq!['/'] + path),
{
    reveal_strlit("source ");
    reveal_strlit(". ");
    reveal_strlit("source ~/");
    reveal_strlit(". ~/");
    reveal_strlit("source /");
    reveal_strlit("~/");
    reveal_strlit("$HOME/");
    reveal_strlit("${HOME}/");
    let tilde = "~/"@ + path;
    let root = seq!['/'] + path;
    let a = "source ~/"@ + path;
    let b = ". ~/"@ + path;
    let c = "source /"@ + path;
    assert(a.subrange(0, 7) =~= "source "@);
    assert(a.skip(7) =~= tilde);
    assert(c.subrange(0, 7) =~= "source "@);
    assert(c.skip(7) =~= root);
    assert(b[0] == '.');
    if text::starts_with_of(b, "source "@) {
        assert(b.subrange(0, 7)[0] == b[0]);
    }
    assert(b.subrange(0, 2) =~= ". "@);
    assert(b.skip(2) =~= tilde);
    lemma_solid_word(tilde, "~/"@, path);
    lemma_solid_word(root, seq!['/'], path);
    assert(tilde[0] == '~' && root[0] == '/');
    if text::starts_with_of(tilde, "$HOME/"@) {
        assert(tilde.subrange(0, 6)[0] == tilde[0]);
    }
    if text::starts_with_of(tilde, "${HOME}/"@) {
        assert(tilde.subrange(0, 8)[0] == tilde[0]);
    }
    assert(tilde.subrange(0, 2) =~= "~/"@);
    assert(tilde.skip(2) =~= path);
    if text::starts_with_of(root, "$HOME/"@) {
        assert(root.subrange(0, 6)[0] == root[0]);
    }
    if text::starts_with_of(root, "${HOME}/"@) {
        assert(root.subrange(0, 8)[0] == root[0]);
    }
    if text::starts_with_of(root, "~/"@) {
        assert(root.subrange(0, 2)[0] == root[0]);
    }
    assert(is_literal(root)) by {
        assert forall|i: int| 0 <= i < root.len() implies root[i] != '`' && root[i] != '(' && root[i] != ')' && root[i]
            != '$' by {
            if i > 0 {
                assert(root[i] == path[i - 1]);
                assert(path.contains(path[i - 1]));
            }
        }
    }
    reveal_strlit("/");
    assert(paths::join_of_paths(home, path)[0] == '/');
}

proof fn lemma_solid_word(s: Seq<char>, head: Seq<char>, path: Seq<char>)
    requires
        s == head + path,
        head == "~/"@ || head == seq!['/'],
        path.len() > 0,
        path.last() != ';',
        forall|i: int| 0 <= i < path.len() ==> !text::is_white(#[trigger] path[i]),
    ensures
        text::trim_of(s) == s,
        word_of(s) == Some(s),
{
    reveal_strlit("~/");
    assert forall|i: int| 0 <= i < s.len() implies !text::is_white(#[trigger] s[i]) by {
        if i >= head.len() {
            assert(s[i] == path[i - head.len()]);
        }
    }
    assert(s.last() == path.last());
    text::lemma_trim_solid(s);
    lemma_one_word(s);
    assert(s[0] != '\'' && s[0] != '"');
}

/// A comment is never active, and neither is an empty line.
pub proof fn law_comments_are_not_active(rest: Seq<char>, c: char)
    ensures
        !is_active(seq!['#'] + rest),
        !is_active(Seq::empty()),
        c != '#' ==> is_active(seq![c] + rest),
{
    assert((seq!['#'] + rest)[0] == '#');
    assert((seq![c] + rest)[0] == c);
}

/// A file is read as a script by the end of its name, whatever directory it is in.
pub proof fn law_scripts_go_by_their_names(dir: Seq<char>, name: Seq<char>)
    requires
        paths::is_part(name),
    ensures
        is_script(dir + seq!['/'] + name.push('.') + seq!['z', 's', 'h']),
        is_script(dir + seq!['/'] + name.push('.') + seq!['s', 'h']),
        is_script(dir + seq!['/'] + name) ==> name.len() > 3 && name.last() == 'h' && name[name.len() - 2] == 's',
{
    reveal_strlit(".zsh");
    reveal_strlit(".sh");
    reveal_strlit(".");
    reveal_strlit("..");
    let z = name + ".zsh"@;
    let s = name + ".sh"@;
    assert(z.subrange(z.len() - 4, z.len() as int) =~= ".zsh"@);
    assert(s.subrange(s.len() - 3, s.len() as int) =~= ".sh"@);
    assert(z.last() == 'h' && s.last() == 'h');
    assert(paths::is_part(z)) by {
        assert("."@.last() == '.' && ".."@.last() == '.');
    }
    assert(paths::is_part(s)) by {
        assert("."@.last() == '.' && ".."@.last() == '.');
    }
    paths::law_file_name_is_the_last_part(dir, z);
    paths::law_file_name_is_the_last_part(dir, s);
    paths::law_file_name_is_the_last_part(dir, name);
    assert(dir + seq!['/'] + name.push('.') + seq!['z', 's', 'h'] =~= dir + seq!['/'] + z);
    assert(dir + seq!['/'] + name.push('.') + seq!['s', 'h'] =~= dir + seq!['/'] + s);
    if is_script(dir + seq!['/'] + name) {
        if text::ends_with_of(name, ".zsh"@) {
            let tail = name.subrange(name.len() - 4, name.len() as int);
            assert(tail[3] == name.last() && tail[2] == name[name.len() - 2]);
        } else {
            let tail = name.subrange(name.len() - 3, name.len() as int);
            assert(tail[2] == name.last() && tail[1] == name[name.len() - 2]);
        }
    }
}

} // verus!
