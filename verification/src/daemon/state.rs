//! The daemon's memory: what it knows of repositories, and what it watches.

use vstd::prelude::*;
use crate::daemon::proto::{CmdEndEvent, CmdStartEvent};
use crate::history::query::{SqlValue, SqlView};
use crate::paths;
use crate::paths::{components, is_absolute, path_from, plain};
use crate::segments::{RepoStatus, RepoStatusView};
use crate::span::Span;
use crate::table;
use crate::table::Table;
use crate::text;
use crate::text::owned;

verus! {

/// How long a status is good for, in milliseconds.
pub const TTL_MS: u64 = 100;

/// How many repositories are watched at a time.
pub const MAX_WATCHES: usize = 64;

/// What is known of a repository, and since when.
#[derive(Debug)]
pub struct CacheEntry {
    pub status: RepoStatus,
    pub computed_at: Span,
}

/// Whether something known since `computed_at` is still good at `now`.
pub open spec fn is_fresh_of(computed_at: Span, now: Span, ttl: Span) -> bool {
    let age = now.total() - computed_at.total();
    (if age < 0 {
        0
    } else {
        age
    }) < ttl.total()
}

/// A span in nanoseconds.
fn nanos_of(s: Span) -> (r: u128)
    ensures
        r == s.total(),
{
    s.secs as u128 * 1_000_000_000 + s.nanos as u128
}

/// Whether something known since `computed_at` is still good at `now`.
pub fn is_fresh(computed_at: Span, now: Span, ttl: Span) -> (r: bool)
    ensures
        r == is_fresh_of(computed_at, now, ttl),
{
    let a: u128 = nanos_of(computed_at);
    let b: u128 = nanos_of(now);
    let age: u128 = if b < a {
        0
    } else {
        b - a
    };
    age < nanos_of(ttl)
}

/// What the daemon knows. The keys are paths in their plain form.
#[derive(Debug)]
pub struct State {
    /// By working directory, what is known of it.
    pub cache: Table<CacheEntry>,
    /// By directory of git's own files, the working directory they belong to.
    pub watches: Table<String>,
    /// By working directory, when it was last asked for.
    pub last_query: Table<Span>,
}

/// What to tell the watcher.
#[derive(Debug)]
pub struct WatchChange {
    /// The directory that is no longer watched.
    pub unwatch: Option<String>,
    /// The directory that is watched from now on.
    pub watch: Option<String>,
}

/// What is known of a working directory and still good.
pub open spec fn known(
    cache: Map<Seq<char>, CacheEntry>,
    workdir: Seq<char>,
    now: Span,
    ttl: Span,
) -> Option<RepoStatusView> {
    if cache.dom().contains(workdir) && is_fresh_of(cache[workdir].computed_at, now, ttl) {
        Some(cache[workdir].status@)
    } else {
        None
    }
}

/// The value of an optional status.
pub open spec fn status_view(s: Option<RepoStatus>) -> Option<RepoStatusView> {
    match s {
        Some(s) => Some(s@),
        None => None,
    }
}

// ── Which repository a path belongs to ──────────────────────────────────────

/// The working directory of the nearest watched directory at or above a path.
pub open spec fn resolve_parts(
    watches: Map<Seq<char>, String>,
    absolute: bool,
    parts: Seq<Seq<char>>,
) -> Option<Seq<char>>
    decreases parts.len(),
{
    let key = paths::path_of(absolute, parts);
    if watches.dom().contains(key) {
        Some(watches[key]@)
    } else if parts.len() == 0 {
        None
    } else {
        resolve_parts(watches, absolute, parts.drop_last())
    }
}

/// The working directory of the nearest watched directory at or above a path.
pub open spec fn resolve_of(watches: Map<Seq<char>, String>, path: Seq<char>) -> Option<Seq<char>> {
    resolve_parts(watches, paths::is_absolute_of(path), paths::components_of(path))
}

/// The working directory of the nearest watched directory at or above `path`.
pub fn resolve_workdir(watches: &Table<String>, path: &str) -> (r: Option<String>)
    ensures
        text::opt_view(r) == resolve_of(watches@, path@),
{
    let absolute: bool = is_absolute(path);
    let parts: Vec<String> = components(path);
    let ghost pv = text::views(parts@);
    let mut n: usize = parts.len();
    proof {
        assert(pv.take(n as int) =~= pv);
    }
    loop
        invariant
            pv == text::views(parts@),
            n <= parts@.len(),
            absolute == paths::is_absolute_of(path@),
            resolve_of(watches@, path@) == resolve_parts(watches@, absolute, pv.take(n as int)),
        decreases n,
    {
        let key: String = path_from(absolute, &parts, n);
        if let Some(w) = watches.get(key.as_str()) {
            return Some(owned(w.as_str()));
        }
        if n == 0 {
            return None;
        }
        proof {
            assert(pv.take(n as int).drop_last() =~= pv.take(n - 1));
        }
        n -= 1;
    }
}

/// What stays known after changes at some paths.
pub open spec fn invalidated(
    cache: Map<Seq<char>, CacheEntry>,
    watches: Map<Seq<char>, String>,
    changed: Seq<Seq<char>>,
) -> Map<Seq<char>, CacheEntry>
    decreases changed.len(),
{
    if changed.len() == 0 {
        cache
    } else {
        let rest = invalidated(cache, watches, changed.drop_last());
        match resolve_of(watches, changed.last()) {
            Some(workdir) => rest.remove(workdir),
            None => rest,
        }
    }
}

// ── What leaves when there is no more room ──────────────────────────────────

/// When a working directory was last asked for, in nanoseconds; before all times
/// where it never was.
pub open spec fn asked_at(last_query: Map<Seq<char>, Span>, workdir: Seq<char>) -> int {
    if last_query.dom().contains(workdir) {
        last_query[workdir].total() as int
    } else {
        -1
    }
}

/// Whether a watched directory belongs to a working directory that was asked for
/// before those of all others, or with the first of them.
pub open spec fn is_oldest(
    last_query: Map<Seq<char>, Span>,
    watches: Map<Seq<char>, String>,
    git_dir: Seq<char>,
) -> bool {
    &&& watches.dom().contains(git_dir)
    &&& forall|other: Seq<char>| #[trigger]
        watches.dom().contains(other) ==> asked_at(last_query, watches[git_dir]@) <= asked_at(
            last_query,
            watches[other]@,
        )
}

impl State {
    /// No key occurs twice, and no more directories are watched than there is room
    /// for.
    pub open spec fn wf(&self) -> bool {
        &&& self.cache.wf()
        &&& self.watches.wf()
        &&& self.last_query.wf()
        &&& self.watches.entries@.len() <= MAX_WATCHES
    }

    /// A daemon that knows nothing.
    pub fn new() -> (r: State)
        ensures
            r.wf(),
            r.cache@ == Map::<Seq<char>, CacheEntry>::empty(),
            r.watches@ == Map::<Seq<char>, String>::empty(),
            r.last_query@ == Map::<Seq<char>, Span>::empty(),
    {
        State { cache: Table::new(), watches: Table::new(), last_query: Table::new() }
    }

    /// What is known of a working directory and still good. That it was asked for
    /// is remembered.
    pub fn get(&mut self, workdir: &str, now: Span, ttl: Span) -> (r: Option<RepoStatus>)
        requires
            old(self).wf(),
        ensures
            final(self).wf(),
            status_view(r) == known(old(self).cache@, paths::plain_of(workdir@), now, ttl),
            final(self).last_query@ == old(self).last_query@.insert(paths::plain_of(workdir@), now),
            final(self).cache == old(self).cache,
            final(self).watches == old(self).watches,
    {
        let key: String = plain(workdir);
        self.last_query.insert(owned(key.as_str()), now);
        match self.cache.get(key.as_str()) {
            Some(e) => {
                if is_fresh(e.computed_at, now, ttl) {
                    Some(e.status.copied())
                } else {
                    None
                }
            },
            None => None,
        }
    }

    /// When a working directory was last asked for: none where it never was.
    fn asked(&self, workdir: &str) -> (r: Option<u128>)
        ensures
            asked_at(self.last_query@, workdir@) == (match r {
                Some(t) => t as int,
                None => -1,
            }),
    {
        match self.last_query.get(workdir) {
            Some(t) => Some(nanos_of(*t)),
            None => None,
        }
    }

    /// The entry of the watched directory whose working directory was not asked for
    /// the longest.
    fn oldest(&self) -> (r: usize)
        requires
            self.wf(),
            self.watches.entries@.len() > 0,
        ensures
            r < self.watches.entries@.len(),
            is_oldest(self.last_query@, self.watches@, self.watches.entries@[r as int].0@),
    {
        let mut best: usize = 0;
        let mut i: usize = 1;
        let ghost e = self.watches.entries@;
        let ghost q = self.last_query@;
        while i < self.watches.entries.len()
            invariant
                e == self.watches.entries@,
                q == self.last_query@,
                best < i <= e.len(),
                forall|j: int|
                    0 <= j < i ==> asked_at(q, e[best as int].1@) <= asked_at(q, (#[trigger] e[j]).1@),
            decreases e.len() - i,
        {
            let older: bool = match (
                self.asked(self.watches.entries[i].1.as_str()),
                self.asked(self.watches.entries[best].1.as_str()),
            ) {
                (Some(a), Some(b)) => a < b,
                (None, Some(_)) => true,
                _ => false,
            };
            if older {
                best = i;
            }
            i += 1;
        }
        proof {
            table::lemma_entry(e, best as int);
            let g = e[best as int].0@;
            assert forall|other: Seq<char>| #[trigger] self.watches@.dom().contains(other) implies asked_at(
                q,
                self.watches@[g]@,
            ) <= asked_at(q, self.watches@[other]@) by {
                table::lemma_key_at(e, other);
                let p = table::key_at(e, other) as int;
                assert(e[p].1 == self.watches@[other]);
            }
        }
        best
    }

    /// Stops watching for a working directory that was not asked for the longest, and
    /// forgets it. What is no longer watched is returned.
    fn evict_lru(&mut self) -> (r: String)
        requires
            old(self).wf(),
            old(self).watches.entries@.len() > 0,
        ensures
            final(self).wf(),
            is_oldest(old(self).last_query@, old(self).watches@, r@),
            final(self).last_query@ == old(self).last_query@.remove(old(self).watches@[r@]@),
            final(self).cache@ == old(self).cache@.remove(old(self).watches@[r@]@),
            final(self).watches@ == old(self).watches@.remove(r@),
            final(self).watches.entries@.len() == old(self).watches.entries@.len() - 1,
    {
        let i: usize = self.oldest();
        let g: String = owned(self.watches.entries[i].0.as_str());
        let stale: String = owned(self.watches.entries[i].1.as_str());
        proof {
            table::lemma_entry(self.watches.entries@, i as int);
        }
        self.watches.remove(g.as_str());
        self.cache.remove(stale.as_str());
        self.last_query.remove(stale.as_str());
        g
    }

    /// Takes note of a status. A repository that is not watched yet is watched from
    /// now on; where there is no more room, another one is forgotten.
    pub fn insert(&mut self, workdir: &str, git_dir: &str, status: RepoStatus, computed_at: Span, now: Span) -> (r:
        WatchChange)
        requires
            old(self).wf(),
        ensures
            final(self).wf(),
            inserted(
                *old(self),
                *final(self),
                paths::plain_of(workdir@),
                paths::plain_of(git_dir@),
                CacheEntry { status, computed_at },
                now,
                r,
            ),
    {
        let w: String = plain(workdir);
        let g: String = plain(git_dir);
        self.last_query.insert(owned(w.as_str()), now);
        self.cache.insert(owned(w.as_str()), CacheEntry { status, computed_at });
        if self.watches.contains(g.as_str()) {
            return WatchChange { unwatch: None, watch: None };
        }
        let mut unwatch: Option<String> = None;
        if self.watches.len() >= MAX_WATCHES {
            unwatch = Some(self.evict_lru());
        }
        let ghost mid = *self;
        let ghost wv = w@;
        self.watches.insert(owned(g.as_str()), w);
        proof {
            assert(watches_after(mid.watches@, g@, wv, self.watches@));
        }
        WatchChange { unwatch, watch: Some(g) }
    }

    /// Forgets what changes at some paths have made out of date.
    pub fn invalidate_for_event_paths(&mut self, changed: &Vec<String>)
        requires
            old(self).wf(),
        ensures
            final(self).wf(),
            final(self).cache@ == invalidated(old(self).cache@, old(self).watches@, text::views(changed@)),
            final(self).watches == old(self).watches,
            final(self).last_query == old(self).last_query,
    {
        let ghost cv = text::views(changed@);
        let mut i: usize = 0;
        while i < changed.len()
            invariant
                self.wf(),
                cv == text::views(changed@),
                i <= changed@.len(),
                self.cache@ == invalidated(old(self).cache@, old(self).watches@, cv.take(i as int)),
                self.watches == old(self).watches,
                self.last_query == old(self).last_query,
            decreases changed@.len() - i,
        {
            proof {
                let t = cv.take(i as int + 1);
                assert(t.drop_last() =~= cv.take(i as int));
                assert(t.last() == changed@[i as int]@);
            }
            if let Some(workdir) = resolve_workdir(&self.watches, changed[i].as_str()) {
                self.cache.remove(workdir.as_str());
            }
            i += 1;
        }
        proof {
            assert(cv.take(i as int) =~= cv);
        }
    }
}

/// What is known, and when it was asked for, once a status has been noted.
pub open spec fn noted_of(was: State, w: Seq<char>, entry: CacheEntry, now: Span) -> (
    Map<Seq<char>, CacheEntry>,
    Map<Seq<char>, Span>,
) {
    (was.cache@.insert(w, entry), was.last_query@.insert(w, now))
}

/// Whether a status has been noted between two states: `w` is its working
/// directory, `g` the directory to watch for it.
pub open spec fn inserted(
    was: State,
    is: State,
    w: Seq<char>,
    g: Seq<char>,
    entry: CacheEntry,
    now: Span,
    r: WatchChange,
) -> bool {
    let noted = noted_of(was, w, entry, now);
    let count = was.watches.entries@.len();
    if was.watches@.dom().contains(g) {
        &&& r.unwatch is None
        &&& r.watch is None
        &&& is.cache@ == noted.0
        &&& is.last_query@ == noted.1
        &&& is.watches == was.watches
    } else if count < MAX_WATCHES {
        &&& r.unwatch is None
        &&& text::opt_view(r.watch) == Some(g)
        &&& is.cache@ == noted.0
        &&& is.last_query@ == noted.1
        &&& watches_after(was.watches@, g, w, is.watches@)
        &&& is.watches.entries@.len() == count + 1
    } else {
        &&& text::opt_view(r.watch) == Some(g)
        &&& text::opt_view(r.unwatch) matches Some(u) && {
            let stale = was.watches@[u]@;
            &&& is_oldest(noted.1, was.watches@, u)
            &&& is.cache@ == noted.0.remove(stale)
            &&& is.last_query@ == noted.1.remove(stale)
            &&& watches_after(was.watches@.remove(u), g, w, is.watches@)
        }
        &&& is.watches.entries@.len() == count
    }
}

/// Whether one more directory is watched.
pub open spec fn watches_after(
    was: Map<Seq<char>, String>,
    git_dir: Seq<char>,
    workdir: Seq<char>,
    now: Map<Seq<char>, String>,
) -> bool {
    &&& now.dom() == was.dom().insert(git_dir)
    &&& now[git_dir]@ == workdir
    &&& forall|g: Seq<char>| g != git_dir && #[trigger] was.dom().contains(g) ==> now[g] == was[g]
}

// ── Messages ────────────────────────────────────────────────────────────────

/// What the daemon's memory is told or asked.
#[derive(Debug, Clone)]
pub enum StateMsg {
    /// What is known of a working directory?
    Get { workdir: String },
    /// A status was computed.
    Insert { workdir: String, git_dir: String, status: RepoStatus, computed_at: Span },
    /// Something changed at these paths.
    FsEvent(Vec<String>),
    /// A command has started.
    CmdStart(CmdStartEvent),
    /// A command has ended.
    CmdEnd(CmdEndEvent),
    /// Nothing more will come.
    Shutdown,
}

/// What follows from a message.
#[derive(Debug)]
pub enum Effect {
    /// The answer.
    Reply(Option<RepoStatus>),
    /// What to tell the watcher.
    Watch(WatchChange),
    /// What to write to the database.
    Store { sql: &'static str, params: Vec<SqlValue> },
    Nothing,
    Stop,
}

/// Records that a command has started; one that is recorded stays as it is.
pub const INSERT_START: &'static str =
    "INSERT OR IGNORE INTO commands (id, session_id, hostname, cwd, cmd, started_at) VALUES (?1, ?2, ?3, ?4, ?5, ?6)";

/// Records that a command has ended; one that is not known stays unknown.
pub const UPDATE_END: &'static str =
    "UPDATE commands SET finished_at = ?2, duration_ms = ?3, exit_status = ?4 WHERE id = ?1";

/// The tables of the database.
pub const SCHEMA: &'static str =
    "CREATE TABLE IF NOT EXISTS meta (
    key   TEXT PRIMARY KEY,
    value TEXT NOT NULL
);
INSERT OR IGNORE INTO meta(key, value) VALUES('schema_version', '1');

CREATE TABLE IF NOT EXISTS commands (
    id           TEXT PRIMARY KEY,
    session_id   TEXT NOT NULL,
    hostname     TEXT NOT NULL,
    cwd          TEXT NOT NULL,
    cmd          TEXT NOT NULL,
    started_at   INTEGER NOT NULL,
    finished_at  INTEGER,
    duration_ms  INTEGER,
    exit_status  INTEGER
);

CREATE INDEX IF NOT EXISTS idx_commands_cwd          ON commands(cwd);
CREATE INDEX IF NOT EXISTS idx_commands_started_at   ON commands(started_at);
CREATE INDEX IF NOT EXISTS idx_commands_exit_status  ON commands(exit_status);";

/// The values of some parameters.
pub open spec fn sql_views(v: Seq<SqlValue>) -> Seq<SqlView> {
    Seq::new(v.len(), |i: int| v[i]@)
}

/// The parameters of [`INSERT_START`].
pub open spec fn start_params_of(e: CmdStartEvent) -> Seq<SqlView> {
    seq![
        SqlView::Text(e.id@),
        SqlView::Text(e.session_id@),
        SqlView::Text(e.hostname@),
        SqlView::Text(e.cwd@),
        SqlView::Text(e.cmd@),
        SqlView::Integer(e.started_at_ms),
    ]
}

/// The parameters of [`INSERT_START`].
pub fn start_params(e: &CmdStartEvent) -> (r: Vec<SqlValue>)
    ensures
        sql_views(r@) == start_params_of(*e),
{
    let v: Vec<SqlValue> = vec![
        SqlValue::Text(owned(e.id.as_str())),
        SqlValue::Text(owned(e.session_id.as_str())),
        SqlValue::Text(owned(e.hostname.as_str())),
        SqlValue::Text(owned(e.cwd.as_str())),
        SqlValue::Text(owned(e.cmd.as_str())),
        SqlValue::Integer(e.started_at_ms),
    ];
    proof {
        assert(sql_views(v@) =~= start_params_of(*e));
    }
    v
}

/// The parameters of [`UPDATE_END`]; there are none where the time that the
/// command took is more than a database can hold.
pub open spec fn end_params_of(e: CmdEndEvent) -> Option<Seq<SqlView>> {
    if e.duration_ms <= i64::MAX {
        Some(
            seq![
                SqlView::Text(e.id@),
                SqlView::Integer(e.finished_at_ms),
                SqlView::Integer(e.duration_ms as i64),
                SqlView::Integer(e.exit_status as i64),
            ],
        )
    } else {
        None
    }
}

/// The parameters of [`UPDATE_END`].
pub fn end_params(e: &CmdEndEvent) -> (r: Option<Vec<SqlValue>>)
    ensures
        match r {
            Some(v) => end_params_of(*e) == Some(sql_views(v@)),
            None => end_params_of(*e) is None,
        },
{
    if e.duration_ms > 9_223_372_036_854_775_807 {
        return None;
    }
    let v: Vec<SqlValue> = vec![
        SqlValue::Text(owned(e.id.as_str())),
        SqlValue::Integer(e.finished_at_ms),
        SqlValue::Integer(e.duration_ms as i64),
        SqlValue::Integer(e.exit_status as i64),
    ];
    proof {
        assert(sql_views(v@) =~= seq![
            SqlView::Text(e.id@),
            SqlView::Integer(e.finished_at_ms),
            SqlView::Integer(e.duration_ms as i64),
            SqlView::Integer(e.exit_status as i64),
        ]);
    }
    Some(v)
}

/// Whether the two states know and watch the same.
pub open spec fn same_state(a: State, b: State) -> bool {
    a.cache == b.cache && a.watches == b.watches && a.last_query == b.last_query
}

impl State {
    /// Does what a message says.
    pub fn handle(&mut self, msg: StateMsg, now: Span, ttl: Span) -> (r: Effect)
        requires
            old(self).wf(),
        ensures
            final(self).wf(),
            match msg {
                StateMsg::Get { workdir } => {
                    &&& r matches Effect::Reply(s) && status_view(s) == known(
                        old(self).cache@,
                        paths::plain_of(workdir@),
                        now,
                        ttl,
                    )
                    &&& final(self).cache == old(self).cache
                    &&& final(self).watches == old(self).watches
                    &&& final(self).last_query@ == old(self).last_query@.insert(
                        paths::plain_of(workdir@),
                        now,
                    )
                },
                StateMsg::Insert { workdir, git_dir, status, computed_at } => {
                    r matches Effect::Watch(change) && inserted(
                        *old(self),
                        *final(self),
                        paths::plain_of(workdir@),
                        paths::plain_of(git_dir@),
                        CacheEntry { status, computed_at },
                        now,
                        change,
                    )
                },
                StateMsg::FsEvent(changed) => {
                    &&& r is Nothing
                    &&& final(self).cache@ == invalidated(
                        old(self).cache@,
                        old(self).watches@,
                        text::views(changed@),
                    )
                    &&& final(self).watches == old(self).watches
                    &&& final(self).last_query == old(self).last_query
                },
                StateMsg::CmdStart(e) => {
                    &&& r matches Effect::Store { sql, params } && sql@ == INSERT_START@ && sql_views(params@)
                        == start_params_of(e)
                    &&& same_state(*final(self), *old(self))
                },
                StateMsg::CmdEnd(e) => {
                    &&& match end_params_of(e) {
                        Some(p) => r matches Effect::Store { sql, params } && sql@ == UPDATE_END@
                            && sql_views(params@) == p,
                        None => r is Nothing,
                    }
                    &&& same_state(*final(self), *old(self))
                },
                StateMsg::Shutdown => r is Stop && same_state(*final(self), *old(self)),
            },
    {
        match msg {
            StateMsg::Get { workdir } => Effect::Reply(self.get(workdir.as_str(), now, ttl)),
            StateMsg::Insert { workdir, git_dir, status, computed_at } => Effect::Watch(
                self.insert(workdir.as_str(), git_dir.as_str(), status, computed_at, now),
            ),
            StateMsg::FsEvent(changed) => {
                self.invalidate_for_event_paths(&changed);
                Effect::Nothing
            },
            StateMsg::CmdStart(e) => Effect::Store { sql: INSERT_START, params: start_params(&e) },
            StateMsg::CmdEnd(e) => match end_params(&e) {
                Some(params) => Effect::Store { sql: UPDATE_END, params },
                None => Effect::Nothing,
            },
            StateMsg::Shutdown => Effect::Stop,
        }
    }
}

// ── What holds of the memory as a whole ─────────────────────────────────────

/// A status that was noted is found again as long as it is good, unless its working
/// directory was the one to make room.
pub proof fn law_noted_status_is_found(
    was: State,
    is: State,
    w: Seq<char>,
    g: Seq<char>,
    entry: CacheEntry,
    now: Span,
    r: WatchChange,
    later: Span,
    ttl: Span,
)
    requires
        inserted(was, is, w, g, entry, now, r),
        is_fresh_of(entry.computed_at, later, ttl),
        was.watches@.dom().contains(g) || was.watches.entries@.len() < MAX_WATCHES || (text::opt_view(r.unwatch)
            matches Some(u) && was.watches@[u]@ != w),
    ensures
        known(is.cache@, w, later, ttl) == Some(entry.status@),
{
}

/// A change at or below a watched directory makes what is known of its working
/// directory out of date, whatever else changed.
pub proof fn law_change_forgets(
    cache: Map<Seq<char>, CacheEntry>,
    watches: Map<Seq<char>, String>,
    changed: Seq<Seq<char>>,
    i: int,
    w: Seq<char>,
    now: Span,
    ttl: Span,
)
    requires
        0 <= i < changed.len(),
        resolve_of(watches, changed[i]) == Some(w),
    ensures
        known(invalidated(cache, watches, changed), w, now, ttl) is None,
    decreases changed.len(),
{
    let rest = changed.drop_last();
    if i < changed.len() - 1 {
        assert(rest[i] == changed[i]);
        law_change_forgets(cache, watches, rest, i, w, now, ttl);
    }
}

/// Changes that belong to other working directories, or to none, leave what is
/// known of a working directory alone.
pub proof fn law_other_changes_are_ignored(
    cache: Map<Seq<char>, CacheEntry>,
    watches: Map<Seq<char>, String>,
    changed: Seq<Seq<char>>,
    w: Seq<char>,
    now: Span,
    ttl: Span,
)
    requires
        forall|i: int| 0 <= i < changed.len() ==> resolve_of(watches, #[trigger] changed[i]) != Some(w),
    ensures
        known(invalidated(cache, watches, changed), w, now, ttl) == known(cache, w, now, ttl),
    decreases changed.len(),
{
    if changed.len() > 0 {
        let rest = changed.drop_last();
        assert forall|i: int| 0 <= i < rest.len() implies resolve_of(watches, #[trigger] rest[i]) != Some(
            w,
        ) by {
            assert(rest[i] == changed[i]);
        }
        law_other_changes_are_ignored(cache, watches, rest, w, now, ttl);
        assert(resolve_of(watches, changed[changed.len() - 1]) != Some(w));
    }
}

/// A path at or below a watched directory belongs to that directory's working
/// directory, where no directory between is watched itself.
pub proof fn law_paths_below_resolve(
    watches: Map<Seq<char>, String>,
    absolute: bool,
    dir: Seq<Seq<char>>,
    below: Seq<Seq<char>>,
)
    requires
        watches.dom().contains(paths::path_of(absolute, dir)),
        forall|n: int|
            0 < n <= below.len() ==> !watches.dom().contains(
                #[trigger] paths::path_of(absolute, dir + below.take(n)),
            ),
    ensures
        resolve_parts(watches, absolute, dir + below) == Some(watches[paths::path_of(absolute, dir)]@),
    decreases below.len(),
{
    if below.len() == 0 {
        assert(dir + below =~= dir);
    } else {
        assert(below.take(below.len() as int) =~= below);
        assert(!watches.dom().contains(paths::path_of(absolute, dir + below.take(below.len() as int))));
        let rest = below.drop_last();
        assert((dir + below).drop_last() =~= dir + rest);
        assert forall|n: int| 0 < n <= rest.len() implies !watches.dom().contains(
            #[trigger] paths::path_of(absolute, dir + rest.take(n)),
        ) by {
            assert(rest.take(n) =~= below.take(n));
            assert(!watches.dom().contains(paths::path_of(absolute, dir + below.take(n))));
        }
        law_paths_below_resolve(watches, absolute, dir, rest);
    }
}

/// No more repositories are watched than there is room for, and the one whose status
/// was noted is among them.
pub proof fn law_watches_stay_bounded(
    was: State,
    is: State,
    w: Seq<char>,
    g: Seq<char>,
    entry: CacheEntry,
    now: Span,
    r: WatchChange,
)
    requires
        inserted(was, is, w, g, entry, now, r),
        was.watches.entries@.len() <= MAX_WATCHES,
    ensures
        is.watches.entries@.len() <= MAX_WATCHES,
        is.watches@.dom().contains(g),
        was.watches@.dom().contains(g) ==> is.watches == was.watches,
{
}

/// What an event has for a column of the log.
pub open spec fn started_field(e: CmdStartEvent, column: Seq<char>) -> SqlView {
    if column == "id"@ {
        SqlView::Text(e.id@)
    } else if column == "session_id"@ {
        SqlView::Text(e.session_id@)
    } else if column == "hostname"@ {
        SqlView::Text(e.hostname@)
    } else if column == "cwd"@ {
        SqlView::Text(e.cwd@)
    } else if column == "cmd"@ {
        SqlView::Text(e.cmd@)
    } else {
        SqlView::Integer(e.started_at_ms)
    }
}

/// Each column of a new row gets what the event has for it: the statement names the
/// columns in the order in which their values are bound.
pub proof fn law_start_is_recorded_column_by_column(e: CmdStartEvent, i: int)
    requires
        0 <= i < 6,
    ensures
        ({
            let columns = seq!["id"@, "session_id"@, "hostname"@, "cwd"@, "cmd"@, "started_at"@];
            &&& INSERT_START@ == "INSERT OR IGNORE INTO commands ("@ + columns[0] + ", "@ + columns[1] + ", "@
                + columns[2] + ", "@ + columns[3] + ", "@ + columns[4] + ", "@ + columns[5]
                + ") VALUES (?1, ?2, ?3, ?4, ?5, ?6)"@
            &&& start_params_of(e).len() == 6
            &&& start_params_of(e)[i] == started_field(e, columns[i])
        }),
{
    reveal_strlit(
        "INSERT OR IGNORE INTO commands (id, session_id, hostname, cwd, cmd, started_at) VALUES (?1, ?2, ?3, ?4, ?5, ?6)",
    );
    reveal_strlit("INSERT OR IGNORE INTO commands (");
    reveal_strlit(") VALUES (?1, ?2, ?3, ?4, ?5, ?6)");
    reveal_strlit(", ");
    reveal_strlit("id");
    reveal_strlit("session_id");
    reveal_strlit("hostname");
    reveal_strlit("cwd");
    reveal_strlit("cmd");
    reveal_strlit("started_at");
    assert("id"@.len() == 2 && "session_id"@.len() == 10 && "hostname"@.len() == 8 && "cwd"@.len() == 3);
    assert("cmd"@.len() == 3 && "started_at"@.len() == 10);
    assert("cwd"@[1] != "cmd"@[1]);
    assert("session_id"@[1] != "started_at"@[1]);
    assert(INSERT_START@ =~= "INSERT OR IGNORE INTO commands ("@ + "id"@ + ", "@ + "session_id"@ + ", "@
        + "hostname"@ + ", "@ + "cwd"@ + ", "@ + "cmd"@ + ", "@ + "started_at"@
        + ") VALUES (?1, ?2, ?3, ?4, ?5, ?6)"@);
}

/// The end of a command is recorded on its own row, found by its id, with the moment,
/// the time it took and its exit status, each in its own column. A time that the log
/// cannot hold is not recorded.
pub proof fn law_end_is_recorded_column_by_column(e: CmdEndEvent)
    ensures
        UPDATE_END@ == "UPDATE commands SET "@ + "finished_at"@ + " = ?2, "@ + "duration_ms"@ + " = ?3, "@
            + "exit_status"@ + " = ?4 WHERE "@ + "id"@ + " = ?1"@,
        end_params_of(e) is Some <==> e.duration_ms <= i64::MAX,
        end_params_of(e) matches Some(p) ==> p.len() == 4 && p[0] == SqlView::Text(e.id@) && p[1]
            == SqlView::Integer(e.finished_at_ms) && p[2] == SqlView::Integer(e.duration_ms as i64) && p[3]
            == SqlView::Integer(e.exit_status as i64),
{
    reveal_strlit("UPDATE commands SET finished_at = ?2, duration_ms = ?3, exit_status = ?4 WHERE id = ?1");
    reveal_strlit("UPDATE commands SET ");
    reveal_strlit("finished_at");
    reveal_strlit(" = ?2, ");
    reveal_strlit("duration_ms");
    reveal_strlit(" = ?3, ");
    reveal_strlit("exit_status");
    reveal_strlit(" = ?4 WHERE ");
    reveal_strlit("id");
    reveal_strlit(" = ?1");
    assert(UPDATE_END@ =~= "UPDATE commands SET "@ + "finished_at"@ + " = ?2, "@ + "duration_ms"@ + " = ?3, "@
        + "exit_status"@ + " = ?4 WHERE "@ + "id"@ + " = ?1"@);
}

/// What is known stays so for less than its time to live, and a status that was found
/// later than now counts as new.
pub proof fn law_status_ages(computed_at: Span, now: Span, later: Span, ttl: Span)
    ensures
        computed_at.total() <= now.total() ==> (is_fresh_of(computed_at, now, ttl) <==> now.total()
            < computed_at.total() + ttl.total()),
        now.total() <= computed_at.total() && ttl.total() > 0 ==> is_fresh_of(computed_at, now, ttl),
        now.total() <= later.total() && is_fresh_of(computed_at, later, ttl) ==> is_fresh_of(
            computed_at,
            now,
            ttl,
        ),
{
}

/// What gives way belongs to a working directory that nobody asked for, where there is
/// such a one, and was asked for no later than any other else.
pub proof fn law_least_recently_asked_gives_way(
    last_query: Map<Seq<char>, Span>,
    watches: Map<Seq<char>, String>,
    git_dir: Seq<char>,
    other: Seq<char>,
)
    requires
        is_oldest(last_query, watches, git_dir),
        watches.dom().contains(other),
    ensures
        !last_query.dom().contains(watches[other]@) ==> !last_query.dom().contains(watches[git_dir]@),
        last_query.dom().contains(watches[other]@) && last_query.dom().contains(watches[git_dir]@)
            ==> last_query[watches[git_dir]@].total() <= last_query[watches[other]@].total(),
{
}

} // verus!
