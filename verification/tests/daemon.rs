use chevron::capture::{capture_limit, output_path, outputs_dir, reported_bytes, usage_exit, Tally};
use chevron::daemon::client::{
    greeted, hello_bytes, request_bytes, status_bytes, try_publish_event, try_query,
};
use chevron::daemon::lifecycle::{
    idle_timeout, pid_in_range, pid_text, read_pidfile, should_retire, status_text, stop_plan, stop_timeout_text,
    tick_us, StopPlan,
};
use chevron::daemon::listener::{
    line_from_bytes, response_bytes, status_computed, status_hit, status_lookup, Action, Connection, RepoPlace,
    Stage,
};
use chevron::daemon::places::{lock_path, log_path, pid_path, socket_dir, socket_path, spool_dir};
use chevron::daemon::proto::{decode_response, CmdEndEvent, CmdStartEvent, Request, Response};
use chevron::daemon::spool::{
    entries, has_spooled_start, ingest, must_wait, safe_id, spool_event, Drain, Replay, SPOOL_CAP,
};
use chevron::daemon::state::{resolve_workdir, Effect, State, StateMsg, MAX_WATCHES, SCHEMA, TTL_MS};
use chevron::event::{
    end_request, event_exit, hostname, new_ulid, parse_event_args, start_request, unix_ms, EventCall,
};
use chevron::history::query::SqlValue;
use chevron::legacy_cache::{
    dir, legacy_entries, notice, retire, retire_in, Cleanup, ParentState, Unlink,
};
use chevron::segments::RepoStatus;
use chevron::span::Span;
use chevron::table::Table;
use rusqlite::types::Value;
use rusqlite::{params_from_iter, Connection as Db};

fn millis(ms: u64) -> Span {
    Span { secs: ms / 1000, nanos: (ms % 1000) as u32 * 1_000_000 }
}

fn fixture(branch: &str) -> RepoStatus {
    RepoStatus {
        repo_name: "chevron".to_string(),
        branch: branch.to_string(),
        detached: false,
        state: None,
        staged: 0,
        modified: 0,
        untracked: 0,
        conflicted: 0,
        ahead: 0,
        behind: 0,
        stashed: 0,
    }
}

// --- places ---

#[test]
fn socket_dir_honours_override() {
    assert_eq!(socket_dir(Some("/tmp/test-override"), Some("/run"), 1), "/tmp/test-override");
}

#[test]
fn socket_dir_uses_xdg_runtime_dir_when_no_override() {
    assert_eq!(socket_dir(None, Some("/run/user/1000"), 1000), "/run/user/1000/chevron");
}

#[test]
fn socket_dir_falls_back_to_tmp_with_uid() {
    let d = socket_dir(None, None, 501);
    assert!(d.starts_with("/tmp/chevrond-"), "got {d:?}");
    assert!(d.ends_with("501"), "got {d:?}");
}

#[test]
fn socket_path_joins_filename() {
    assert_eq!(socket_path("/tmp/x"), "/tmp/x/chevrond.sock");
    assert_eq!(lock_path("/tmp/x"), "/tmp/x/chevrond.lock");
    assert_eq!(pid_path("/tmp/x"), "/tmp/x/chevrond.pid");
    assert!(spool_dir("/tmp/x").starts_with("/tmp/x/"));
}

#[test]
fn log_path_uses_log_dir_override() {
    assert_eq!(log_path(Some("/var/log/x"), None, Some("/h")), "/var/log/x/chevrond.log");
    assert!(log_path(None, None, Some("/h")).starts_with("/h/"));
}

// --- lifecycle ---

#[test]
fn pidfile_round_trip() {
    assert_eq!(read_pidfile(&pid_text(4242)), Some(4242));
}

#[test]
fn read_pidfile_rejects_garbage() {
    assert_eq!(read_pidfile("not a number"), None);
}

#[test]
fn impossible_pids_are_never_signalled() {
    assert!(!pid_in_range(u32::MAX));
    assert!(matches!(stop_plan(Some(u32::MAX), true, "/p"), StopPlan::Nothing(_)));
    assert!(matches!(stop_plan(Some(7), false, "/p"), StopPlan::Stale(_)));
    assert!(matches!(stop_plan(Some(7), true, "/p"), StopPlan::Signal(7)));
    match stop_plan(None, false, "/p") {
        StopPlan::Nothing(m) => assert!(m.contains("/p")),
        _ => panic!("expected nothing to stop"),
    }
    assert!(stop_timeout_text(7).contains('7'));
    assert_eq!(status_text(Some(7), true), ("chevrond: running (pid 7)".to_string(), 0));
    assert_eq!(status_text(None, false).1, 1);
}

#[test]
fn an_attached_daemon_stays() {
    assert!(should_retire(100, 0, 1_000, 800));
    assert!(!should_retire(100, 1, 1_000, 800));
    assert!(!should_retire(0, 0, 1_000, 0));
    assert!(!should_retire(100, 0, 1_000, 900));
    assert_eq!(idle_timeout(Some("5")), 5);
    assert_eq!(idle_timeout(Some("x")), idle_timeout(None));
    assert_eq!(tick_us(0), 60_000_000);
    assert_eq!(tick_us(1), 50_000);
    assert_eq!(tick_us(1_000), 250_000);
}

// --- spool ---

fn start_event(id: &str) -> Request {
    Request::CmdStart(CmdStartEvent {
        id: id.to_string(),
        session_id: "sess".to_string(),
        hostname: "host".to_string(),
        cwd: "/tmp".to_string(),
        cmd: "echo spooled".to_string(),
        started_at_ms: 1,
    })
}

fn end_event(id: &str) -> Request {
    Request::CmdEnd(CmdEndEvent {
        id: id.to_string(),
        finished_at_ms: 2,
        duration_ms: 1,
        exit_status: 0,
        output_bytes: None,
        output_truncated: None,
    })
}

#[test]
fn spool_then_ingest_round_trips_through_the_actor() {
    let id = "01ARZ3NDEKTSV4RRFFQ69G5FAA";
    let start = spool_event(&start_event(id), 0, 10, 1).unwrap();
    let end = spool_event(&end_event(id), 1, 11, 1).unwrap();
    match ingest(Some(start.line.into_bytes())) {
        Replay::Send(StateMsg::CmdStart(e)) => assert_eq!(e.cmd, "echo spooled"),
        _ => panic!("expected the start"),
    }
    match ingest(Some(end.line.into_bytes())) {
        Replay::Send(StateMsg::CmdEnd(e)) => assert_eq!(e.finished_at_ms, 2),
        _ => panic!("expected the end"),
    }
}

#[test]
fn start_replays_before_its_end() {
    let id = "01BX5ZZKBKACTAV9WEVGEMMVRZ";
    for nanos in 0..50 {
        let end = spool_event(&end_event(id), 0, nanos, 9).unwrap();
        let start = spool_event(&start_event(id), 0, nanos, 9).unwrap();
        let names = entries(&vec![end.name, start.name]);
        assert_eq!(names.len(), 2);
        assert!(
            names[0].contains("-begin-"),
            "lexical order must put the start first, got {}",
            names[0]
        );
    }
}

#[test]
fn has_spooled_start_matches_only_its_id() {
    let id = "01BX5ZZKBKACTAV9WEVGEMMVRZ";
    assert!(!has_spooled_start(&vec![], id));
    let names = vec![spool_event(&start_event(id), 0, 1, 1).unwrap().name];
    assert!(has_spooled_start(&names, id));
    assert!(!has_spooled_start(&names, "01BX5ZZKBKACTAV9WEVGEMMVRA"));
    assert!(must_wait(&end_event(id), &names));
    assert!(!must_wait(&start_event(id), &names));
}

#[test]
fn spool_refuses_past_the_cap() {
    let id = "01BX5ZZKBKACTAV9WEVGEMMVRZ";
    assert!(
        spool_event(&start_event(id), SPOOL_CAP, 1, 1).is_none(),
        "a full spool must degrade to the old drop behaviour"
    );
    assert!(spool_event(&start_event(id), SPOOL_CAP - 1, 1, 1).is_some());
    assert!(spool_event(&Request::Quit, 0, 1, 1).is_none());
}

#[test]
fn poisoned_entries_are_unlinked_not_replayed() {
    assert!(matches!(ingest(Some(b"NOT A REQUEST\n".to_vec())), Replay::Discard));
    assert!(matches!(ingest(Some(b"QUIT\n".to_vec())), Replay::Discard));
    assert!(matches!(ingest(Some(vec![0xff, 0xfe, b'\n'])), Replay::Discard));
    assert!(matches!(ingest(None), Replay::Keep));
}

#[test]
fn the_start_of_an_odd_id_is_found_and_no_other() {
    let names = vec![spool_event(&start_event("a-b"), 0, 1, 1).unwrap().name];
    assert!(has_spooled_start(&names, "a-b"));
    for other in ["a-c", "ab", "a_b", "a--b", "a_0000045b", "A-B", "", "-"] {
        assert!(!has_spooled_start(&names, other), "{other}");
        assert!(!must_wait(&end_event(other), &names), "{other}");
    }
    assert!(must_wait(&end_event("a-b"), &names));
    let ends = vec![spool_event(&end_event("a-b"), 0, 1, 1).unwrap().name];
    assert!(!has_spooled_start(&ends, "a-b"));
    let plain = vec![spool_event(&start_event("AB"), 0, 1, 1).unwrap().name];
    assert!(has_spooled_start(&plain, "AB") && !has_spooled_start(&plain, "A-B"));
    assert_eq!(safe_id("AB"), "AB");
    assert_eq!(safe_id("a-b/é_"), "a_0000045b_0000047_0000233_0000095");
}

/// Drains files that hold `contents`, where the first `takes` events are taken. What was
/// sent, and which files are left.
fn drained(contents: &[Option<Vec<u8>>], takes: usize) -> (Vec<String>, Vec<usize>) {
    let names: Vec<String> = (0..contents.len()).map(|i| format!("{i:020}-x-begin-1.req")).collect();
    let mut drain = Drain::new(&names);
    let mut sent: Vec<String> = Vec::new();
    let mut left: Vec<usize> = (0..contents.len()).collect();
    while let Some(name) = drain.next() {
        let i = names.iter().position(|n| *n == name).unwrap();
        let replay = ingest(contents[i].clone());
        let mut delivered = false;
        if let Replay::Send(StateMsg::CmdStart(e)) = &replay {
            delivered = sent.len() < takes;
            if delivered {
                sent.push(e.id.clone());
            }
        }
        if drain.done(&replay, delivered) {
            left.retain(|k| *k != i);
        }
    }
    assert_eq!(drain.sent, sent.len());
    (sent, left)
}

#[test]
fn a_drain_takes_all_or_stops_where_nothing_takes() {
    let line = |id: &str| Some(spool_event(&start_event(id), 0, 1, 1).unwrap().line.into_bytes());
    let files = [line("A"), Some(vec![0xff]), line("B"), None, line("C")];
    let (sent, left) = drained(&files, 9);
    assert_eq!(sent, ["A", "B", "C"]);
    assert_eq!(left, [3]);
    let (sent, left) = drained(&files, 1);
    assert_eq!(sent, ["A"]);
    assert_eq!(left, [2, 3, 4]);
}

#[test]
fn tmp_files_are_invisible_to_reader_and_matcher() {
    let names = vec!["00000000000000000000-id-begin-1.req.tmp".to_string()];
    assert!(entries(&names).is_empty());
    assert!(!has_spooled_start(&names, "id"));
}

// --- state ---

fn minute() -> Span {
    millis(60_000)
}

fn query(s: &mut State, workdir: &str, now: Span, ttl: Span) -> Option<RepoStatus> {
    match s.handle(StateMsg::Get { workdir: workdir.to_string() }, now, ttl) {
        Effect::Reply(r) => r,
        _ => panic!("expected a reply"),
    }
}

fn insert(s: &mut State, workdir: &str, branch: &str, at: Span) {
    let msg = StateMsg::Insert {
        workdir: workdir.to_string(),
        git_dir: format!("{workdir}/.git"),
        status: fixture(branch),
        computed_at: at,
    };
    assert!(matches!(s.handle(msg, at, minute()), Effect::Watch(_)));
}

#[test]
fn get_miss_returns_none() {
    let mut s = State::new();
    assert!(query(&mut s, "/nonexistent", millis(0), minute()).is_none());
}

#[test]
fn insert_then_get_returns_fresh() {
    let mut s = State::new();
    insert(&mut s, "/repo", "master", millis(5));
    let got = query(&mut s, "/repo", millis(6), minute()).expect("expected fresh hit");
    assert_eq!(got.branch, "master");
}

#[test]
fn stale_entry_returns_none() {
    let mut s = State::new();
    insert(&mut s, "/repo", "master", millis(500));
    assert!(query(&mut s, "/repo", millis(1_000), millis(50)).is_none());
    assert_eq!(TTL_MS, 100);
}

#[test]
fn insert_overwrites_previous_entry() {
    let mut s = State::new();
    insert(&mut s, "/repo", "old", millis(1));
    insert(&mut s, "/repo", "new", millis(2));
    assert_eq!(query(&mut s, "/repo", millis(3), minute()).unwrap().branch, "new");
}

#[test]
fn multiple_workdirs_independent() {
    let mut s = State::new();
    insert(&mut s, "/a", "branch-a", millis(1));
    insert(&mut s, "/b", "branch-b", millis(1));
    assert_eq!(query(&mut s, "/a", millis(2), minute()).unwrap().branch, "branch-a");
    assert_eq!(query(&mut s, "/b", millis(2), minute()).unwrap().branch, "branch-b");
}

#[test]
fn shutdown_drains_pending_messages() {
    let mut s = State::new();
    insert(&mut s, "/repo", "master", millis(1));
    assert!(query(&mut s, "/repo", millis(2), minute()).is_some());
    assert!(matches!(s.handle(StateMsg::Shutdown, millis(3), minute()), Effect::Stop));
}

#[test]
fn fs_event_invalidates_matching_workdir() {
    let mut s = State::new();
    insert(&mut s, "/w", "master", millis(1));
    assert!(query(&mut s, "/w", millis(2), minute()).is_some());
    s.handle(StateMsg::FsEvent(vec!["/w/.git/HEAD".to_string()]), millis(3), minute());
    assert!(
        query(&mut s, "/w", millis(4), minute()).is_none(),
        "cache should be dropped after FS event on watched gitdir"
    );
}

#[test]
fn fs_event_for_unrelated_path_is_ignored() {
    let mut s = State::new();
    insert(&mut s, "/w", "master", millis(1));
    s.handle(StateMsg::FsEvent(vec!["/var/log/something".to_string()]), millis(2), minute());
    assert!(query(&mut s, "/w", millis(3), minute()).is_some());
}

#[test]
fn resolve_workdir_walks_ancestors() {
    let mut watches: Table<String> = Table::new();
    watches.insert("/r/.git".to_string(), "/r".to_string());
    assert_eq!(resolve_workdir(&watches, "/r/.git").as_deref(), Some("/r"));
    assert_eq!(resolve_workdir(&watches, "/r/.git/HEAD").as_deref(), Some("/r"));
    assert_eq!(
        resolve_workdir(&watches, "/r/.git/refs/heads/master").as_deref(),
        Some("/r")
    );
    assert_eq!(resolve_workdir(&watches, "/other/.git/HEAD"), None);
    assert_eq!(resolve_workdir(&watches, "/r/src/main.rs"), None);
}

#[test]
fn lru_eviction_at_cap() {
    let mut s = State::new();
    let workdirs: Vec<String> = (0..=MAX_WATCHES).map(|i| format!("/tmp/lru-test-{i}")).collect();
    for (i, w) in workdirs.iter().enumerate() {
        insert(&mut s, w, &format!("b{i}"), millis(i as u64));
    }
    let now = millis(1_000);
    assert!(query(&mut s, &workdirs[0], now, minute()).is_none());
    assert!(query(&mut s, &workdirs[MAX_WATCHES], now, minute()).is_some());
    assert!(s.watches.len() <= MAX_WATCHES);
}

#[test]
fn the_watches_are_bounded_whoever_was_asked_for_last() {
    let mut s = State::new();
    query(&mut s, "/never/watched", millis(0), minute());
    for i in 0..MAX_WATCHES {
        insert(&mut s, &format!("/w{i}"), "b", millis(10 + i as u64));
    }
    assert_eq!(s.watches.len(), MAX_WATCHES);
    let msg = StateMsg::Insert {
        workdir: "/new".to_string(),
        git_dir: "/new/.git".to_string(),
        status: fixture("b"),
        computed_at: millis(500),
    };
    match s.handle(msg, millis(500), minute()) {
        Effect::Watch(change) => {
            assert_eq!(change.unwatch.as_deref(), Some("/w0/.git"));
            assert_eq!(change.watch.as_deref(), Some("/new/.git"));
        }
        _ => panic!("expected a change of watches"),
    }
    assert_eq!(s.watches.len(), MAX_WATCHES);
    insert(&mut s, "/new", "c", millis(501));
    assert_eq!(s.watches.len(), MAX_WATCHES);
}

fn fixture_cmd_start(id: &str) -> CmdStartEvent {
    CmdStartEvent {
        id: id.to_string(),
        session_id: "sess-abc".to_string(),
        hostname: "matt-mbp".to_string(),
        cwd: "/Users/mim/src/chevron".to_string(),
        cmd: "cargo test".to_string(),
        started_at_ms: 1_000,
    }
}

fn fixture_cmd_end(id: &str) -> CmdEndEvent {
    CmdEndEvent {
        id: id.to_string(),
        finished_at_ms: 2_500,
        duration_ms: 1_500,
        exit_status: 0,
        output_bytes: None,
        output_truncated: None,
    }
}

fn memory_db() -> Db {
    let db = Db::open_in_memory().unwrap();
    db.execute_batch(SCHEMA).unwrap();
    db
}

fn store(db: &Db, msg: StateMsg) -> usize {
    match State::new().handle(msg, millis(0), minute()) {
        Effect::Store { sql, params } => {
            let values = params.iter().map(|p| match p {
                SqlValue::Text(s) => Value::Text(s.clone()),
                SqlValue::Integer(n) => Value::Integer(*n),
            });
            db.execute(sql, params_from_iter(values)).unwrap()
        }
        _ => panic!("expected something to store"),
    }
}

#[test]
fn cmd_start_inserts_row_with_pending_completion() {
    let db = memory_db();
    store(&db, StateMsg::CmdStart(fixture_cmd_start("id-1")));
    let (cmd, started_at, finished_at, exit_status): (String, i64, Option<i64>, Option<i64>) = db
        .query_row(
            "SELECT cmd, started_at, finished_at, exit_status FROM commands WHERE id = ?1",
            ["id-1"],
            |row| Ok((row.get(0)?, row.get(1)?, row.get(2)?, row.get(3)?)),
        )
        .unwrap();
    assert_eq!(cmd, "cargo test");
    assert_eq!(started_at, 1_000);
    assert!(finished_at.is_none());
    assert!(exit_status.is_none());
}

#[test]
fn cmd_end_fills_completion_columns() {
    let db = memory_db();
    store(&db, StateMsg::CmdStart(fixture_cmd_start("id-2")));
    store(&db, StateMsg::CmdEnd(fixture_cmd_end("id-2")));
    let (finished_at, duration_ms, exit_status): (i64, i64, i64) = db
        .query_row(
            "SELECT finished_at, duration_ms, exit_status FROM commands WHERE id = ?1",
            ["id-2"],
            |row| Ok((row.get(0)?, row.get(1)?, row.get(2)?)),
        )
        .unwrap();
    assert_eq!(finished_at, 2_500);
    assert_eq!(duration_ms, 1_500);
    assert_eq!(exit_status, 0);
}

#[test]
fn cmd_end_without_start_is_silent_noop() {
    let db = memory_db();
    assert_eq!(store(&db, StateMsg::CmdEnd(fixture_cmd_end("orphan"))), 0);
    store(&db, StateMsg::CmdStart(fixture_cmd_start("id-3")));
    let count: i64 = db
        .query_row("SELECT COUNT(*) FROM commands", [], |row| row.get(0))
        .unwrap();
    assert_eq!(count, 1, "only the successful CmdStart should have a row");
    let has_orphan: i64 = db
        .query_row("SELECT COUNT(*) FROM commands WHERE id = ?1", ["orphan"], |row| row.get(0))
        .unwrap();
    assert_eq!(has_orphan, 0);
}

#[test]
fn duplicate_cmd_start_ignores_second_insert() {
    let db = memory_db();
    store(&db, StateMsg::CmdStart(fixture_cmd_start("dup")));
    let mut second = fixture_cmd_start("dup");
    second.cmd = "second insert wins? (no)".to_string();
    store(&db, StateMsg::CmdStart(second));
    let cmd: String = db
        .query_row("SELECT cmd FROM commands WHERE id = ?1", ["dup"], |row| row.get(0))
        .unwrap();
    assert_eq!(cmd, "cargo test");
}

#[test]
fn open_db_seeds_schema_version_and_is_idempotent() {
    let db = memory_db();
    db.execute_batch(SCHEMA).unwrap();
    let version: String = db
        .query_row("SELECT value FROM meta WHERE key = 'schema_version'", [], |row| row.get(0))
        .unwrap();
    assert_eq!(version, "1");
}

// --- connections ---

fn reply(c: &mut Connection, line: &str) -> String {
    match c.on_line(Some(line)) {
        Action::Reply(r) | Action::Refuse(r) => response_bytes(&r),
        _ => panic!("expected a reply to {line:?}"),
    }
}

#[test]
fn handshake_round_trips() {
    let mut c = Connection::new();
    let resp = reply(&mut c, "HELLO 1\n");
    assert!(resp.starts_with("HELLO 1"), "got: {resp:?}");
    assert!(matches!(c.on_line(Some("QUIT\n")), Action::Close));
    assert_eq!(c.stage, Stage::Closed);
}

#[test]
fn unsupported_version_returns_err_and_closes() {
    let mut c = Connection::new();
    let resp = reply(&mut c, "HELLO 999\n");
    assert!(resp.starts_with("ERR "), "got: {resp:?}");
    assert_eq!(c.stage, Stage::Closed);
}

#[test]
fn missing_hello_first_returns_err_and_closes() {
    let mut c = Connection::new();
    let resp = reply(&mut c, "STATUS /tmp\n");
    assert!(resp.starts_with("ERR "), "got: {resp:?}");
    assert_eq!(c.stage, Stage::Closed);
}

#[test]
fn malformed_hello_returns_err_and_closes() {
    let mut c = Connection::new();
    let resp = reply(&mut c, "HELLO abc\n");
    assert!(resp.starts_with("ERR "), "got: {resp:?}");
    assert_eq!(c.stage, Stage::Closed);
}

#[test]
fn status_on_non_repo_returns_none() {
    let mut c = Connection::new();
    reply(&mut c, "HELLO 1\n");
    match c.on_line(Some("STATUS /tmp/x\n")) {
        Action::Status(path) => assert_eq!(path, "/tmp/x"),
        _ => panic!("expected a lookup"),
    }
    match status_lookup(&None) {
        Err(r) => assert!(response_bytes(&r).starts_with("NONE")),
        Ok(_) => panic!("expected no repository"),
    }
}

#[test]
fn status_on_repo_returns_ok() {
    let place = RepoPlace { workdir: "/r".to_string(), git_dir: "/r/.git".to_string() };
    assert!(matches!(status_lookup(&Some(RepoPlace { workdir: "/r".to_string(), git_dir: "/r/.git".to_string() })),
        Ok(StateMsg::Get { .. })));
    let (resp, _) = status_computed(&place, fixture("main"), millis(1));
    let line = response_bytes(&resp);
    assert!(line.starts_with("OK "), "got: {line:?}");
    match decode_response(&line).unwrap() {
        Response::Status(Some(s)) => {
            assert!(!s.repo_name.is_empty());
            assert!(!s.branch.is_empty());
        }
        other => panic!("unexpected response: {other:?}"),
    }
}

#[test]
fn second_status_hits_cache() {
    let place = RepoPlace { workdir: "/r".to_string(), git_dir: "/r/.git".to_string() };
    let (first, note) = status_computed(&place, fixture("main"), millis(1));
    let mut s = State::new();
    s.handle(note, millis(1), minute());
    let second = status_hit(query(&mut s, "/r", millis(2), minute())).unwrap();
    assert_eq!(response_bytes(&first), response_bytes(&second));
}

#[test]
fn malformed_request_after_hello_returns_err_and_continues() {
    let mut c = Connection::new();
    reply(&mut c, "HELLO 1\n");
    let err = reply(&mut c, "FOOBAR garbage\n");
    assert!(err.starts_with("ERR "), "got: {err:?}");
    assert!(matches!(c.on_line(Some("STATUS /tmp\n")), Action::Status(_)));
}

#[test]
fn connections_end_with_their_input() {
    let mut c = Connection::new();
    assert!(matches!(c.on_line(None), Action::Close));
    assert_eq!(line_from_bytes(&vec![b'a'; 8192]), None);
    assert_eq!(line_from_bytes(&b"HELLO \xff\n".to_vec()).as_deref(), Some("HELLO \u{fffd}\n"));
    let mut c = Connection::new();
    reply(&mut c, "HELLO 1\n");
    assert!(matches!(c.on_line(Some("SUBSCRIBE cwd=/x\n")), Action::Relay(_)));
    let line = request_bytes(&start_event("i"));
    let mut c = Connection::new();
    reply(&mut c, &hello_bytes());
    assert!(matches!(c.on_line(Some(&line)), Action::Record(StateMsg::CmdStart(_))));
}

// --- the other end ---

#[test]
fn a_status_arrives_as_it_was() {
    let line = response_bytes(&Response::Status(Some(fixture("my branch"))));
    assert_eq!(try_query(&line).unwrap().branch, "my branch");
    assert!(try_query(&response_bytes(&Response::Status(None))).is_none());
    assert!(try_query("garbage\n").is_none());
    assert!(greeted(&response_bytes(&Response::Hello(1))));
    assert!(!greeted(&response_bytes(&Response::Hello(2))));
    assert!(try_publish_event(&response_bytes(&Response::Ack)));
    assert!(!try_publish_event(&response_bytes(&Response::Error("no".to_string()))));
    assert_eq!(status_bytes("/a b"), "STATUS /a%20b\n");
}

// --- events ---

#[test]
fn new_ulid_returns_26_char_crockford_base32() {
    let id = new_ulid();
    assert_eq!(id.len(), 26);
    assert!(id.chars().all(|c| c.is_ascii_uppercase() || c.is_ascii_digit()));
}

#[test]
fn new_ulid_returns_distinct_values() {
    let a = new_ulid();
    let b = new_ulid();
    assert_ne!(a, b);
}

#[test]
fn hostname_returns_non_empty_string() {
    assert_eq!(hostname(Some(&b"box\0junk".to_vec())), "box");
    assert!(!hostname(None).is_empty());
}

#[test]
fn hostname_helper_returns_non_empty() {
    assert_eq!(hostname(Some(&vec![0xff, 0])), "unknown");
    assert_eq!(hostname(Some(&vec![0, b'x'])), "unknown");
}

fn since_epoch() -> Option<u64> {
    std::time::SystemTime::now()
        .duration_since(std::time::UNIX_EPOCH)
        .ok()
        .map(|d| d.as_millis() as u64)
}

#[test]
fn now_ms_is_recent_unix_time() {
    let t = unix_ms(since_epoch());
    assert!(t > 1_600_000_000_000, "got {t}");
    assert!(t < 32_503_680_000_000, "got {t}");
}

#[test]
fn now_unix_ms_is_recent() {
    let t = unix_ms(since_epoch());
    assert!(t > 1_600_000_000_000);
    assert_eq!(unix_ms(None), 0);
    assert_eq!(unix_ms(Some(u64::MAX)), i64::MAX);
}

fn run(words: &[&str]) -> i32 {
    event_exit(&parse_event_args(&words.iter().map(|w| w.to_string()).collect()))
}

#[test]
fn run_new_session_succeeds() {
    assert_eq!(run(&["new-session"]), 0);
}

#[test]
fn run_cmd_start_with_no_args_exits_nonzero() {
    assert_eq!(run(&["cmd-start"]), 1);
}

#[test]
fn run_cmd_end_with_no_args_exits_nonzero() {
    assert_eq!(run(&["cmd-end"]), 1);
}

#[test]
fn run_unknown_subcommand_exits_nonzero() {
    assert_eq!(run(&["bogus"]), 1);
}

#[test]
fn run_cmd_start_with_empty_cmd_is_silent_noop() {
    assert_eq!(run(&["cmd-start", "sess", "/tmp"]), 0);
    let call = parse_event_args(&vec!["cmd-start".to_string(), "sess".to_string(), "/tmp".to_string()]);
    assert!(matches!(call, EventCall::EmptyStart));
}

#[test]
fn a_command_without_text_is_no_event() {
    let call = |words: &[&str]| parse_event_args(&words.iter().map(|w| w.to_string()).collect());
    assert!(matches!(call(&["cmd-start", "s", "/c", ""]), EventCall::EmptyStart));
    assert!(matches!(call(&["cmd-start", "s", "/c", "", "ls"]), EventCall::Start { cmd, .. } if cmd == " ls"));
}

#[test]
fn events_carry_what_the_shell_said() {
    match start_request("i", "s", "h", "/c", "ls -l", 5) {
        Request::CmdStart(e) => assert_eq!((e.cmd.as_str(), e.started_at_ms), ("ls -l", 5)),
        _ => panic!("expected a start"),
    }
    match end_request("i", 3, 7, 9) {
        Request::CmdEnd(e) => assert_eq!((e.exit_status, e.duration_ms, e.finished_at_ms), (3, 7, 9)),
        _ => panic!("expected an end"),
    }
    let call = parse_event_args(
        &["cmd-start", "s", "/c", "ls", "-l"].iter().map(|w| w.to_string()).collect(),
    );
    match call {
        EventCall::Start { cmd, .. } => assert_eq!(cmd, "ls -l"),
        _ => panic!("expected a start"),
    }
}

// --- capture ---

#[test]
fn run_with_no_args_prints_usage_and_exits_one() {
    assert_eq!(usage_exit(&vec![]), Some(1));
}

#[test]
fn run_with_help_flag_exits_zero() {
    assert_eq!(usage_exit(&vec!["--help".to_string()]), Some(0));
    assert_eq!(usage_exit(&vec!["ls".to_string()]), None);
}

#[test]
fn output_is_kept_up_to_the_limit() {
    let mut t = Tally::new();
    assert_eq!(t.take(6, 10), 6);
    assert_eq!(t.take(6, 10), 4);
    assert_eq!(t.take(1, 10), 0);
    assert_eq!(t, Tally { written: 10, truncated: true });
    assert_eq!(capture_limit(None), 10 * 1_048_576);
    assert_eq!(capture_limit(Some("2")), 2 * 1_048_576);
    assert_eq!(capture_limit(Some("x")), 10 * 1_048_576);
    assert_eq!(output_path(&outputs_dir("/s"), "id"), "/s/outputs/id.log");
    assert_eq!(reported_bytes(u64::MAX), i64::MAX);
}

#[test]
fn captured_commands_report_their_output() {
    match chevron::capture::end_request("i", 100, 350, 2, 42, true) {
        Request::CmdEnd(e) => {
            assert_eq!(e.duration_ms, 250);
            assert_eq!(e.output_bytes, Some(42));
            assert_eq!(e.output_truncated, Some(true));
        }
        _ => panic!("expected an end"),
    }
    match chevron::capture::end_request("i", 100, 50, 2, 42, true) {
        Request::CmdEnd(e) => assert_eq!(e.duration_ms, 0),
        _ => panic!("expected an end"),
    }
}

// --- files of earlier versions ---

fn open(is_dir: bool, uid: u32, mode: u32) -> ParentState {
    ParentState::Opened { is_dir, uid, mode }
}

#[test]
fn missing_directory_is_absent() {
    assert!(matches!(retire_in("/nope", &ParentState::NotFound, 1), Some(Cleanup::Absent)));
}

#[test]
fn removes_both_entries_and_is_idempotent() {
    assert!(retire_in("/d", &open(true, 1, 0o700), 1).is_none());
    assert!(matches!(retire("/d", &vec![Unlink::Removed, Unlink::Removed]), Cleanup::Removed));
    assert!(matches!(retire("/d", &vec![Unlink::Missing, Unlink::Missing]), Cleanup::Absent));
    assert_eq!(legacy_entries(), ["last-prompt", "last-prompt.tmp"]);
}

#[test]
fn refuses_a_parent_other_users_can_reach() {
    match retire_in("/d", &open(true, 1, 0o755), 1) {
        Some(Cleanup::UnsafeParent(reason)) => {
            assert!(reason.contains("accessible to other users"), "{reason}");
        }
        other => panic!("expected UnsafeParent, got {other:?}"),
    }
}

#[test]
fn refuses_a_symlinked_parent() {
    assert!(matches!(retire_in("/d", &ParentState::Link, 1), Some(Cleanup::UnsafeParent(_))));
}

#[test]
fn refuses_a_parent_that_is_a_file() {
    assert!(matches!(retire_in("/d", &ParentState::NotDirectory, 1), Some(Cleanup::UnsafeParent(_))));
    assert!(matches!(retire_in("/d", &open(false, 1, 0o700), 1), Some(Cleanup::UnsafeParent(_))));
}

#[test]
fn refuses_a_parent_of_someone_else() {
    match retire_in("/d", &open(true, 0, 0o700), 1) {
        Some(Cleanup::UnsafeParent(reason)) => assert!(reason.contains("uid 0")),
        other => panic!("expected UnsafeParent, got {other:?}"),
    }
    assert!(matches!(
        retire_in("/d", &ParentState::CannotOpen("no".to_string()), 1),
        Some(Cleanup::Failed(_))
    ));
    assert!(matches!(
        retire_in("/d", &ParentState::CannotStat("no".to_string()), 1),
        Some(Cleanup::Failed(_))
    ));
}

#[test]
fn never_removes_a_directory_entry() {
    match retire("/d", &vec![Unlink::Failed("is a directory".to_string())]) {
        Cleanup::Failed(m) => assert_eq!(m, "remove /d/last-prompt: is a directory"),
        other => panic!("expected Failed, got {other:?}"),
    }
}

#[test]
fn dir_follows_runtime_dir_then_tmp() {
    assert!(dir(Some("/run/user/test"), 7).starts_with("/run/user/test"));
    assert!(dir(Some("/run/user/test"), 7).contains("/chevron-"));
    assert!(dir(Some(""), 7).starts_with("/tmp"));
    assert!(dir(None, 7).starts_with("/tmp"));
}

#[test]
fn notices_can_be_switched_off() {
    let c = Cleanup::UnsafeParent("why".to_string());
    assert!(notice(&c, None).unwrap().contains("why"));
    assert!(notice(&c, Some("0")).is_none());
    assert!(notice(&Cleanup::Removed, None).is_none());
}
