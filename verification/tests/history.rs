use chevron::history::args::{parse_args, Filters, Format, ParseOutcome, Surroundings, DEFAULT_LIMIT};
use chevron::history::duration::{parse_duration_to_ms, parse_since};
use chevron::history::query::{build_query, check_schema, like_escape, SqlValue};
use chevron::history::render::{
    collapse_home, format_cmds, format_duration, format_human, format_json, format_template, relative_time,
    render_rows, Row,
};
use rusqlite::types::Value;
use rusqlite::{params_from_iter, Connection};

fn here() -> Surroundings {
    Surroundings {
        current_dir: Ok("/work".to_string()),
        workspace_root: Ok("/work".to_string()),
        hostname: "host".to_string(),
        now_ms: 1_716_350_000_000,
    }
}

fn execute(conn: &Connection, sql: &str, params: &Vec<SqlValue>) -> Result<Vec<Row>, rusqlite::Error> {
    let values: Vec<Value> = params
        .iter()
        .map(|p| match p {
            SqlValue::Text(s) => Value::Text(s.clone()),
            SqlValue::Integer(n) => Value::Integer(*n),
        })
        .collect();
    let mut stmt = conn.prepare(sql)?;
    let rows = stmt.query_map(params_from_iter(values), |r| {
        Ok(Row {
            id: r.get(0)?,
            session_id: r.get(1)?,
            hostname: r.get(2)?,
            cwd: r.get(3)?,
            cmd: r.get(4)?,
            started_at: r.get(5)?,
            finished_at: r.get(6)?,
            duration_ms: r.get(7)?,
            exit_status: r.get(8)?,
        })
    })?;
    rows.collect()
}

fn schema_version(conn: &Connection) -> String {
    conn.query_row("SELECT value FROM meta WHERE key = 'schema_version'", [], |r| r.get(0)).unwrap()
}


#[test]
fn duration_compact_forms() {
    assert_eq!(parse_duration_to_ms("1s").unwrap(), 1_000);
    assert_eq!(parse_duration_to_ms("30s").unwrap(), 30_000);
    assert_eq!(parse_duration_to_ms("5m").unwrap(), 5 * 60_000);
    assert_eq!(parse_duration_to_ms("2h").unwrap(), 2 * 3_600_000);
    assert_eq!(parse_duration_to_ms("1d").unwrap(), 86_400_000);
    assert_eq!(parse_duration_to_ms("1w").unwrap(), 7 * 86_400_000);
}

#[test]
fn duration_long_forms() {
    assert_eq!(parse_duration_to_ms("3 hours ago").unwrap(), 3 * 3_600_000);
    assert_eq!(parse_duration_to_ms("1 day ago").unwrap(), 86_400_000);
    assert_eq!(
        parse_duration_to_ms("2 weeks ago").unwrap(),
        2 * 7 * 86_400_000
    );
    assert_eq!(parse_duration_to_ms("30 minutes ago").unwrap(), 30 * 60_000);
}

#[test]
fn duration_now() {
    assert_eq!(parse_duration_to_ms("now").unwrap(), 0);
    assert_eq!(parse_duration_to_ms("NOW").unwrap(), 0);
}

#[test]
fn duration_rejects_bad_unit() {
    assert!(parse_duration_to_ms("1y").is_err());
    assert!(parse_duration_to_ms("30").is_err());
    assert!(parse_duration_to_ms("abc").is_err());
    assert!(parse_duration_to_ms("d").is_err());
}

fn args(words: &[&str]) -> Vec<String> {
    words.iter().map(|s| (*s).to_string()).collect()
}

#[test]
fn args_default_filters() {
    let f = parse_args(&args(&[]), &here()).unwrap();
    assert_eq!(f.limit, DEFAULT_LIMIT);
    assert!(!f.failed_only);
    assert!(matches!(f.format, Format::Human));
}

#[test]
fn args_positional_becomes_grep() {
    let f = parse_args(&args(&["cargo"]), &here()).unwrap();
    assert_eq!(f.grep.as_deref(), Some("cargo"));
}

#[test]
fn args_failed_and_success_conflict() {
    assert!(parse_args(&args(&["--failed", "--success"]), &here()).is_err());
}

#[test]
fn args_failed_and_exit_zero_conflict() {
    assert!(parse_args(&args(&["--failed", "--exit", "0"]), &here()).is_err());
}

#[test]
fn args_success_and_exit_nonzero_conflict() {
    assert!(parse_args(&args(&["--success", "--exit", "1"]), &here()).is_err());
}

#[test]
fn args_limit_over_max_errors() {
    assert!(parse_args(&args(&["--limit", "1000000"]), &here()).is_err());
}

#[test]
fn args_unknown_flag_errors() {
    assert!(parse_args(&args(&["--mystery"]), &here()).is_err());
}

#[test]
fn args_help_returns_help_outcome() {
    match parse_args(&args(&["-h"]), &here()) {
        Err(ParseOutcome::Help) => {}
        other => panic!("expected Help, got {other:?}"),
    }
    match parse_args(&args(&["--help"]), &here()) {
        Err(ParseOutcome::Help) => {}
        other => panic!("expected Help, got {other:?}"),
    }
}

#[test]
fn args_format_template_passes_through() {
    let f = parse_args(&args(&["--format", "{cmd}"]), &here()).unwrap();
    match f.format {
        Format::Template(s) => assert_eq!(s, "{cmd}"),
        other => panic!("expected Template, got {other:?}"),
    }
}

#[test]
fn like_escape_protects_wildcards() {
    assert_eq!(like_escape("foo"), "foo");
    assert_eq!(like_escape("100%"), "100\\%");
    assert_eq!(like_escape("a_b"), "a\\_b");
    assert_eq!(like_escape(r"\foo"), r"\\foo");
}

#[test]
fn build_query_no_filters() {
    let f = Filters {
        limit: 10,
        ..Filters::default()
    };
    let (sql, params) = build_query(&f);
    assert!(sql.contains("ORDER BY started_at DESC"));
    assert!(sql.contains("LIMIT ?"));
    assert!(!sql.contains("WHERE"));
    assert_eq!(params.len(), 1);
}

#[test]
fn build_query_failed_emits_exit_status_clause() {
    let f = Filters {
        failed_only: true,
        limit: 10,
        ..Filters::default()
    };
    let (sql, _) = build_query(&f);
    assert!(sql.contains("exit_status > 0"));
}

#[test]
fn build_query_grep_uses_like_with_escape() {
    let f = Filters {
        grep: Some("cargo".to_string()),
        limit: 10,
        ..Filters::default()
    };
    let (sql, params) = build_query(&f);
    assert!(sql.contains("cmd LIKE ? ESCAPE '\\'"));
    assert!(matches!(&params[0], SqlValue::Text(s) if s == "%cargo%"));
}

#[test]
fn build_query_workspace_uses_prefix_like() {
    let f = Filters {
        workspace_prefix: Some("/Users/mim/src/chevron".to_string()),
        limit: 10,
        ..Filters::default()
    };
    let (sql, params) = build_query(&f);
    assert!(sql.contains("cwd LIKE ? ESCAPE '\\'"));
    assert!(
        matches!(&params[0], SqlValue::Text(s) if s == "/Users/mim/src/chevron%"),
        "expected prefix pattern, got {:?}",
        params[0]
    );
}

fn fixture_conn() -> Connection {
    let conn = Connection::open_in_memory().unwrap();
    conn.execute_batch(
        "CREATE TABLE meta (key TEXT PRIMARY KEY, value TEXT NOT NULL);
         INSERT INTO meta(key, value) VALUES('schema_version', '1');
         CREATE TABLE commands (
            id TEXT PRIMARY KEY,
            session_id TEXT NOT NULL,
            hostname TEXT NOT NULL,
            cwd TEXT NOT NULL,
            cmd TEXT NOT NULL,
            started_at INTEGER NOT NULL,
            finished_at INTEGER,
            duration_ms INTEGER,
            exit_status INTEGER);",
    )
    .unwrap();
    conn
}

fn insert_row(
    conn: &Connection,
    id: &str,
    cwd: &str,
    cmd: &str,
    started: i64,
    exit: Option<i32>,
) {
    conn.execute(
        "INSERT INTO commands (id, session_id, hostname, cwd, cmd, started_at, finished_at, duration_ms, exit_status)
         VALUES (?1, 'sess', 'host', ?2, ?3, ?4, ?5, ?6, ?7)",
        (
            id,
            cwd,
            cmd,
            started,
            exit.map(|_| started + 100),
            exit.map(|_| 100i64),
            exit.map(i64::from),
        ),
    ).unwrap();
}

#[test]
fn query_filters_by_grep() {
    let conn = fixture_conn();
    insert_row(&conn, "a", "/x", "cargo test", 1_000, Some(0));
    insert_row(&conn, "b", "/x", "git status", 2_000, Some(0));
    insert_row(&conn, "c", "/x", "cargo check", 3_000, Some(0));

    let f = Filters {
        grep: Some("cargo".to_string()),
        limit: 10,
        ..Filters::default()
    };
    let (sql, params) = build_query(&f);
    let rows = execute(&conn, &sql, &params).unwrap();
    assert_eq!(rows.len(), 2);
    assert!(rows.iter().all(|r| r.cmd.contains("cargo")));
}

#[test]
fn query_failed_excludes_zero_and_null() {
    let conn = fixture_conn();
    insert_row(&conn, "a", "/x", "ok", 1_000, Some(0));
    insert_row(&conn, "b", "/x", "fail", 2_000, Some(1));
    insert_row(&conn, "c", "/x", "running", 3_000, None);

    let f = Filters {
        failed_only: true,
        limit: 10,
        ..Filters::default()
    };
    let (sql, params) = build_query(&f);
    let rows = execute(&conn, &sql, &params).unwrap();
    assert_eq!(rows.len(), 1);
    assert_eq!(rows[0].cmd, "fail");
}

#[test]
fn query_workspace_matches_subdir() {
    let conn = fixture_conn();
    insert_row(&conn, "a", "/repo", "cmd-a", 1_000, Some(0));
    insert_row(&conn, "b", "/repo/sub", "cmd-b", 2_000, Some(0));
    insert_row(&conn, "c", "/other", "cmd-c", 3_000, Some(0));

    let f = Filters {
        workspace_prefix: Some("/repo".to_string()),
        limit: 10,
        ..Filters::default()
    };
    let (sql, params) = build_query(&f);
    let rows = execute(&conn, &sql, &params).unwrap();
    assert_eq!(rows.len(), 2);
    assert!(rows.iter().all(|r| r.cwd.starts_with("/repo")));
}

#[test]
fn query_unique_keeps_most_recent_per_cmd() {
    let conn = fixture_conn();
    insert_row(&conn, "a", "/x", "ls", 1_000, Some(0));
    insert_row(&conn, "b", "/x", "ls", 2_000, Some(0));
    insert_row(&conn, "c", "/x", "ls", 3_000, Some(0));
    insert_row(&conn, "d", "/x", "ps", 4_000, Some(0));

    let f = Filters {
        unique: true,
        limit: 10,
        ..Filters::default()
    };
    let (sql, params) = build_query(&f);
    let rows = execute(&conn, &sql, &params).unwrap();
    assert_eq!(rows.len(), 2, "rows: {rows:?}");
    let ls_row = rows.iter().find(|r| r.cmd == "ls").unwrap();
    assert_eq!(ls_row.id, "c");
}

#[test]
fn query_unique_gives_one_row_where_times_are_the_same() {
    let conn = fixture_conn();
    insert_row(&conn, "a", "/x", "ls", 3_000, Some(0));
    insert_row(&conn, "b", "/x", "ls", 3_000, Some(0));
    insert_row(&conn, "c", "/x", "ps", 3_000, Some(0));
    insert_row(&conn, "d", "/x", "ps", 4_000, Some(0));
    insert_row(&conn, "e", "/y", "ls", 9_000, Some(0));

    let f = Filters {
        unique: true,
        cwd: Some("/x".to_string()),
        limit: 10,
        ..Filters::default()
    };
    let (sql, params) = build_query(&f);
    assert_eq!(params.len(), 2);
    let rows = execute(&conn, &sql, &params).unwrap();
    let ids: Vec<&str> = rows.iter().map(|r| r.id.as_str()).collect();
    assert_eq!(ids, ["d", "b"]);
}

#[test]
fn query_since_until_bracket_window() {
    let conn = fixture_conn();
    insert_row(&conn, "a", "/x", "old", 1_000, Some(0));
    insert_row(&conn, "b", "/x", "mid", 2_000, Some(0));
    insert_row(&conn, "c", "/x", "new", 3_000, Some(0));

    let f = Filters {
        since_ms: Some(2_000),
        until_ms: Some(2_500),
        limit: 10,
        ..Filters::default()
    };
    let (sql, params) = build_query(&f);
    let rows = execute(&conn, &sql, &params).unwrap();
    assert_eq!(rows.len(), 1);
    assert_eq!(rows[0].cmd, "mid");
}

#[test]
fn query_exclude_cwd_drops_matching() {
    let conn = fixture_conn();
    insert_row(&conn, "a", "/keep", "x", 1_000, Some(0));
    insert_row(&conn, "b", "/drop", "y", 2_000, Some(0));

    let f = Filters {
        exclude_cwd: Some("/drop".to_string()),
        limit: 10,
        ..Filters::default()
    };
    let (sql, params) = build_query(&f);
    let rows = execute(&conn, &sql, &params).unwrap();
    assert_eq!(rows.len(), 1);
    assert_eq!(rows[0].cwd, "/keep");
}

fn fixture_row() -> Row {
    Row {
        id: "01HW".to_string(),
        session_id: "sess".to_string(),
        hostname: "host".to_string(),
        cwd: "/home/mim/src/chevron".to_string(),
        cmd: "cargo test --features daemon".to_string(),
        started_at: 1_716_350_000_000,
        finished_at: Some(1_716_350_000_500),
        duration_ms: Some(500),
        exit_status: Some(0),
    }
}

#[test]
fn human_format_no_color() {
    let row = fixture_row();
    let now = row.started_at + 5 * 60_000; // 5 m later
    let out = format_human(&row, false, now, None);
    assert!(out.contains("5m ago"));
    assert!(out.contains("cargo test --features daemon"));
    assert!(!out.contains('\x1b'), "no ANSI escapes in non-color mode");
}

#[test]
fn human_format_marks_failures() {
    let row = Row {
        exit_status: Some(127),
        ..fixture_row()
    };
    let now = row.started_at + 30 * 1_000;
    let out = format_human(&row, false, now, None);
    assert!(out.contains("✗ exit 127"), "got: {out:?}");
}

#[test]
fn human_format_shows_duration_for_slow_commands() {
    let row = Row {
        duration_ms: Some(2_500),
        ..fixture_row()
    };
    let now = row.started_at + 60_000;
    let out = format_human(&row, false, now, None);
    assert!(out.contains("2.5s") || out.contains("(2"), "got: {out:?}");
}

#[test]
fn json_format_escapes_specials() {
    let row = Row {
        cmd: "echo 'hi\ttab\nnew\"quote'".to_string(),
        ..fixture_row()
    };
    let out = format_json(&row);
    assert!(out.contains(r#""cmd":"echo 'hi\ttab\nnew\"quote'""#));
    assert!(!out.contains('\n'));
}

#[test]
fn json_row_holds_its_nine_members() {
    let row = Row {
        id: "01HW".to_string(),
        session_id: "s\"\\".to_string(),
        hostname: "h".to_string(),
        cwd: "/é".to_string(),
        cmd: "a\nb\u{1}\u{8}".to_string(),
        started_at: -5,
        finished_at: Some(7),
        duration_ms: None,
        exit_status: Some(0),
    };
    assert_eq!(
        format_json(&row),
        r#"{"id":"01HW","session_id":"s\"\\","hostname":"h","cwd":"/é","cmd":"a\nb\u0001\b","started_at":-5,"finished_at":7,"duration_ms":null,"exit_status":0}"#
    );
}

#[test]
fn json_format_handles_null_completion_fields() {
    let row = Row {
        finished_at: None,
        duration_ms: None,
        exit_status: None,
        ..fixture_row()
    };
    let out = format_json(&row);
    assert!(out.contains(r#""finished_at":null"#));
    assert!(out.contains(r#""duration_ms":null"#));
    assert!(out.contains(r#""exit_status":null"#));
}

#[test]
fn template_substitutes_known_fields() {
    let row = fixture_row();
    let out = format_template(&row, 0, "{cmd} -- {exit}");
    assert_eq!(out, "cargo test --features daemon -- 0");
}

#[test]
fn template_unknown_placeholder_passes_through() {
    let row = fixture_row();
    let out = format_template(&row, 0, "{nope}");
    assert_eq!(out, "{nope}");
}

#[test]
fn template_keeps_what_is_no_placeholder() {
    let row = Row {
        id: "01HW".to_string(),
        session_id: "s".to_string(),
        hostname: "h".to_string(),
        cwd: "/".to_string(),
        cmd: "ls".to_string(),
        started_at: 1,
        finished_at: None,
        duration_ms: None,
        exit_status: None,
    };
    assert_eq!(format_template(&row, 3, "é {n} {id} {exit} {nope}"), "é 3 01HW null {nope}");
    assert_eq!(format_template(&row, 0, "→ {cmd} {"), "→ ls {");
}

#[test]
fn only_ages_need_a_time() {
    let row = Row { started_at: i64::MIN, ..fixture_row() };
    let f = Filters { format: Format::Ids, ..Filters::default() };
    assert_eq!(render_rows(&vec![row], &f, false, i64::MAX, None), [fixture_row().id]);
}

#[test]
fn template_n_is_row_index() {
    let row = fixture_row();
    let out = format_template(&row, 3, "{n}: {cmd}");
    assert_eq!(out, "3: cargo test --features daemon");
}

#[test]
fn relative_time_buckets() {
    assert_eq!(relative_time(0), "0s ago");
    assert_eq!(relative_time(45 * 1_000), "45s ago");
    assert_eq!(relative_time(10 * 60_000), "10m ago");
    assert_eq!(relative_time(3 * 3_600_000), "3h ago");
    assert_eq!(relative_time(2 * 86_400_000), "2d ago");
    assert_eq!(relative_time(45 * 86_400_000), "6w ago");
    assert_eq!(relative_time(400i64 * 86_400_000), "1y ago");
}

#[test]
fn collapse_home_replaces_prefix() {
        assert_eq!(collapse_home("/Users/mim/src/x", Some("/Users/mim")), "~/src/x");
    assert_eq!(collapse_home("/Users/mim", Some("/Users/mim")), "~");
    assert_eq!(collapse_home("/etc/hosts", Some("/Users/mim")), "/etc/hosts");
}

#[test]
fn schema_check_passes_for_version_1() {
    let conn = fixture_conn();
    assert!(check_schema(&schema_version(&conn)).is_ok());
}

#[test]
fn schema_check_rejects_other_versions() {
    let conn = Connection::open_in_memory().unwrap();
    conn.execute_batch(
        "CREATE TABLE meta (key TEXT PRIMARY KEY, value TEXT NOT NULL);
         INSERT INTO meta(key, value) VALUES('schema_version', '999');",
    )
    .unwrap();
    let err = check_schema(&schema_version(&conn)).unwrap_err();
    assert!(err.contains("999"), "err: {err}");
}

#[test]
fn durations_are_counted_back_from_now() {
    assert_eq!(parse_since(10_000, "2s").unwrap(), 8_000);
    assert!(parse_since(10_000, "2 moons ago").is_err());
}

#[test]
fn args_here_means_the_current_directory() {
    let f = parse_args(&args(&["--here"]), &here()).unwrap();
    assert_eq!(f.cwd.as_deref(), Some("/work"));
    let lost = Surroundings { current_dir: Err("gone".to_string()), ..here() };
    match parse_args(&args(&["--here"]), &lost) {
        Err(ParseOutcome::Message(m)) => assert!(m.contains("gone"), "got: {m}"),
        _ => panic!("expected a message"),
    }
}

#[test]
fn args_that_need_a_value_say_so() {
    for flag in ["--cwd", "--limit", "--since", "--exit"] {
        assert!(parse_args(&args(&[flag]), &here()).is_err(), "{flag}");
    }
    assert!(parse_args(&args(&["--limit", "x"]), &here()).is_err());
}

#[test]
fn commands_alone_are_printed_as_they_are() {
    assert_eq!(format_cmds(&fixture_row()).trim_end(), "cargo test --features daemon");
    assert_eq!(format_duration(2_500), "2.5s");
}

#[test]
fn like_patterns_match_their_text_alone() {
    let conn = fixture_conn();
    insert_row(&conn, "a", "/x", "100% sure", 1_000, Some(0));
    insert_row(&conn, "b", "/x", "100 times", 2_000, Some(0));
    let f = Filters { grep: Some("100%".to_string()), limit: 10, ..Filters::default() };
    let (sql, params) = build_query(&f);
    let rows = execute(&conn, &sql, &params).unwrap();
    assert_eq!(rows.len(), 1);
    assert_eq!(rows[0].id, "a");
}

#[test]
fn both_forms_of_a_span_are_the_same() {
    let units = [
        ("s", 1_000i64), ("SEC", 1_000), ("Seconds", 1_000), ("m", 60_000), ("Min", 60_000), ("minutes", 60_000),
        ("H", 3_600_000), ("hr", 3_600_000), ("hours", 3_600_000), ("d", 86_400_000), ("DAYS", 86_400_000),
        ("w", 604_800_000), ("wk", 604_800_000), ("Weeks", 604_800_000),
    ];
    for (unit, ms) in units {
        for n in [0i64, 1, 30, 4_294_967_295] {
            assert_eq!(parse_duration_to_ms(&format!("{n}{unit}")).unwrap(), n * ms);
            assert_eq!(parse_duration_to_ms(&format!("{n} {unit} Ago")).unwrap(), n * ms);
        }
        assert!(parse_duration_to_ms(unit).is_err());
    }
    assert_eq!(parse_duration_to_ms("NoW").unwrap(), 0);
    for bad in ["30", "1y", "1 y ago", "4294967295"] {
        assert!(parse_duration_to_ms(bad).is_err(), "{bad}");
    }
}
