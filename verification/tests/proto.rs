use chevron::daemon::percent::{percent_decode, percent_encode};
use chevron::daemon::proto::{
    decode_request, decode_response, encode_request, encode_response, CmdEndEvent, CmdStartEvent, EventPayload,
    ProtoError, Request, Response, SubscribeSpec, PROTO_VERSION,
};
use chevron::segments::{OpState, RepoStatus};


fn fixture_status() -> RepoStatus {
    RepoStatus {
        repo_name: "chevron".to_string(),
        branch: "master".to_string(),
        detached: false,
        state: None,
        staged: 0,
        modified: 2,
        untracked: 1,
        conflicted: 0,
        ahead: 3,
        behind: 0,
        stashed: 1,
    }
}

#[test]
fn percent_encode_passes_through_normal() {
    assert_eq!(percent_encode("master"), "master");
    assert_eq!(percent_encode("feature/foo_bar.baz"), "feature/foo_bar.baz");
}

#[test]
fn percent_encode_handles_space_and_percent() {
    assert_eq!(percent_encode("my project"), "my%20project");
    assert_eq!(percent_encode("100%"), "100%25");
    assert_eq!(percent_encode("a % b"), "a%20%25%20b");
}

#[test]
fn percent_decode_round_trips_normal() {
    for s in ["", "master", "feature/x", "a-b_c.d", "/usr/local/bin"] {
        assert_eq!(percent_decode(&percent_encode(s)).unwrap(), s);
    }
}

#[test]
fn percent_decode_round_trips_specials() {
    for s in ["my project", "100%", "a % b", "  ", "%%%"] {
        assert_eq!(percent_decode(&percent_encode(s)).unwrap(), s);
    }
}

#[test]
fn percent_decode_rejects_truncated() {
    assert!(matches!(
        percent_decode("foo%2"),
        Err(ProtoError::Malformed(_))
    ));
    assert!(matches!(
        percent_decode("foo%"),
        Err(ProtoError::Malformed(_))
    ));
}

#[test]
fn percent_decode_accepts_any_hex_pair() {
    assert_eq!(percent_decode("%41").unwrap(), "A");
    assert_eq!(percent_decode("%7F").unwrap(), "\x7f");
    assert_eq!(percent_decode("%0a").unwrap(), "\n");
}

#[test]
fn percent_decode_rejects_non_hex_escape() {
    assert!(matches!(
        percent_decode("%XY"),
        Err(ProtoError::Malformed(_))
    ));
    assert!(matches!(
        percent_decode("%2G"),
        Err(ProtoError::Malformed(_))
    ));
}

#[test]
fn percent_encode_escapes_control_bytes() {
    assert_eq!(percent_encode("\n"), "%0A");
    assert_eq!(percent_encode("\t"), "%09");
    assert_eq!(percent_encode("\r"), "%0D");
    assert_eq!(percent_encode("git status"), "git%20status");
    assert_eq!(percent_encode("ls -la"), "ls%20-la");
}

#[test]
fn percent_round_trips_command_with_specials() {
    let cmd = "echo 'hello\tworld'\n# 50%";
    assert_eq!(percent_decode(&percent_encode(cmd)).unwrap(), cmd);
}

#[test]
fn percent_round_trips_utf8() {
    for s in ["café", "プロジェクト", "naïve résumé", "✨🦀"] {
        assert_eq!(percent_decode(&percent_encode(s)).unwrap(), s);
    }
}

#[test]
fn encode_decode_hello_request() {
    let req = Request::Hello(PROTO_VERSION);
    let line = encode_request(&req);
    assert_eq!(line, "HELLO 1");
    assert_eq!(decode_request(&line).unwrap(), req);
}

#[test]
fn encode_decode_status_request_simple() {
    let req = Request::Status("/Users/mim/src/chevron".to_string());
    let line = encode_request(&req);
    assert_eq!(line, "STATUS /Users/mim/src/chevron");
    assert_eq!(decode_request(&line).unwrap(), req);
}

#[test]
fn encode_decode_status_request_with_space() {
    let req = Request::Status("/Users/mim/My Project".to_string());
    let line = encode_request(&req);
    assert_eq!(line, "STATUS /Users/mim/My%20Project");
    assert_eq!(decode_request(&line).unwrap(), req);
}

#[test]
fn encode_decode_quit_request() {
    assert_eq!(encode_request(&Request::Quit), "QUIT");
    assert_eq!(decode_request("QUIT").unwrap(), Request::Quit);
}

#[test]
fn decode_request_strips_trailing_newline() {
    assert_eq!(
        decode_request("HELLO 1\n").unwrap(),
        Request::Hello(PROTO_VERSION)
    );
    assert_eq!(
        decode_request("HELLO 1\r\n").unwrap(),
        Request::Hello(PROTO_VERSION)
    );
}

#[test]
fn decode_request_rejects_unknown_opcode() {
    assert!(matches!(
        decode_request("FOO bar"),
        Err(ProtoError::UnknownOpcode(_))
    ));
}

#[test]
fn decode_request_rejects_empty() {
    assert_eq!(decode_request(""), Err(ProtoError::Empty));
    assert_eq!(decode_request("\n"), Err(ProtoError::Empty));
}

#[test]
fn decode_request_rejects_bad_hello_version() {
    assert!(matches!(
        decode_request("HELLO abc"),
        Err(ProtoError::Malformed(_))
    ));
    assert!(matches!(
        decode_request("HELLO -1"),
        Err(ProtoError::Malformed(_))
    ));
}

#[test]
fn decode_request_rejects_status_without_path() {
    assert!(matches!(
        decode_request("STATUS"),
        Err(ProtoError::Malformed(_))
    ));
    assert!(matches!(
        decode_request("STATUS   "),
        Err(ProtoError::Malformed(_))
    ));
}

#[test]
fn decode_request_rejects_quit_with_args() {
    assert!(matches!(
        decode_request("QUIT now"),
        Err(ProtoError::Malformed(_))
    ));
}

fn fixture_cmd_start() -> CmdStartEvent {
    CmdStartEvent {
        id: "01HW4ZAB12CDEFGHJKMNPQRSTV".to_string(),
        session_id: "01HW4ZAA00000000000000SESS".to_string(),
        hostname: "matt-mbp".to_string(),
        cwd: "/Users/mim/src/chevron".to_string(),
        cmd: "cargo test".to_string(),
        started_at_ms: 1_716_350_000_123,
    }
}

fn fixture_cmd_end() -> CmdEndEvent {
    CmdEndEvent {
        id: "01HW4ZAB12CDEFGHJKMNPQRSTV".to_string(),
        finished_at_ms: 1_716_350_001_456,
        duration_ms: 1333,
        exit_status: 0,
        output_bytes: None,
        output_truncated: None,
    }
}

#[test]
fn encode_decode_cmd_start_simple() {
    let req = Request::CmdStart(fixture_cmd_start());
    let line = encode_request(&req);
    assert_eq!(
        line,
        "CMD_START id=01HW4ZAB12CDEFGHJKMNPQRSTV session=01HW4ZAA00000000000000SESS \
         host=matt-mbp cwd=/Users/mim/src/chevron started_at=1716350000123 cmd=cargo%20test"
    );
    assert_eq!(decode_request(&line).unwrap(), req);
}

#[test]
fn encode_decode_cmd_start_with_specials_in_cmd() {
    let req = Request::CmdStart(CmdStartEvent {
        cmd: "echo 'naïve résumé'\n# 50% off".to_string(),
        ..fixture_cmd_start()
    });
    let line = encode_request(&req);
    assert!(
        !line.contains('\n')
            && !line.contains('\t')
            && line.split_ascii_whitespace().count() == 7,
        "encoded line must contain exactly the opcode + 6 kv tokens, no raw whitespace in cmd: {line}"
    );
    assert_eq!(decode_request(&line).unwrap(), req);
}

#[test]
fn encode_decode_cmd_start_with_spaces_in_cwd() {
    let req = Request::CmdStart(CmdStartEvent {
        cwd: "/Users/mim/My Project".to_string(),
        ..fixture_cmd_start()
    });
    let line = encode_request(&req);
    assert!(
        line.contains("cwd=/Users/mim/My%20Project"),
        "cwd with space should be percent-encoded: {line}"
    );
    assert_eq!(decode_request(&line).unwrap(), req);
}

#[test]
fn encode_decode_cmd_end_simple() {
    let req = Request::CmdEnd(fixture_cmd_end());
    let line = encode_request(&req);
    assert_eq!(
        line,
        "CMD_END id=01HW4ZAB12CDEFGHJKMNPQRSTV finished_at=1716350001456 \
         duration_ms=1333 exit=0"
    );
    assert_eq!(decode_request(&line).unwrap(), req);
}

#[test]
fn encode_decode_cmd_end_with_capture_metadata() {
    let req = Request::CmdEnd(CmdEndEvent {
        output_bytes: Some(42_000),
        output_truncated: Some(true),
        ..fixture_cmd_end()
    });
    let line = encode_request(&req);
    assert!(line.contains("output_bytes=42000"), "got: {line}");
    assert!(line.contains("output_truncated=true"), "got: {line}");
    assert_eq!(decode_request(&line).unwrap(), req);
}

#[test]
fn encode_cmd_end_omits_capture_keys_when_none() {
    let req = Request::CmdEnd(fixture_cmd_end());
    let line = encode_request(&req);
    assert!(!line.contains("output_bytes"), "got: {line}");
    assert!(!line.contains("output_truncated"), "got: {line}");
}

#[test]
fn encode_decode_cmd_end_negative_exit() {
    let req = Request::CmdEnd(CmdEndEvent {
        exit_status: -15,
        ..fixture_cmd_end()
    });
    let line = encode_request(&req);
    assert!(line.contains("exit=-15"), "expected negative exit: {line}");
    assert_eq!(decode_request(&line).unwrap(), req);
}

#[test]
fn decode_cmd_start_ignores_unknown_keys() {
    let line = "CMD_START id=A session=B host=h cwd=/ started_at=0 \
                cmd=ls future_field=42 user=mim";
    let Request::CmdStart(e) = decode_request(line).unwrap() else {
        panic!("expected CmdStart");
    };
    assert_eq!(e.id, "A");
    assert_eq!(e.cmd, "ls");
}

#[test]
fn decode_cmd_start_tolerates_reordering() {
    let line = "CMD_START cmd=ls started_at=42 cwd=/ host=h session=B id=A";
    let Request::CmdStart(e) = decode_request(line).unwrap() else {
        panic!("expected CmdStart");
    };
    assert_eq!(e.id, "A");
    assert_eq!(e.session_id, "B");
    assert_eq!(e.cmd, "ls");
    assert_eq!(e.started_at_ms, 42);
}

#[test]
fn decode_cmd_start_rejects_missing_required_field() {
    let line = "CMD_START session=B host=h cwd=/ started_at=0 cmd=ls";
    assert!(matches!(
        decode_request(line),
        Err(ProtoError::Malformed(_))
    ));
}

#[test]
fn decode_cmd_end_rejects_bad_numeric() {
    let line = "CMD_END id=A finished_at=notanumber duration_ms=1 exit=0";
    assert!(matches!(
        decode_request(line),
        Err(ProtoError::Malformed(_))
    ));
}

#[test]
fn encode_decode_hello_response() {
    let resp = Response::Hello(PROTO_VERSION);
    let line = encode_response(&resp);
    assert_eq!(line, "HELLO 1");
    assert_eq!(decode_response(&line).unwrap(), resp);
}

#[test]
fn encode_decode_none_response() {
    let line = encode_response(&Response::Status(None));
    assert_eq!(line, "NONE");
    assert_eq!(decode_response(&line).unwrap(), Response::Status(None));
}

#[test]
fn encode_decode_ok_clean() {
    let status = fixture_status();
    let resp = Response::Status(Some(status.clone()));
    let line = encode_response(&resp);
    assert_eq!(
        line,
        "OK repo_name=chevron branch=master detached=false staged=0 modified=2 untracked=1 conflicted=0 ahead=3 behind=0 stashed=1"
    );
    let Response::Status(Some(parsed)) = decode_response(&line).unwrap() else {
        panic!("expected Status(Some)");
    };
    assert_eq!(parsed, status);
}

#[test]
fn encode_decode_ok_all_states() {
    for state in [
        OpState::Rebasing,
        OpState::Merging,
        OpState::CherryPick,
        OpState::Bisect,
    ] {
        let status = RepoStatus {
            state: Some(state),
            ..fixture_status()
        };
        let line = encode_response(&Response::Status(Some(status.clone())));
        let Response::Status(Some(parsed)) = decode_response(&line).unwrap() else {
            panic!("expected Status(Some)");
        };
        assert_eq!(parsed, status, "round-trip failed for state {state:?}");
    }
}

#[test]
fn encode_decode_ok_with_spaces_in_strings() {
    let status = RepoStatus {
        repo_name: "My Project".to_string(),
        branch: "feature/needs%escape".to_string(),
        detached: true,
        ..fixture_status()
    };
    let line = encode_response(&Response::Status(Some(status.clone())));
    assert!(
        line.contains("repo_name=My%20Project"),
        "expected encoded space: {line}"
    );
    assert!(
        line.contains("branch=feature/needs%25escape"),
        "expected encoded percent: {line}"
    );
    let Response::Status(Some(parsed)) = decode_response(&line).unwrap() else {
        panic!("expected Status(Some)");
    };
    assert_eq!(parsed, status);
}

#[test]
fn encode_decode_err_response() {
    let resp = Response::Error("repo not found".to_string());
    let line = encode_response(&resp);
    assert_eq!(line, "ERR repo%20not%20found");
    assert_eq!(decode_response(&line).unwrap(), resp);
}

#[test]
fn decode_response_ignores_unknown_kv_keys() {
    let line = "OK repo_name=x branch=y detached=false staged=0 modified=0 \
        untracked=0 conflicted=0 ahead=0 behind=0 stashed=0 \
        future_field=42 another=hello";
    let resp = decode_response(line).unwrap();
    let Response::Status(Some(s)) = resp else {
        panic!("expected Status(Some)");
    };
    assert_eq!(s.repo_name, "x");
    assert_eq!(s.branch, "y");
}

#[test]
fn decode_response_tolerates_field_reordering() {
    let line = "OK stashed=1 behind=0 ahead=3 conflicted=0 untracked=1 modified=2 \
        staged=0 detached=false branch=master repo_name=chevron";
    let Response::Status(Some(parsed)) = decode_response(line).unwrap() else {
        panic!("expected Status(Some)");
    };
    assert_eq!(parsed, fixture_status());
}

#[test]
fn decode_response_rejects_missing_required_field() {
    let line = "OK repo_name=x detached=false staged=0 modified=0 \
        untracked=0 conflicted=0 ahead=0 behind=0 stashed=0";
    assert!(matches!(
        decode_response(line),
        Err(ProtoError::Malformed(_))
    ));
}

#[test]
fn decode_response_rejects_malformed_kv() {
    let line = "OK repo_name x branch=y";
    assert!(matches!(
        decode_response(line),
        Err(ProtoError::Malformed(_))
    ));
}

#[test]
fn decode_response_rejects_unknown_state_token() {
    let line = "OK repo_name=x branch=y detached=false state=mystery staged=0 \
        modified=0 untracked=0 conflicted=0 ahead=0 behind=0 stashed=0";
    assert!(matches!(
        decode_response(line),
        Err(ProtoError::Malformed(_))
    ));
}

#[test]
fn decode_response_rejects_bad_bool() {
    let line = "OK repo_name=x branch=y detached=maybe staged=0 \
        modified=0 untracked=0 conflicted=0 ahead=0 behind=0 stashed=0";
    assert!(matches!(
        decode_response(line),
        Err(ProtoError::Malformed(_))
    ));
}

#[test]
fn decode_none_rejects_args() {
    assert!(matches!(
        decode_response("NONE extra"),
        Err(ProtoError::Malformed(_))
    ));
}

#[test]
fn encode_decode_ack_response() {
    let line = encode_response(&Response::Ack);
    assert_eq!(line, "ACK");
    assert_eq!(decode_response(&line).unwrap(), Response::Ack);
}

#[test]
fn decode_ack_rejects_args() {
    assert!(matches!(
        decode_response("ACK extra"),
        Err(ProtoError::Malformed(_))
    ));
}

#[test]
fn encode_decode_subscribe_no_filter() {
    let req = Request::Subscribe(SubscribeSpec { cwd: None });
    let line = encode_request(&req);
    assert_eq!(line, "SUBSCRIBE");
    assert_eq!(decode_request(&line).unwrap(), req);
}

#[test]
fn encode_decode_subscribe_with_cwd() {
    let req = Request::Subscribe(SubscribeSpec {
        cwd: Some("/Users/mim/src/chevron".to_string()),
    });
    let line = encode_request(&req);
    assert_eq!(line, "SUBSCRIBE cwd=/Users/mim/src/chevron");
    assert_eq!(decode_request(&line).unwrap(), req);
}

#[test]
fn encode_decode_subscribe_with_space_in_cwd() {
    let req = Request::Subscribe(SubscribeSpec {
        cwd: Some("/Users/mim/My Project".to_string()),
    });
    let line = encode_request(&req);
    assert!(line.contains("cwd=/Users/mim/My%20Project"));
    assert_eq!(decode_request(&line).unwrap(), req);
}

#[test]
fn decode_subscribe_ignores_unknown_keys() {
    let req = decode_request("SUBSCRIBE cwd=/x topics=git,cmd session=01HW").unwrap();
    let Request::Subscribe(spec) = req else {
        panic!("expected Subscribe");
    };
    assert_eq!(spec.cwd, Some("/x".to_string()));
}

#[test]
fn encode_decode_event_git_topic() {
    let resp = Response::Event(EventPayload {
        topic: "git".to_string(),
        cwd: Some("/repo".to_string()),
        id: None,
    });
    let line = encode_response(&resp);
    assert_eq!(line, "EVENT type=git cwd=/repo");
    assert_eq!(decode_response(&line).unwrap(), resp);
}

#[test]
fn encode_decode_event_cmd_topic() {
    let resp = Response::Event(EventPayload {
        topic: "cmd".to_string(),
        cwd: Some("/repo".to_string()),
        id: Some("01HW4ZAB12CDEFGHJKMNPQRSTV".to_string()),
    });
    let line = encode_response(&resp);
    assert_eq!(
        line,
        "EVENT type=cmd cwd=/repo id=01HW4ZAB12CDEFGHJKMNPQRSTV"
    );
    assert_eq!(decode_response(&line).unwrap(), resp);
}

#[test]
fn decode_event_rejects_missing_type() {
    assert!(matches!(
        decode_response("EVENT cwd=/x"),
        Err(ProtoError::Malformed(_))
    ));
}

#[test]
fn decode_event_ignores_unknown_keys() {
    let resp = decode_response("EVENT type=cmd id=x exit=0 duration_ms=42").unwrap();
    let Response::Event(e) = resp else {
        panic!("expected Event");
    };
    assert_eq!(e.topic, "cmd");
    assert_eq!(e.id.as_deref(), Some("x"));
}

#[test]
fn encode_decode_ping_response() {
    let resp = Response::Ping(1_716_350_000_000);
    let line = encode_response(&resp);
    assert_eq!(line, "PING 1716350000000");
    assert_eq!(decode_response(&line).unwrap(), resp);
}

#[test]
fn decode_ping_rejects_non_numeric() {
    assert!(matches!(
        decode_response("PING notanumber"),
        Err(ProtoError::Malformed(_))
    ));
}

#[test]
fn errors_are_told_in_words() {
    assert_eq!(ProtoError::Empty.to_text(), "empty line");
    let unknown = decode_request("FOO bar").unwrap_err().to_text();
    assert!(unknown.contains("FOO"), "got: {unknown}");
    let malformed = decode_request("QUIT now").unwrap_err().to_text();
    assert!(!malformed.is_empty());
}

#[test]
fn the_order_of_fields_and_unknown_keys_change_no_message() {
    let pairs = [
        ("CMD_START id=A session=B host=h cwd=/ started_at=42 cmd=ls", "CMD_START zz=1 cmd=ls cwd=/ id=A started_at=42 zz=2 host=h session=B"),
        ("CMD_END id=A finished_at=2 duration_ms=1 exit=0", "CMD_END exit=0 x=y duration_ms=1 finished_at=2 id=A"),
        ("SUBSCRIBE cwd=/a", "SUBSCRIBE x=y cwd=/a"),
    ];
    for (a, b) in pairs {
        assert_eq!(decode_request(a).unwrap(), decode_request(b).unwrap());
        for ending in ["\n", "\r\n"] {
            assert_eq!(decode_request(a).unwrap(), decode_request(&format!("{a}{ending}")).unwrap());
        }
    }
    assert!(decode_request("CMD_START id=A x=y").is_err());
    assert_eq!(
        decode_response("EVENT type=git cwd=/ id=A").unwrap(),
        decode_response("EVENT id=A x=y type=git cwd=/").unwrap()
    );
}
