use ideal_harness::http::{read_request, render_response, HttpResponse};
use ideal_harness::json::Json;
use ideal_harness::names::NameMap;
use ideal_harness::protocol::{ErrorCode, ErrorEnvelope, Event, SequencedEvent};
use ideal_harness::readonly_server::{
    capabilities, capabilities_response, check_bind, check_session_path, event_frames,
    event_response, next_generation, parse_args, route_with_generation, rpc_error_response,
    sse_body, timeline_page, timeline_response, timeline_value, BindAddress, Route,
};
use ideal_harness::session_rpc::{
    SessionEventQuery, SessionRpcCapabilities, SessionTimelinePage, SessionTimelineQuery,
    SessionTurnStatus, SessionTurnSummary,
};

fn texts(list: &[&str]) -> Vec<String> {
    list.iter().map(|text| text.to_string()).collect()
}

fn addresses() -> NameMap<BindAddress> {
    let mut found = NameMap::new();
    let mut stands_for = |text: &str, canonical: &str, loopback: bool| {
        found.insert(text.into(), BindAddress { text: canonical.into(), loopback });
    };
    stands_for("127.0.0.1:8765", "127.0.0.1:8765", true);
    stands_for("127.0.0.1:0", "127.0.0.1:0", true);
    stands_for("[::1]:0", "[::1]:0", true);
    stands_for("[0:0:0:0:0:0:0:1]:07", "[::1]:7", true);
    stands_for("0.0.0.0:0", "0.0.0.0:0", false);
    found
}

fn error_code(response: &HttpResponse) -> String {
    Json::parse(&response.body)
        .unwrap()
        .get("error")
        .and_then(|error| error.get("code"))
        .and_then(|code| code.as_text())
        .cloned()
        .unwrap()
}

fn turns() -> Vec<SessionTurnSummary> {
    vec![
        SessionTurnSummary {
            turn_id: 1,
            start_seq: 0,
            end_seq: Some(1),
            status: SessionTurnStatus::Completed,
        },
        SessionTurnSummary {
            turn_id: 2,
            start_seq: 2,
            end_seq: Some(3),
            status: SessionTurnStatus::Aborted,
        },
    ]
}

fn timeline_query(target: &str) -> SessionTimelineQuery {
    match route_with_generation("GET", target, None, 1).unwrap() {
        Route::Timeline(query) => query,
        other => panic!("expected a timeline, got {other:?}"),
    }
}

fn event_query(target: &str, last_event_id: Option<&str>) -> SessionEventQuery {
    match route_with_generation("GET", target, last_event_id, 1).unwrap() {
        Route::Events(query) => query,
        other => panic!("expected events, got {other:?}"),
    }
}

fn records(count: u64) -> Vec<SequencedEvent> {
    (0..count)
        .map(|seq| SequencedEvent { seq, event: Event::TurnStarted { turn_id: seq } })
        .collect()
}

fn seqs(query: &SessionEventQuery, count: u64) -> Result<Vec<u64>, ErrorEnvelope> {
    event_frames(query, 1, records(count))
        .map(|frames| frames.into_iter().map(|frame| frame.record.seq).collect())
}

#[test]
fn non_loopback_bind_and_missing_root_are_rejected() {
    let open = BindAddress { text: "0.0.0.0:0".into(), loopback: false };
    assert!(check_bind(&open, "root", true).is_err());
    let local = BindAddress { text: "127.0.0.1:0".into(), loopback: true };
    assert!(check_bind(&local, "root/missing", false).is_err());
    assert!(check_bind(&local, "root", true).is_ok());
}

#[test]
fn loopback_http_transport_serves_protocol_json() {
    let request = read_request(
        "GET /v1/sessions/demo/timeline?limit=1 HTTP/1.1\r\n",
        &texts(&["Host: localhost\r\n"]),
    )
    .unwrap();
    let query = match route_with_generation(&request.method, &request.target, None, 1).unwrap() {
        Route::Timeline(query) => query,
        other => panic!("expected a timeline, got {other:?}"),
    };
    let page = timeline_page(&turns(), &query, 1);
    let response = render_response(&timeline_response(&page));
    assert!(response.starts_with("HTTP/1.1 200 OK\r\n"));
    let body = response.split_once("\r\n\r\n").unwrap().1;
    let page = Json::parse(body).unwrap();
    assert_eq!(page.get("session_id").unwrap().as_text().unwrap(), "demo");
    match page.get("turns").unwrap() {
        Json::Array(turns) => {
            assert_eq!(turns.len(), 1);
            assert_eq!(turns[0].get("turn_id").unwrap().as_u64(), Some(1));
        }
        other => panic!("expected turns, got {other:?}"),
    }
}

#[test]
fn timeline_is_replayed_from_source_on_every_request() {
    let first = timeline_query("/v1/sessions/demo/timeline/?limit=1");
    let page = timeline_page(&turns()[..1].to_vec(), &first, 1).unwrap();
    assert_eq!(page.turns.len(), 1);
    assert_eq!(page.next_cursor, None);

    let second = timeline_query("/v1/sessions/demo/timeline/?cursor=1&limit=1");
    let page = timeline_page(&turns(), &second, 1).unwrap();
    assert_eq!(page.turns[0].turn_id, 2);
    assert_eq!(page.turns[0].status, SessionTurnStatus::Aborted);
}

#[test]
fn pages_put_together_give_the_timeline() {
    let all = turns();
    let mut seen = Vec::new();
    let mut target = "/v1/sessions/demo/timeline?limit=1".to_string();
    loop {
        let page = timeline_page(&all, &timeline_query(&target), 1).unwrap();
        seen.extend(page.turns);
        match page.next_cursor {
            Some(cursor) => {
                target = format!("/v1/sessions/demo/timeline?limit=1&cursor={cursor}");
            }
            None => break,
        }
    }
    assert_eq!(seen, all);
}

#[test]
fn sse_reconnect_from_last_seq_has_no_duplicate_or_gap() {
    let first = event_query("/v1/sessions/demo/events/", None);
    assert_eq!(seqs(&first, 2).unwrap(), vec![0, 1]);

    let resumed = event_query("/v1/sessions/demo/events/?last_seq=1", None);
    assert_eq!(seqs(&resumed, 4).unwrap(), vec![2, 3]);
    let by_header = event_query("/v1/sessions/demo/events/", Some("1"));
    assert_eq!(seqs(&by_header, 4).unwrap(), vec![2, 3]);
    let caught_up = event_query("/v1/sessions/demo/events/?last_seq=3", None);
    assert!(seqs(&caught_up, 4).unwrap().is_empty());
}

#[test]
fn bad_cursor_unknown_session_and_traversal_fail_closed() {
    let route = |target: &str| route_with_generation("GET", target, None, 1);
    let bad = route("/v1/sessions/demo/events/?last_seq=nope").unwrap_err();
    assert_eq!(bad.status, 400);
    assert_eq!(error_code(&bad), ErrorCode::CursorInvalid.wire_name());

    let ahead = event_query("/v1/sessions/demo/events/?last_seq=99", None);
    assert_eq!(seqs(&ahead, 2).unwrap_err().code, ErrorCode::CursorInvalid);

    let timeline_ahead = timeline_query("/v1/sessions/demo/timeline/?cursor=1&limit=1");
    let refused = timeline_page(&turns()[..1].to_vec(), &timeline_ahead, 1);
    assert_eq!(refused.as_ref().unwrap_err().code, ErrorCode::CursorInvalid);
    assert_eq!(timeline_response(&refused).status, 400);

    let missing = check_session_path("missing", false, Ok("/r".into()), Ok("/r/x".into()));
    let missing = rpc_error_response(&missing.unwrap_err());
    assert_eq!(missing.status, 404);
    assert_eq!(error_code(&missing), ErrorCode::SessionNotFound.wire_name());

    let traversal = route("/v1/sessions/../events/").unwrap_err();
    assert_eq!(traversal.status, 400);
    assert_eq!(error_code(&traversal), ErrorCode::CursorInvalid.wire_name());
}

#[test]
fn a_session_outside_the_root_is_refused() {
    let found = check_session_path("demo", true, Ok("/r".into()), Ok("/other/demo.jsonl".into()));
    assert_eq!(found.unwrap_err().code, ErrorCode::SandboxDenied);
    let found = check_session_path("demo", true, Ok("/r".into()), Ok("/r/demo.jsonl".into()));
    assert_eq!(found.unwrap(), "/r/demo.jsonl");
    let found = check_session_path("demo", true, Err("gone".into()), Ok("/r/demo.jsonl".into()));
    assert_eq!(found.unwrap_err().code, ErrorCode::Internal);
}

#[test]
fn write_methods_are_rejected_without_mutating_session() {
    let response =
        route_with_generation("POST", "/v1/sessions/demo/events/", None, 1).unwrap_err();
    assert_eq!(response.status, 405);
    assert_eq!(error_code(&response), ErrorCode::SandboxDenied.wire_name());
}

#[test]
fn cli_arguments_require_root_and_loopback_ip_address() {
    let parse = |list: &[&str]| parse_args(&texts(list), &addresses());
    assert!(parse(&[]).is_err());
    assert!(parse(&["--root"]).is_err());
    assert!(parse(&["--root", "sessions", "--bind", "localhost:1"]).is_err());
    let parsed = parse(&["--root", "sessions", "--bind", "[::1]:0"]).unwrap();
    assert!(parsed.bind.loopback);
    let parsed = parse(&["--root", "sessions", "--bind", "[0:0:0:0:0:0:0:1]:07"]).unwrap();
    assert_eq!(parsed.bind.text, "[::1]:7");
    let parsed = parse(&["--root", "sessions"]).unwrap();
    assert_eq!(parsed.bind.text, "127.0.0.1:8765");
}

#[test]
fn a_stale_generation_is_refused() {
    let target = "/v1/sessions/demo/events?generation=1";
    assert!(route_with_generation("GET", target, None, 1).is_ok());
    assert!(route_with_generation("GET", target, None, 2).is_err());
    assert_eq!(next_generation(1), Ok(2));
    assert!(next_generation(u64::MAX).is_err());
}

#[test]
fn frames_are_written_one_after_another() {
    let body = sse_body(&vec![(0, "{}".to_string()), (1, "[1]".to_string())]);
    assert_eq!(
        body,
        "id: 0\nevent: session_event\ndata: {}\n\nid: 1\nevent: session_event\ndata: [1]\n\n"
    );
    let response = event_response(Ok(body));
    assert_eq!(response.status, 200);
    assert_eq!(response.content_type, "text/event-stream");
}

#[test]
fn capabilities_are_read_only_and_generation_aware() {
    let found = capabilities(9);
    assert_eq!(
        found,
        SessionRpcCapabilities {
            connection_generation: 9,
            read_only: true,
            timeline: true,
            event_stream: true,
            last_event_id: true,
            follow_before_page: true,
            retry_business_errors: false,
        }
    );
    let shown = Json::parse(&capabilities_response(9).body).unwrap();
    assert_eq!(shown.get("connection_generation").unwrap().as_u64(), Some(9));
    for yes in ["read_only", "timeline", "event_stream", "last_event_id", "follow_before_page"] {
        assert_eq!(shown.get(yes), Some(&Json::Bool(true)), "{yes}");
    }
    assert_eq!(shown.get("retry_business_errors"), Some(&Json::Bool(false)));
}

#[test]
fn timeline_dtos_roundtrip_with_stable_status_and_cursor_fields() {
    let page = SessionTimelinePage {
        session_id: "demo".into(),
        connection_generation: 4,
        turns: vec![SessionTurnSummary {
            turn_id: 7,
            start_seq: 3,
            end_seq: Some(8),
            status: SessionTurnStatus::Completed,
        }],
        next_cursor: Some(1),
    };
    let json = timeline_value(&page).render();
    assert!(json.contains(r#""status":"completed""#));
    let shown = Json::parse(&json).unwrap();
    assert_eq!(shown.get("session_id").unwrap().as_text().unwrap(), "demo");
    assert_eq!(shown.get("connection_generation").unwrap().as_u64(), Some(4));
    assert_eq!(shown.get("next_cursor").unwrap().as_u64(), Some(1));
    match shown.get("turns").unwrap() {
        Json::Array(turns) => {
            assert_eq!(turns[0].get("turn_id").unwrap().as_u64(), Some(7));
            assert_eq!(turns[0].get("start_seq").unwrap().as_u64(), Some(3));
            assert_eq!(turns[0].get("end_seq").unwrap().as_u64(), Some(8));
        }
        other => panic!("expected turns, got {other:?}"),
    }
}

#[test]
fn rpc_errors_keep_new_stable_codes() {
    for (code, encoded) in [
        (ErrorCode::SessionNotFound, "session_not_found"),
        (ErrorCode::CursorInvalid, "cursor_invalid"),
    ] {
        assert_eq!(code.wire_name(), encoded);
        let response = rpc_error_response(&ErrorEnvelope::of(code, "human-readable only"));
        assert_eq!(error_code(&response), encoded);
        let body = Json::parse(&response.body).unwrap();
        assert_eq!(
            body.get("error").unwrap().get("message").unwrap().as_text().unwrap(),
            "human-readable only"
        );
        assert_eq!(body.get("retryable"), Some(&Json::Bool(false)));
    }
}

#[test]
fn requests_carry_the_last_event_id() {
    let request = read_request(
        "GET /v1/capabilities HTTP/1.1\r\n",
        &texts(&["Host: x\r\n", "Last-Event-ID: 12\r\n"]),
    )
    .unwrap();
    assert_eq!(request.last_event_id.as_deref(), Some("12"));
    assert!(read_request("GET /x\r\n", &texts(&[])).is_err());
    assert!(read_request("GET /x HTTP/2\r\n", &texts(&[])).is_err());
}
