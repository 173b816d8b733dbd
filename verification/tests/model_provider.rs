use ideal_harness::fetch::{check_fetch_proxy, fetch_outcome, host_of_provider};
use ideal_harness::model_provider::{
    chat_url, check_api_key, classify_http_error, consume_sse_lines, extract_delta,
    parse_sse_line, transport_error, ChatMessage, ChatReply, SseLine, ToolCallRequest,
};
use ideal_harness::protocol::{ErrorCode, ErrorEnvelope};

fn read(body: &str) -> Result<ChatReply, ErrorEnvelope> {
    consume_sse_lines(&body.lines().map(|line| line.to_string()).collect())
}

#[test]
fn parse_sse_line_classifies_all_shapes() {
    assert_eq!(parse_sse_line(""), SseLine::Ignore);
    assert_eq!(parse_sse_line(": keep-alive"), SseLine::Ignore);
    assert_eq!(parse_sse_line("event: message"), SseLine::Ignore);
    assert_eq!(parse_sse_line("id: 42"), SseLine::Ignore);
    assert_eq!(parse_sse_line("dat: x"), SseLine::Ignore);
    assert_eq!(parse_sse_line("data:[DONE]"), SseLine::Done);
    assert_eq!(parse_sse_line("data: [DONE]"), SseLine::Done);
    assert_eq!(
        parse_sse_line(r#"data: {"a":1}"#),
        SseLine::Data(r#"{"a":1}"#.into())
    );
}

#[test]
fn extract_delta_reads_content_and_finish_reason() {
    let d = extract_delta(r#"{"choices":[{"delta":{"content":"你好"},"finish_reason":null}]}"#)
        .unwrap();
    assert_eq!(d.content.as_deref(), Some("你好"));
    assert_eq!(d.finish_reason, None);
    assert!(d.tool_calls.is_empty());

    let d = extract_delta(r#"{"choices":[{"delta":{},"finish_reason":"stop"}]}"#).unwrap();
    assert_eq!(d.content, None);
    assert_eq!(d.finish_reason.as_deref(), Some("stop"));

    let d = extract_delta("{}").unwrap();
    assert_eq!(d.content, None);
    assert_eq!(d.finish_reason, None);
    assert!(d.tool_calls.is_empty());
}

#[test]
fn extract_delta_parses_tool_call_fragments() {
    let d = extract_delta(
        r#"{"choices":[{"delta":{"tool_calls":[{"index":0,"id":"call_1",
            "function":{"name":"echo","arguments":"{\"text\":"}}]}}]}"#,
    )
    .unwrap();
    assert_eq!(d.tool_calls.len(), 1);
    assert_eq!(d.tool_calls[0].index, 0);
    assert_eq!(d.tool_calls[0].id.as_deref(), Some("call_1"));
    let function = d.tool_calls[0].function.as_ref().unwrap();
    assert_eq!(function.name.as_deref(), Some("echo"));
    assert_eq!(function.arguments.as_deref(), Some(r#"{"text":"#));
}

#[test]
fn non_json_data_line_maps_to_model_stream_broken() {
    let err = extract_delta("<html>bad gateway</html>").unwrap_err();
    assert_eq!(err.code, ErrorCode::ModelStreamBroken);
}

#[test]
fn a_chunk_of_the_wrong_shape_is_a_broken_stream() {
    for chunk in [
        "[[],1]",
        "3",
        r#"{"choices":{}}"#,
        r#"{"choices":[[]]}"#,
        r#"{"choices":[[{}]]}"#,
        r#"{"choices":[[[],null]]}"#,
        r#"{"choices":[{"delta":{"content":3}}]}"#,
        r#"{"choices":[{"delta":{"tool_calls":[{"index":"a"}]}}]}"#,
    ] {
        assert_eq!(
            extract_delta(chunk).unwrap_err().code,
            ErrorCode::ModelStreamBroken,
            "chunk={chunk}"
        );
    }
}

#[test]
fn a_chunk_may_give_its_parts_in_order() {
    let empty = extract_delta("[]").unwrap();
    assert_eq!(empty, extract_delta("{}").unwrap());
    let by_name = extract_delta(
        r#"{"choices":[{"delta":{"content":"hi","tool_calls":[{"index":1,"id":"c",
            "function":{"name":"echo","arguments":"{}"}},{}]},"finish_reason":"stop"}]}"#,
    )
    .unwrap();
    let in_order =
        extract_delta(r#"[[[["hi",[[1,"c",["echo","{}"]],[]]],"stop"]]]"#).unwrap();
    assert_eq!(in_order, by_name);
    assert_eq!(in_order.tool_calls[1].index, 0);
    let text = extract_delta(r#"{"choices":[[["only text"],null]]}"#).unwrap();
    assert_eq!(text.content.as_deref(), Some("only text"));
    assert_eq!(text.finish_reason, None);
}

#[test]
fn a_chunk_without_a_count_of_tokens_is_read_all_the_same() {
    for usage in ["null", "{}", "[]", "7", r#"{"total_tokens":"7"}"#, r#"{"total_tokens":-1}"#] {
        let chunk = format!(r#"{{"choices":[{{"delta":{{"content":"hi"}}}}],"usage":{usage}}}"#);
        let d = extract_delta(&chunk).unwrap();
        assert_eq!(d.content.as_deref(), Some("hi"));
        assert_eq!(d.usage, None, "usage={usage}");
    }
    let d = extract_delta(r#"{"usage":{"total_tokens":7}}"#).unwrap();
    assert_eq!(d.usage.unwrap().total_tokens, 7);
}

#[test]
fn http_error_body_is_classified_by_structured_code_only() {
    let ctx = classify_http_error(
        400,
        r#"{"error":{"code":"context_length_exceeded","message":"太长了"}}"#,
    );
    assert_eq!(ctx.code, ErrorCode::ContextWindowExceeded);

    for body in [
        r#"{"error":{"code":"invalid_api_key","message":"x"}}"#,
        r#"{"error":{"code":305,"message":"x"}}"#,
        "upstream exploded",
    ] {
        let err = classify_http_error(400, body);
        assert_eq!(err.code, ErrorCode::Internal, "body={body}");
    }
}

#[test]
fn a_refusal_shows_the_start_of_its_body() {
    let long = "x".repeat(300);
    let err = classify_http_error(503, &long);
    assert_eq!(err.message, format!("上游 API 返回 HTTP 503: {}", "x".repeat(200)));
}

#[test]
fn client_rejects_blank_key_fail_closed() {
    let err = check_api_key("   ").unwrap_err();
    assert_eq!(err.code, ErrorCode::Internal);
    assert!(err.message.contains("为空"));
    assert!(check_api_key("k").is_ok());
}

#[test]
fn happy_path_aggregates_deltas_and_finish_reason() {
    let body = [
        r#"data: {"choices":[{"delta":{"role":"assistant"}}]}"#,
        "",
        r#"data: {"choices":[{"delta":{"content":"你好"}}]}"#,
        "",
        r#"data: {"choices":[{"delta":{"content":", world"},"finish_reason":null}]}"#,
        "",
        r#"data: {"choices":[{"delta":{},"finish_reason":"stop"}]}"#,
        "",
        r#"data: {"choices":[],"usage":{"total_tokens":37}}"#,
        "",
        "data: [DONE]",
        "",
    ]
    .join("\n");
    let reply = read(&body).unwrap();
    assert_eq!(reply.text, "你好, world");
    assert_eq!(reply.finish_reason.as_deref(), Some("stop"));
    assert_eq!(reply.usage.unwrap().total_tokens, 37);
}

#[test]
fn stream_without_done_sentinel_is_reported_as_truncated() {
    let body = "data: {\"choices\":[{\"delta\":{\"content\":\"半截\"}}]}\n\n";
    let err = read(body).unwrap_err();
    assert_eq!(err.code, ErrorCode::ModelStreamBroken);
    assert!(err.message.contains("[DONE]"), "{err:?}");
}

#[test]
fn non_json_data_line_is_model_stream_broken_not_skipped() {
    let body = "data: <html>bad gateway</html>\n\ndata: [DONE]\n\n";
    let err = read(body).unwrap_err();
    assert_eq!(err.code, ErrorCode::ModelStreamBroken);
}

#[test]
fn connection_cut_mid_body_is_model_stream_broken() {
    let err = read("data: {\"choi").unwrap_err();
    assert_eq!(err.code, ErrorCode::ModelStreamBroken);
    let err = transport_error(true, "unexpected end of file");
    assert_eq!(err.code, ErrorCode::ModelStreamBroken);
    assert_eq!(transport_error(false, "refused").code, ErrorCode::Internal);
}

#[test]
fn tool_call_fragments_are_aggregated_by_index() {
    let body = [
        r#"data: {"choices":[{"delta":{"tool_calls":[{"index":0,"id":"call_9","function":{"name":"echo","arguments":"{\"text\":"}}]}}]}"#,
        "",
        r#"data: {"choices":[{"delta":{"tool_calls":[{"index":0,"function":{"arguments":"\"hi\"}"}}]}}]}"#,
        "",
        r#"data: {"choices":[{"delta":{},"finish_reason":"tool_calls"}]}"#,
        "",
        "data: [DONE]",
        "",
    ]
    .join("\n");
    let reply = read(&body).unwrap();
    assert_eq!(reply.finish_reason.as_deref(), Some("tool_calls"));
    assert_eq!(reply.tool_calls.len(), 1);
    let tc = &reply.tool_calls[0];
    assert_eq!(tc.id, "call_9");
    assert_eq!(tc.name, "echo");
    assert_eq!(tc.arguments, r#"{"text":"hi"}"#);
}

#[test]
fn every_choice_of_a_chunk_has_to_be_readable() {
    let later = r#"{"choices":[{"delta":{"content":"a"}},{"delta":{"content":"b"}}]}"#;
    assert_eq!(extract_delta(later).unwrap().content.as_deref(), Some("a"));
    let broken = r#"{"choices":[{"delta":{"content":"a"}},{"delta":{"content":3}}]}"#;
    assert_eq!(extract_delta(broken).unwrap_err().code, ErrorCode::ModelStreamBroken);
    let none = extract_delta(r#"{"choices":[]}"#).unwrap();
    assert_eq!(none.content, None);
}

#[test]
fn the_first_id_and_name_of_a_call_stay() {
    let body = [
        r#"data: {"choices":[{"delta":{"tool_calls":[{"index":0,"id":"call_9","function":{"name":"echo","arguments":"{\"text\":"}}]}}]}"#,
        r#"data: {"choices":[{"delta":{"tool_calls":[{"index":0,"id":"call_10","function":{"name":"other","arguments":"\"hi\"}"}}]}}]}"#,
        "data: [DONE]",
    ]
    .join("\n");
    let reply = read(&body).unwrap();
    assert_eq!(reply.text, "");
    assert_eq!(
        reply.tool_calls,
        vec![ToolCallRequest {
            id: "call_9".into(),
            name: "echo".into(),
            arguments: r#"{"text":"hi"}"#.into(),
        }]
    );
}

#[test]
fn an_empty_id_or_name_leaves_room_for_a_later_one() {
    let body = [
        r#"data: {"choices":[{"delta":{"tool_calls":[{"index":0,"id":"","function":{"name":"","arguments":"{"}}]}}]}"#,
        r#"data: {"choices":[{"delta":{"tool_calls":[{"index":0,"id":"call_2","function":{"name":"echo","arguments":"}"}}]}}]}"#,
        "data: [DONE]",
    ]
    .join("\n");
    let calls = read(&body).unwrap().tool_calls;
    assert_eq!(calls.len(), 1);
    assert_eq!(calls[0].id, "call_2");
    assert_eq!(calls[0].name, "echo");
    assert_eq!(calls[0].arguments, "{}");
}

#[test]
fn tool_calls_come_out_in_the_order_of_their_indices() {
    let body = [
        r#"data: {"choices":[{"delta":{"tool_calls":[{"index":7,"id":"b","function":{"name":"two"}}]}}]}"#,
        r#"data: {"choices":[{"delta":{"tool_calls":[{"index":1,"id":"a","function":{"name":"one"}}]}}]}"#,
        "data: [DONE]",
    ]
    .join("\n");
    let ids: Vec<String> = read(&body).unwrap().tool_calls.into_iter().map(|c| c.id).collect();
    assert_eq!(ids, ["a", "b"]);
}

#[test]
fn lines_after_the_end_of_a_reply_are_not_read() {
    let body = "data: {\"choices\":[{\"delta\":{\"content\":\"a\"}}]}\ndata: [DONE]\ndata: broken";
    assert_eq!(read(body).unwrap().text, "a");
}

#[test]
fn the_chat_url_has_one_slash_between_its_parts() {
    assert_eq!(chat_url("https://api.example/v1/"), "https://api.example/v1/chat/completions");
    assert_eq!(chat_url("https://api.example/v1"), "https://api.example/v1/chat/completions");
}

#[test]
fn messages_carry_their_role() {
    let call = ToolCallRequest {
        id: "c1".into(),
        name: "echo".into(),
        arguments: "{}".into(),
    };
    assert_eq!(ChatMessage::system("s".into()).role, "system");
    assert_eq!(ChatMessage::user("u".into()).role, "user");
    let asking = ChatMessage::assistant_with_tool_calls(vec![call]);
    assert_eq!(asking.role, "assistant");
    assert_eq!(asking.tool_calls.unwrap().len(), 1);
    let answer = ChatMessage::tool_result("c1".into(), "done".into());
    assert_eq!(answer.role, "tool");
    assert_eq!(answer.tool_call_id.as_deref(), Some("c1"));
}

#[test]
fn truncates_body_at_hard_byte_limit() {
    let outcome = fetch_outcome(200, None, b"abcdefghij".to_vec(), 4);
    assert_eq!(outcome.body, b"abcd".to_vec());
    assert!(outcome.truncated);
    let whole = fetch_outcome(200, None, b"abcd".to_vec(), 4);
    assert_eq!(whole.body, b"abcd".to_vec());
    assert!(!whole.truncated);
}

#[test]
fn fetches_body_and_reports_status_without_following_redirects() {
    let outcome =
        fetch_outcome(301, Some("https://elsewhere/x".into()), Vec::new(), 64 * 1024);
    assert_eq!(outcome.status, 301);
    assert_eq!(outcome.location.as_deref(), Some("https://elsewhere/x"));
    assert!(outcome.body.is_empty());
    assert!(!outcome.truncated);
}

#[test]
fn non_loopback_proxy_is_rejected_before_any_request() {
    let error = check_fetch_proxy("http://proxy.example:3128").unwrap_err();
    assert_eq!(error.code, ErrorCode::SandboxDenied);
    assert!(check_fetch_proxy("http://127.0.0.1:9").is_ok());
    assert!(check_fetch_proxy("http://localhost:9").is_ok());
    assert!(check_fetch_proxy("https://127.0.0.1:9").is_err());
    assert_eq!(check_fetch_proxy("not a url").unwrap_err().code, ErrorCode::Internal);
}

#[test]
fn the_host_of_a_provider_is_read_from_its_url() {
    assert_eq!(host_of_provider("https://API.Example/v1").unwrap(), "api.example");
    assert_eq!(host_of_provider("data:x").unwrap_err(), "provider base_url 缺少主机名");
    assert!(host_of_provider("::").is_err());
}

#[test]
fn a_request_carries_the_whole_conversation() {
    let spec = ideal_harness::protocol::ModelCallSpec {
        model: "m".into(),
        base_url: "https://api.example/v1/".into(),
        temperature: None,
    };
    let messages = vec![
        ChatMessage::user("hi".into()),
        ChatMessage::assistant_with_tool_calls(vec![ToolCallRequest {
            id: "c1".into(),
            name: "echo".into(),
            arguments: "{}".into(),
        }]),
        ChatMessage::tool_result("c1".into(), "ok".into()),
    ];
    assert_eq!(
        ideal_harness::model_provider::chat_request(&spec, &messages, None).render(),
        concat_lines(&[
            r#"{"model":"m","messages":[{"role":"user","content":"hi"},"#,
            r#"{"role":"assistant","content":"","tool_calls":"#,
            r#"[{"id":"c1","name":"echo","arguments":"{}"}]},"#,
            r#"{"role":"tool","content":"ok","tool_call_id":"c1"}],"stream":true}"#,
        ])
    );
    let warm = ideal_harness::protocol::ModelCallSpec {
        model: "m".into(),
        base_url: "https://api.example/v1".into(),
        temperature: Some("0.5".into()),
    };
    let tools = ideal_harness::json::Json::Array(vec![]);
    assert_eq!(
        ideal_harness::model_provider::chat_request(&warm, &vec![], Some(&tools)).render(),
        r#"{"model":"m","messages":[],"stream":true,"temperature":0.5,"tools":[]}"#
    );
}

fn concat_lines(parts: &[&str]) -> String {
    parts.concat()
}
