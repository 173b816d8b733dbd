use ideal_harness::chat_turn::NoEvents;
use ideal_harness::exec_tool::exec_tool_spec;
use ideal_harness::host::{
    advertise, build_agent_loop, default_loop_guard, inject_memories, memory_tool_spec, memory_write,
    openai_tools_json, prepare_session, rebuild_history, recover_dangling_turn, AdvertisedTool,
    HostConfig, MemoryLimit, MemorySummary, ProductionResultMiddleware, SurfaceProjection,
    ToolSource, RESULT_PREVIEW_CHARS,
};
use ideal_harness::json::Json;
use ideal_harness::model_provider::{ChatMessage, ChatModel, ChatReply};
use ideal_harness::protocol::{
    ErrorCode, ErrorEnvelope, Event, MemoryScope, MemorySource, ModelCallSpec, ModelSurfaceEntry, ModelSurfaceMessage,
    ModelToolCall, SequencedEvent, ToolOutcome,
};
use ideal_harness::result_guard::{
    ToolResultContext, ToolResultDecision, ToolResultMiddleware,
};
use ideal_harness::session::{MemorySession, SessionStore};
use ideal_harness::tools::{check_arguments, ToolAudit, ToolDispatcher, ToolExecution, ToolSpec};

fn config() -> HostConfig {
    HostConfig::in_directory("/ws".into())
}

fn canonical() -> Result<String, String> {
    Ok("/canonical/ws".into())
}

#[test]
fn config_validation_canonicalizes_workspace_and_rejects_bad_boundaries() {
    let validated = config().validate(canonical(), Err("no plugins".into())).unwrap();
    assert_eq!(validated.workspace, "/canonical/ws");
    assert_eq!(validated.plugin_root, None);

    let mut bad_url = config();
    bad_url.base_url = "http://example.com/v1".into();
    assert!(bad_url.validate(canonical(), Err("unused".into())).is_err());
    let missing_workspace = config().validate(Err("not found".into()), Err("unused".into()));
    assert_eq!(
        missing_workspace.unwrap_err(),
        "workspace does not exist or is inaccessible: /ws (not found)"
    );
}

#[test]
fn only_https_providers_with_a_model_are_accepted() {
    let mut found = config();
    found.base_url = "https://api.example/v1".into();
    assert!(found.validate(canonical(), Err("unused".into())).is_ok());
    for url in ["http://127.0.0.1:9/v1", "ftp://api.example", "data:x"] {
        let mut found = config();
        found.base_url = url.into();
        assert_eq!(
            found.validate(canonical(), Err("unused".into())).unwrap_err(),
            "provider base_url must be an https URL with a host",
            "{url}"
        );
    }
    let mut found = config();
    found.base_url = "not a url".into();
    assert!(found.validate(canonical(), Err("unused".into())).is_err());
    let mut found = config();
    found.model = " ".into();
    assert_eq!(
        found.validate(canonical(), Err("unused".into())).unwrap_err(),
        "model must not be blank"
    );
    let mut found = config();
    found.plugin_root = Some("/plugins".into());
    assert_eq!(
        found.validate(canonical(), Err("gone".into())).unwrap_err(),
        "plugin root does not exist or is inaccessible: /plugins (gone)"
    );
}

#[test]
fn result_middleware_rejects_zero_budget() {
    assert!(ProductionResultMiddleware::with_max_result_bytes(0).is_err());
}

fn data_result(data: String) -> ToolOutcome {
    ToolOutcome::Success { value: Json::Object(vec![("data".into(), Json::Text(data))]) }
}

fn inspect(middleware: &ProductionResultMiddleware, outcome: &ToolOutcome) -> ToolResultDecision {
    middleware
        .inspect(&ToolResultContext { call_id: "c1", tool: "fs_read", outcome })
        .unwrap()
}

#[test]
fn production_middleware_redacts_oversized_results() {
    let middleware = ProductionResultMiddleware::with_max_result_bytes(32).unwrap();
    match inspect(&middleware, &data_result("x".repeat(128))) {
        ToolResultDecision::Redact(ToolOutcome::Success { value }) => {
            assert_eq!(value.get("truncated_by_result_guard"), Some(&Json::Bool(true)));
            assert!(value.get("original_bytes").unwrap().as_u64().unwrap() > 32);
        }
        other => panic!("expected redaction, got {other:?}"),
    }
    assert!(matches!(
        inspect(&middleware, &data_result("tiny".into())),
        ToolResultDecision::Allow
    ));
}

#[test]
fn a_redacted_result_keeps_a_preview() {
    let middleware = ProductionResultMiddleware::with_max_result_bytes(32).unwrap();
    match inspect(&middleware, &data_result("y".repeat(5000))) {
        ToolResultDecision::Redact(ToolOutcome::Success { value }) => {
            let preview = value.get("preview").unwrap().as_text().unwrap();
            assert_eq!(preview.chars().count(), RESULT_PREVIEW_CHARS);
            assert!(preview.starts_with("{\"data\":\"yyy"));
        }
        other => panic!("expected redaction, got {other:?}"),
    }
}

#[test]
fn dangling_turn_recovered_on_reopen_then_noop() {
    let mut session = MemorySession::new();
    session.append(Event::TurnStarted { turn_id: 0 }).unwrap();
    session.append(Event::UserMessage { text: "hi".into() }).unwrap();
    assert!(recover_dangling_turn(&mut session).unwrap());
    match &session.records().last().unwrap().event {
        Event::TurnAborted { turn_id, reason } => {
            assert_eq!(*turn_id, 0);
            assert!(reason.contains("interrupted"));
        }
        other => panic!("expected turn_aborted, got {other:?}"),
    }
    assert!(!recover_dangling_turn(&mut session).unwrap());
}

#[test]
fn finished_turn_not_recovered() {
    let mut session = MemorySession::new();
    session.append(Event::TurnStarted { turn_id: 1 }).unwrap();
    session.append(Event::TurnCompleted { turn_id: 1 }).unwrap();
    assert!(!recover_dangling_turn(&mut session).unwrap());
    assert!(!recover_dangling_turn(&mut MemorySession::new()).unwrap());
}

fn entry(message: ModelSurfaceMessage) -> ModelSurfaceEntry {
    ModelSurfaceEntry { message, source_event_seqs: vec![] }
}

#[test]
fn rebuild_history_ignores_non_surface_stream_events() {
    let h = rebuild_history(Ok(vec![
        entry(ModelSurfaceMessage::User { text: "q".into() }),
        entry(ModelSurfaceMessage::Assistant { text: "a".into() }),
    ]))
    .unwrap();
    assert_eq!(
        h,
        vec![ChatMessage::user("q".into()), ChatMessage::assistant("a".into())]
    );
}

#[test]
fn rebuild_history_restores_tools_and_exact_compaction_without_audit_hooks() {
    let model_outcome = ToolOutcome::Success { value: Json::Text("ok".into()) };
    let history = rebuild_history(Ok(vec![
        entry(ModelSurfaceMessage::SystemSummary {
            text: "Compacted conversation summary:\nolder context".into(),
        }),
        entry(ModelSurfaceMessage::User { text: "q".into() }),
        entry(ModelSurfaceMessage::AssistantToolCalls {
            request_id: "r1".into(),
            calls: vec![ModelToolCall {
                id: "c1".into(),
                name: "lookup".into(),
                arguments: r#"{"q":"rust"}"#.into(),
            }],
        }),
        entry(ModelSurfaceMessage::ToolResult {
            call_id: "c1".into(),
            outcome: model_outcome.clone(),
        }),
        entry(ModelSurfaceMessage::Assistant { text: "done".into() }),
    ]))
    .unwrap();
    assert_eq!(history.len(), 5);
    assert_eq!(
        history[0],
        ChatMessage::system("Compacted conversation summary:\nolder context".into())
    );
    assert_eq!(history[1], ChatMessage::user("q".into()));
    assert_eq!(history[2].tool_calls.as_ref().unwrap()[0].id, "c1");
    assert_eq!(
        history[3],
        ChatMessage::tool_result("c1".into(), model_outcome.to_json().render())
    );
    assert_eq!(history[4], ChatMessage::assistant("done".into()));
}

#[test]
fn a_projection_that_fails_is_reported_with_its_code() {
    let refused = rebuild_history(Err(ErrorEnvelope::of(ErrorCode::Internal, "broken pair")));
    assert_eq!(
        refused.unwrap_err(),
        "model surface projection failed (Internal): broken pair"
    );
}

struct DemoTools;

impl ToolSource for DemoTools {
    fn advertised(&self, name: &str) -> Option<AdvertisedTool> {
        if name == "echo" || name == "now" {
            Some(AdvertisedTool {
                name: name.into(),
                description: "demo".into(),
                parameters: Json::parse("{\"type\":\"object\"}")
                    .map_err(|e| ErrorEnvelope::new(ErrorCode::Internal, e)),
            })
        } else {
            None
        }
    }
}

#[test]
fn openai_tools_json_wraps_registered_specs() {
    let v = openai_tools_json(&DemoTools, &vec!["echo".into(), "now".into()]).unwrap();
    let tools = match v {
        Json::Array(tools) => tools,
        other => panic!("expected an array, got {other:?}"),
    };
    assert_eq!(tools.len(), 2);
    let name = |tool: &Json| {
        tool.get("function").unwrap().get("name").unwrap().as_text().unwrap().clone()
    };
    assert_eq!(tools[0].get("type").unwrap().as_text().unwrap(), "function");
    assert_eq!(name(&tools[0]), "echo");
    assert_eq!(name(&tools[1]), "now");
}

struct ExecTool {
    restricted_backend: bool,
}

impl ToolSource for ExecTool {
    fn advertised(&self, name: &str) -> Option<AdvertisedTool> {
        let spec = exec_tool_spec();
        if spec.name == name {
            Some(advertise(&spec, self.restricted_backend))
        } else {
            None
        }
    }
}

fn exec_properties(restricted_backend: bool) -> Json {
    let tools = openai_tools_json(&ExecTool { restricted_backend }, &vec!["exec".into()]).unwrap();
    match tools {
        Json::Array(tools) => tools[0]
            .get("function")
            .unwrap()
            .get("parameters")
            .unwrap()
            .get("properties")
            .unwrap()
            .clone(),
        other => panic!("expected an array, got {other:?}"),
    }
}

#[test]
fn restricted_exec_advertises_paired_escalation_fields() {
    let properties = exec_properties(true);
    assert!(properties.get("sandbox_permissions").is_some());
    assert!(properties.get("justification").is_some());
    assert!(properties.get("program").is_some());
}

#[test]
fn without_a_restricted_backend_no_escalation_is_advertised() {
    let properties = exec_properties(false);
    assert_eq!(properties.get("sandbox_permissions"), None);
    assert_eq!(properties.get("justification"), None);
    assert!(properties.get("program").is_some());
}

#[test]
fn a_tool_that_never_escalates_is_advertised_as_it_is() {
    let spec = memory_tool_spec();
    let shown = advertise(&spec, true);
    assert_eq!(shown.parameters.unwrap(), spec.parameters_schema);
}

struct SmallMemories;

impl MemoryLimit for SmallMemories {
    fn validate_memory_size(&self, text: &str) -> Result<(), ErrorEnvelope> {
        if text.len() > 64 {
            Err(ErrorEnvelope::of(ErrorCode::ToolArgsInvalid, "memory too large"))
        } else {
            Ok(())
        }
    }
}

struct Memories;

impl MemorySummary for Memories {
    fn injection_summary(&self, events: &Vec<SequencedEvent>) -> Result<Option<String>, String> {
        let texts: Vec<&str> = events
            .iter()
            .filter_map(|record| match &record.event {
                Event::MemoryRecorded { text, .. } => Some(text.as_str()),
                _ => None,
            })
            .collect();
        if texts.is_empty() {
            Ok(None)
        } else {
            Ok(Some(format!("Known persistent memories:\n{}", texts.join("\n"))))
        }
    }
}

struct Surface;

impl SurfaceProjection for Surface {
    fn project_model_surface(
        &self,
        events: &Vec<SequencedEvent>,
    ) -> Result<Vec<ModelSurfaceEntry>, ErrorEnvelope> {
        Ok(events
            .iter()
            .filter_map(|record| match &record.event {
                Event::MemoryContextInjected { summary } => {
                    Some(entry(ModelSurfaceMessage::SystemSummary { text: summary.clone() }))
                }
                Event::UserMessage { text } => {
                    Some(entry(ModelSurfaceMessage::User { text: text.clone() }))
                }
                _ => None,
            })
            .collect())
    }
}

fn memory_args(text: &str) -> Json {
    Json::Object(vec![
        ("text".into(), Json::Text(text.into())),
        ("tags".into(), Json::Array(vec![Json::Text("lang".into())])),
    ])
}

#[test]
fn memory_write_event_injection_and_rebuild_roundtrip() {
    let result = memory_write(&memory_args("用户偏好 Rust"), &SmallMemories);
    assert!(matches!(result.outcome, ToolOutcome::Success { .. }));
    assert_eq!(
        result.audits,
        vec![ToolAudit::MemoryRecorded {
            text: "用户偏好 Rust".into(),
            tags: vec!["lang".into()],
            source: MemorySource::Model,
            scope: MemoryScope::LineageOnly,
        }]
    );

    let mut session = MemorySession::new();
    session
        .append(Event::MemoryRecorded {
            memory_id: "mem-0".into(),
            text: "用户偏好 Rust".into(),
            tags: vec!["lang".into()],
        })
        .unwrap();
    assert!(inject_memories(&mut session, &Memories).unwrap());
    assert!(!inject_memories(&mut session, &Memories).unwrap());

    let blank = memory_write(&memory_args("  "), &SmallMemories);
    match blank.outcome {
        ToolOutcome::Failure { error } => assert_eq!(error.code, ErrorCode::ToolArgsInvalid),
        other => panic!("expected blank rejection, got {other:?}"),
    }
    assert!(blank.audits.is_empty());

    let prepared = prepare_session(&mut session, &Memories, &Surface).unwrap();
    assert!(!prepared.memories_injected);
    assert!(prepared.history[0].content.contains("Known persistent memories"));
    assert!(prepared.history[0].content.contains("用户偏好 Rust"));
}

#[test]
fn a_memory_over_the_limit_is_refused() {
    let refused = memory_write(&memory_args(&"m".repeat(65)), &SmallMemories);
    assert!(refused.audits.is_empty());
    match refused.outcome {
        ToolOutcome::Failure { error } => assert_eq!(error.message, "memory too large"),
        other => panic!("expected a refusal, got {other:?}"),
    }
    assert_eq!(memory_tool_spec().name, "memory_write");
}

#[test]
fn a_session_is_prepared_once() {
    let mut session = MemorySession::new();
    session
        .append(Event::MemoryRecorded {
            memory_id: "mem-0".into(),
            text: "用户偏好 Rust".into(),
            tags: vec![],
        })
        .unwrap();
    session.append(Event::TurnStarted { turn_id: 1 }).unwrap();
    let first = prepare_session(&mut session, &Memories, &Surface).unwrap();
    assert!(first.recovered_dangling_turn);
    assert!(first.memories_injected);
    let kept: Vec<Event> =
        session.records().iter().map(|record| record.event.clone()).skip(2).collect();
    assert_eq!(kept.len(), 2);
    assert_eq!(
        kept[0],
        Event::TurnAborted { turn_id: 1, reason: "interrupted: session reopened".into() }
    );
    assert!(matches!(
        &kept[1],
        Event::MemoryContextInjected { summary } if summary.contains("用户偏好 Rust")
    ));

    let again = prepare_session(&mut session, &Memories, &Surface).unwrap();
    assert!(!again.recovered_dangling_turn);
    assert!(!again.memories_injected);
    assert_eq!(session.records().len(), 4);
}

#[test]
fn a_prepared_session_has_no_open_turn() {
    let mut session = MemorySession::new();
    session.append(Event::TurnStarted { turn_id: 4 }).unwrap();
    session.append(Event::UserMessage { text: "hi".into() }).unwrap();
    let prepared = prepare_session(&mut session, &Memories, &Surface).unwrap();
    assert!(prepared.recovered_dangling_turn);
    assert_eq!(prepared.history, vec![ChatMessage::user("hi".into())]);
    assert!(matches!(
        session.records().last().unwrap().event,
        Event::TurnAborted { turn_id: 4, .. }
    ));
}

struct NoTools;

impl ToolDispatcher for NoTools {
    fn dispatch_with_audit(&self, _: &str, _: &Json) -> Option<ToolExecution> {
        None
    }

    fn is_plugin_tool(&self, _: &str) -> bool {
        false
    }
}

struct ImmediateText;

impl ChatModel for ImmediateText {
    fn stream_chat(
        &self,
        spec: &ModelCallSpec,
        _: &Vec<ChatMessage>,
        _: Option<&Json>,
    ) -> Result<ChatReply, ErrorEnvelope> {
        assert_eq!(spec.model, "deepseek-chat");
        Ok(ChatReply {
            text: "ok".into(),
            finish_reason: Some("stop".into()),
            tool_calls: vec![],
            usage: None,
        })
    }
}

#[test]
fn a_production_loop_answers_with_its_history() {
    let validated = config().validate(canonical(), Err("unused".into())).unwrap();
    let middleware = ProductionResultMiddleware::default();
    let mut session = MemorySession::new();
    let mut agent = build_agent_loop(
        &validated,
        &mut session,
        &NoTools,
        &ImmediateText,
        &middleware,
        Json::Array(vec![]),
        vec![ChatMessage::user("before".into())],
        &NoEvents,
    );
    agent.inbox.push("again".into());
    assert_eq!(agent.run_turn(), 1);
    assert_eq!(agent.chat_history.len(), 3);
    assert_eq!(agent.chat_history[2], ChatMessage::assistant("ok".into()));
    let guard = default_loop_guard();
    assert_eq!((guard.remind_after, guard.reject_after), (3, 8));
}

#[test]
fn a_call_needs_the_arguments_of_its_tool() {
    let spec = |schema: &str| ToolSpec {
        name: "t".into(),
        description: String::new(),
        parameters_schema: Json::parse(schema).unwrap(),
        escalation_capable: false,
        timeout_ms: None,
    };
    let two = spec(r#"{"required":["a","b"]}"#);
    assert!(check_arguments(&two, &Json::parse(r#"{"b":1,"a":null}"#).unwrap()).is_ok());
    for (args, missing) in [(r#"{"a":1}"#, "b"), ("{}", "a"), ("[1,2]", "a")] {
        let refused = check_arguments(&two, &Json::parse(args).unwrap()).unwrap_err();
        assert_eq!(refused.code, ErrorCode::ToolArgsInvalid);
        assert_eq!(refused.message, format!("missing required argument: {missing}"));
    }
    for schema in ["{}", "null", r#"{"required":[]}"#, r#"{"required":[3]}"#] {
        assert!(check_arguments(&spec(schema), &Json::Null).is_ok(), "schema={schema}");
    }
}
