use ideal_harness::agent_loop::{AgentLoop, ModelProvider, Phase};
use ideal_harness::budget_ledger::BudgetLedger;
use ideal_harness::chat_turn::EventSource;
use ideal_harness::compaction::{SummaryProvider, ToolResultPruner, TwoStageCompactor};
use ideal_harness::history::OverflowRecovery;
use ideal_harness::json::Json;
use ideal_harness::loop_guard::{judge, CallTracker, LoopGuard, LoopVerdict};
use ideal_harness::mcp_bridge::{McpCallResult, McpCaller, McpInvocation, SpillSink};
use ideal_harness::model_provider::{ChatMessage, ChatModel, ChatReply, ToolCallRequest};
use ideal_harness::protocol::{
    ErrorCode, ErrorEnvelope, Event, MemoryScope, MemorySource, ModelCallSpec, ModelTokenUsage, TokenUsageSource, ToolOutcome,
};
use ideal_harness::result_guard::{
    ToolResultContext, ToolResultDecision, ToolResultMiddleware,
};
use ideal_harness::session::MemorySession;
use ideal_harness::tools::{ToolAudit, ToolDispatcher, ToolExecution};
use std::cell::{Cell, RefCell};

struct Echo;

impl ModelProvider for Echo {
    fn complete(&self, user_text: &str) -> Result<String, ErrorEnvelope> {
        Ok(format!("echo: {user_text}"))
    }
}

struct Broken;

impl ModelProvider for Broken {
    fn complete(&self, _: &str) -> Result<String, ErrorEnvelope> {
        Err(ErrorEnvelope::of(ErrorCode::ModelStreamBroken, "stream cut"))
    }
}

struct Unused;

impl ModelProvider for Unused {
    fn complete(&self, _: &str) -> Result<String, ErrorEnvelope> {
        panic!("the model must not run")
    }
}

struct NoTools;

impl ToolDispatcher for NoTools {
    fn dispatch_with_audit(&self, _: &str, _: &Json) -> Option<ToolExecution> {
        None
    }

    fn is_plugin_tool(&self, _: &str) -> bool {
        false
    }
}

struct OneTool<F> {
    name: &'static str,
    plugin: bool,
    run: F,
}

impl<F: Fn(&Json) -> ToolExecution> ToolDispatcher for OneTool<F> {
    fn dispatch_with_audit(&self, name: &str, args: &Json) -> Option<ToolExecution> {
        if name == self.name {
            Some((self.run)(args))
        } else {
            None
        }
    }

    fn is_plugin_tool(&self, name: &str) -> bool {
        self.plugin && name == self.name
    }
}

fn text_of(args: &Json) -> Json {
    args.get("text").cloned().unwrap_or(Json::Null)
}

fn success(value: Json) -> ToolExecution {
    ToolExecution::new(ToolOutcome::Success { value })
}

fn echo_tool() -> OneTool<impl Fn(&Json) -> ToolExecution> {
    OneTool { name: "echo", plugin: false, run: |args: &Json| success(text_of(args)) }
}

fn chat_spec() -> ModelCallSpec {
    ModelCallSpec {
        model: "mock-model".into(),
        base_url: "http://localhost".into(),
        temperature: None,
    }
}

fn calling(text: &str, id: &str, name: &str, arguments: &str) -> ChatReply {
    ChatReply {
        text: text.into(),
        finish_reason: Some("tool_calls".into()),
        tool_calls: vec![ToolCallRequest {
            id: id.into(),
            name: name.into(),
            arguments: arguments.into(),
        }],
        usage: None,
    }
}

fn saying(text: &str) -> ChatReply {
    ChatReply {
        text: text.into(),
        finish_reason: Some("stop".into()),
        tool_calls: vec![],
        usage: None,
    }
}

fn tool_reply() -> ChatReply {
    calling("让我查一下", "call_1", "echo", r#"{"text":"hi"}"#)
}

fn text_reply() -> ChatReply {
    saying("结果是 hi")
}

/// A model that gives its replies in order and keeps what it was shown.
struct Scripted {
    replies: RefCell<Vec<ChatReply>>,
    seen: RefCell<Vec<Vec<ChatMessage>>>,
}

fn scripted(mut replies: Vec<ChatReply>) -> Scripted {
    replies.reverse();
    Scripted { replies: RefCell::new(replies), seen: RefCell::new(vec![]) }
}

impl ChatModel for Scripted {
    fn stream_chat(
        &self,
        _: &ModelCallSpec,
        messages: &Vec<ChatMessage>,
        _: Option<&Json>,
    ) -> Result<ChatReply, ErrorEnvelope> {
        self.seen.borrow_mut().push(messages.clone());
        Ok(self.replies.borrow_mut().pop().expect("a reply is left"))
    }
}

/// A model that answers by the number of the sample.
struct Numbered<F> {
    samples: Cell<usize>,
    reply: F,
}

fn numbered<F: Fn(usize) -> Result<ChatReply, ErrorEnvelope>>(reply: F) -> Numbered<F> {
    Numbered { samples: Cell::new(0), reply }
}

impl<F: Fn(usize) -> Result<ChatReply, ErrorEnvelope>> ChatModel for Numbered<F> {
    fn stream_chat(
        &self,
        _: &ModelCallSpec,
        _: &Vec<ChatMessage>,
        _: Option<&Json>,
    ) -> Result<ChatReply, ErrorEnvelope> {
        let n = self.samples.get();
        self.samples.set(n + 1);
        (self.reply)(n)
    }
}

fn events(session: &MemorySession) -> Vec<Event> {
    session.records().iter().map(|record| record.event.clone()).collect()
}

fn outcomes(events: &[Event]) -> Vec<ToolOutcome> {
    events
        .iter()
        .filter_map(|event| match event {
            Event::ToolResultAdded { outcome, .. } => Some(outcome.clone()),
            _ => None,
        })
        .collect()
}

fn requested(events: &[Event]) -> Vec<String> {
    events
        .iter()
        .filter_map(|event| match event {
            Event::ToolCallRequested { call_id, .. } => Some(call_id.clone()),
            _ => None,
        })
        .collect()
}

fn answered(events: &[Event]) -> Vec<String> {
    events
        .iter()
        .filter_map(|event| match event {
            Event::ToolResultAdded { call_id, .. } => Some(call_id.clone()),
            _ => None,
        })
        .collect()
}

fn kind(event: &Event) -> &'static str {
    match event {
        Event::TurnStarted { .. } => "turn_started",
        Event::UserMessage { .. } => "user_message",
        Event::AssistantMessage { .. } => "assistant_message",
        Event::ModelChunkReceived { .. } => "model_chunk",
        Event::ToolCallRequested { .. } => "tool_call_requested",
        Event::ToolResultAdded { .. } => "tool_result_added",
        Event::ModelToolCallsRequested { .. } => "model_tool_calls_requested",
        Event::CompactionApplied { .. } => "compaction",
        Event::TokenUsageRecorded { .. } => "token_usage_recorded",
        Event::TurnCompleted { .. } => "turn_completed",
        Event::TurnAborted { .. } => "turn_aborted",
        _ => "other",
    }
}

#[test]
fn happy_turn_appends_full_lifecycle() {
    let mut session = MemorySession::new();
    let mut agent = AgentLoop::new(&mut session, &NoTools, &Echo);
    agent.inbox.push("你好".into());
    assert_eq!(agent.run_turn(), 1);
    assert_eq!(agent.phase, Phase::Idle);

    let kinds: Vec<&str> = events(&session).iter().map(kind).collect();
    assert_eq!(
        kinds,
        vec![
            "turn_started",
            "user_message",
            "token_usage_recorded",
            "assistant_message",
            "turn_completed",
        ]
    );
}

#[test]
fn happy_turn_uses_the_same_loop_with_an_in_memory_store() {
    let mut memory = MemorySession::new();
    let mut agent = AgentLoop::new(&mut memory, &NoTools, &Echo);
    agent.inbox.push("你好".into());
    assert_eq!(agent.run_turn(), 1);
    assert_eq!(agent.phase, Phase::Idle);

    assert_eq!(memory.records().len(), 5);
    assert_eq!(
        memory.records().last().unwrap().event,
        Event::TurnCompleted { turn_id: 0 }
    );
}

fn texts_of(log: &[Event]) -> (Vec<&str>, Vec<&str>) {
    let asked = log.iter().filter_map(|event| match event {
        Event::UserMessage { text } => Some(text.as_str()),
        _ => None,
    });
    let told = log.iter().filter_map(|event| match event {
        Event::AssistantMessage { text } => Some(text.as_str()),
        _ => None,
    });
    (asked.collect(), told.collect())
}

fn usage_ids(log: &[Event]) -> Vec<&str> {
    log.iter()
        .filter_map(|event| match event {
            Event::TokenUsageRecorded { usage_id, .. } => Some(usage_id.as_str()),
            _ => None,
        })
        .collect()
}

#[test]
fn every_message_of_a_turn_is_answered() {
    let mut session = MemorySession::new();
    let mut agent = AgentLoop::new(&mut session, &NoTools, &Echo);
    agent.inbox.push("a".into());
    agent.inbox.push("b".into());
    agent.inbox.push("c".into());
    assert_eq!(agent.run_turn(), 3);
    assert_eq!(agent.phase, Phase::Idle);

    let log = events(&session);
    assert_eq!(log.last(), Some(&Event::TurnCompleted { turn_id: 0 }));
    assert_eq!(texts_of(&log), (vec!["a", "b", "c"], vec!["echo: a", "echo: b", "echo: c"]));
    assert_eq!(
        usage_ids(&log),
        ["turn-0-legacy", "turn-0-message-1-legacy", "turn-0-message-2-legacy"]
    );
}

#[test]
fn every_message_of_a_turn_with_tools_is_answered() {
    let mut session = MemorySession::new();
    let tools = echo_tool();
    let model = scripted(vec![saying("one"), tool_reply(), saying("two")]);
    let mut agent = AgentLoop::with_chat(&mut session, &tools, &model, chat_spec());
    agent.inbox.push("a".into());
    agent.inbox.push("b".into());
    assert_eq!(agent.run_turn(), 2);

    let log = events(&session);
    assert_eq!(log.last(), Some(&Event::TurnCompleted { turn_id: 0 }));
    assert_eq!(texts_of(&log), (vec!["a", "b"], vec!["one", "two"]));
    assert_eq!(
        usage_ids(&log),
        ["turn-0-sample-0", "turn-0-message-1-sample-0", "turn-0-message-1-sample-1"]
    );
}

#[test]
fn model_failure_aborts_and_leaves_trace_never_silent() {
    let mut session = MemorySession::new();
    let mut agent = AgentLoop::new(&mut session, &NoTools, &Broken);
    agent.inbox.push("hi".into());
    assert_eq!(agent.run_turn(), 0);
    match events(&session).last().unwrap() {
        Event::TurnAborted { reason, .. } => assert_eq!(reason, "stream cut"),
        other => panic!("expected abort event, got {other:?}"),
    }
}

#[test]
fn a_turn_without_input_is_still_framed() {
    let mut session = MemorySession::new();
    let mut agent = AgentLoop::new(&mut session, &NoTools, &Unused);
    assert_eq!(agent.run_turn(), 0);
    let kinds: Vec<&str> = events(&session).iter().map(kind).collect();
    assert_eq!(kinds, vec!["turn_started", "turn_completed"]);
}

#[test]
fn chat_loop_text_tool_text_full_sequence() {
    let mut session = MemorySession::new();
    let tools = echo_tool();
    let model = scripted(vec![tool_reply(), text_reply()]);
    let mut agent = AgentLoop::with_chat(&mut session, &tools, &model, chat_spec());
    agent.inbox.push("查一下".into());
    assert_eq!(agent.run_turn(), 1);
    assert_eq!(agent.phase, Phase::Idle);

    let events = events(&session);
    let kinds: Vec<&str> = events.iter().map(kind).collect();
    assert_eq!(
        kinds,
        vec![
            "turn_started",
            "user_message",
            "token_usage_recorded",
            "model_chunk",
            "model_tool_calls_requested",
            "tool_call_requested",
            "tool_result_added",
            "token_usage_recorded",
            "model_chunk",
            "assistant_message",
            "turn_completed",
        ]
    );
    assert_eq!(
        outcomes(&events),
        vec![ToolOutcome::Success { value: Json::Text("hi".into()) }]
    );
}

#[test]
fn exceeding_max_tool_rounds_forces_abort_and_keeps_pairing() {
    let mut session = MemorySession::new();
    let tools = echo_tool();
    let model = numbered(|_| Ok(calling("", "call_x", "echo", r#"{"text":"hi"}"#)));
    let mut agent = AgentLoop::with_chat(&mut session, &tools, &model, chat_spec());
    agent.max_tool_rounds = 3;
    agent.inbox.push("x".into());
    assert_eq!(agent.run_turn(), 0);
    assert_eq!(agent.phase, Phase::Idle);

    let events = events(&session);
    match events.last().unwrap() {
        Event::TurnAborted { reason, .. } => assert!(reason.contains("max_tool_rounds")),
        other => panic!("expected turn_aborted, got {other:?}"),
    }
    assert_eq!(requested(&events).len(), 3);
    assert_eq!(answered(&events).len(), 3);
}

#[test]
fn unknown_tool_yields_failure_result_and_loop_continues() {
    let mut session = MemorySession::new();
    let model = scripted(vec![calling("", "call_u", "nope", "{}"), text_reply()]);
    let mut agent = AgentLoop::with_chat(&mut session, &NoTools, &model, chat_spec());
    agent.inbox.push("hi".into());
    assert_eq!(agent.run_turn(), 1);
    match &events(&session)[5] {
        Event::ToolResultAdded { outcome: ToolOutcome::Failure { error }, .. } => {
            assert_eq!(error.code, ErrorCode::ToolArgsInvalid)
        }
        other => panic!("expected a failed result, got {other:?}"),
    }
}

#[test]
fn malformed_args_fail_without_invoking_handler() {
    let mut session = MemorySession::new();
    let tools = OneTool {
        name: "echo",
        plugin: false,
        run: |_: &Json| panic!("handler must not run on malformed args"),
    };
    let model = scripted(vec![calling("", "call_b", "echo", "{oops"), text_reply()]);
    let mut agent = AgentLoop::with_chat(&mut session, &tools, &model, chat_spec());
    agent.inbox.push("hi".into());
    assert_eq!(agent.run_turn(), 1);
    match &events(&session)[5] {
        Event::ToolResultAdded { outcome: ToolOutcome::Failure { error }, .. } => {
            assert_eq!(error.code, ErrorCode::ToolArgsInvalid)
        }
        other => panic!("expected a failed result, got {other:?}"),
    }
}

#[test]
fn chat_history_spans_turns_for_multi_turn_memory() {
    let mut session = MemorySession::new();
    let model = scripted(vec![text_reply(), saying("r2")]);
    let mut agent = AgentLoop::with_chat(&mut session, &NoTools, &model, chat_spec());
    agent.inbox.push("a".into());
    assert_eq!(agent.run_turn(), 1);
    agent.inbox.push("b".into());
    assert_eq!(agent.run_turn(), 1);

    let seen = model.seen.borrow();
    assert_eq!(seen[0].len(), 1);
    assert_eq!(seen[1].len(), 3);
    assert_eq!(seen[1][0], ChatMessage::user("a".into()));
    assert_eq!(seen[1][1], ChatMessage::assistant("结果是 hi".into()));
    assert_eq!(seen[1][2], ChatMessage::user("b".into()));
}

#[test]
fn root_budget_replays_and_rejects_next_sample_before_provider_call() {
    let used = |_| {
        Ok(ChatReply {
            text: "done".into(),
            finish_reason: Some("stop".into()),
            tool_calls: vec![],
            usage: Some(ModelTokenUsage { total_tokens: 2 }),
        })
    };
    let mut session = MemorySession::new();
    let first = numbered(used);
    {
        let mut agent = AgentLoop::with_chat(&mut session, &NoTools, &first, chat_spec());
        agent.configure_root_token_budget("root".into(), 1).unwrap();
        agent.inbox.push("first".into());
        assert_eq!(agent.run_turn(), 1);
    }
    assert_eq!(first.samples.get(), 1);

    let second = numbered(used);
    {
        let mut agent = AgentLoop::with_chat(&mut session, &NoTools, &second, chat_spec());
        agent.inbox.push("second".into());
        assert_eq!(agent.run_turn(), 0);
    }
    assert_eq!(second.samples.get(), 0);
    let ledger = BudgetLedger::replay(session.records()).unwrap();
    assert_eq!(ledger.root_remaining(), Some(0));
    assert!(events(&session).iter().any(|event| matches!(
        event,
        Event::TokenUsageRecorded {
            total_tokens: 2,
            source: TokenUsageSource::Provider,
            ..
        }
    )));
}

#[test]
fn audited_tool_decision_is_recorded_before_tool_result() {
    let mut session = MemorySession::new();
    let tools = OneTool {
        name: "echo",
        plugin: false,
        run: |args: &Json| ToolExecution {
            outcome: ToolOutcome::Success { value: text_of(args) },
            audits: vec![ToolAudit::ApprovalDecided { approved: true }],
        },
    };
    let model = scripted(vec![tool_reply(), text_reply()]);
    let mut agent = AgentLoop::with_chat(&mut session, &tools, &model, chat_spec());
    agent.inbox.push("run".into());
    assert_eq!(agent.run_turn(), 1);

    let events = events(&session);
    let approval = events
        .iter()
        .position(|event| matches!(event, Event::ApprovalDecided { .. }))
        .unwrap();
    let result = events
        .iter()
        .position(|event| matches!(event, Event::ToolResultAdded { .. }))
        .unwrap();
    assert!(approval < result);
    match &events[approval] {
        Event::ApprovalDecided { call_id, approved, .. } => {
            assert_eq!(call_id, "call_1");
            assert!(*approved);
        }
        _ => unreachable!(),
    }
}

struct Source<F>(F);

impl<F: Fn() -> Vec<Event>> EventSource for Source<F> {
    fn benign(&self) -> bool {
        true
    }

    fn drain_events(&self) -> Vec<Event> {
        (self.0)()
    }
}

#[test]
fn external_proxy_event_is_recorded_before_model_failure_abort() {
    let mut session = MemorySession::new();
    let source = Source(|| {
        vec![Event::NetworkAccessDenied {
            host: "blocked.example".into(),
            port: 443,
            reason: "host_not_allowlisted".into(),
        }]
    });
    let model = numbered(|_| Err(ErrorEnvelope::of(ErrorCode::Internal, "proxy rejected")));
    let mut agent = AgentLoop::with_chat(&mut session, &NoTools, &model, chat_spec());
    agent.external_events = Some(&source);
    agent.inbox.push("connect".into());
    assert_eq!(agent.run_turn(), 0);

    let events = events(&session);
    assert!(matches!(events[2], Event::NetworkAccessDenied { .. }));
    assert!(matches!(events.last().unwrap(), Event::TurnAborted { .. }));
}

// -- Compaction -------------------------------------------------------------

struct Summary<F>(F);

impl<F: Fn(&str) -> Result<String, ErrorEnvelope>> SummaryProvider for Summary<F> {
    fn summarize(&self, input: &str) -> Result<String, ErrorEnvelope> {
        (self.0)(input)
    }
}

fn history() -> Vec<ChatMessage> {
    vec![
        ChatMessage::user("old question".into()),
        ChatMessage::assistant_with_tool_calls(vec![ToolCallRequest {
            id: "c1".into(),
            name: "lookup".into(),
            arguments: "{}".into(),
        }]),
        ChatMessage::tool_result("c1".into(), "0123456789".into()),
        ChatMessage::assistant("old answer".into()),
        ChatMessage::user("recent question".into()),
    ]
}

#[test]
fn applies_summary_and_records_compaction_event() {
    let mut session = MemorySession::new();
    let mut agent = AgentLoop::new(&mut session, &NoTools, &Unused);
    agent.chat_history = history();
    let compactor = TwoStageCompactor::new(1, ToolResultPruner::new(5, 3).unwrap());
    let result = agent
        .compact_chat_history(
            &compactor,
            &Summary(|input: &str| {
                assert!(input.contains("012\n[tool result pruned: 10 chars]"));
                Ok("summary".to_string())
            }),
        )
        .unwrap()
        .unwrap();
    assert_eq!(result.compacted_messages, 4);
    assert_eq!(result.pruned_tool_results, 1);
    assert_eq!(agent.chat_history.len(), 2);
    assert_eq!(
        agent.chat_history[0],
        ChatMessage::system("Compacted conversation summary:\nsummary".into())
    );
    assert_eq!(agent.chat_history[1], ChatMessage::user("recent question".into()));
    assert!(matches!(
        events(&session).last().unwrap(),
        Event::CompactionApplied { .. }
    ));
}

#[test]
fn summary_failure_leaves_history_and_event_stream_unchanged() {
    let mut session = MemorySession::new();
    let mut agent = AgentLoop::new(&mut session, &NoTools, &Unused);
    agent.chat_history = history();
    let compactor = TwoStageCompactor::new(1, ToolResultPruner::new(5, 3).unwrap());
    let error = agent
        .compact_chat_history(
            &compactor,
            &Summary(|_: &str| Err(ErrorEnvelope::of(ErrorCode::ModelStreamBroken, "failed"))),
        )
        .unwrap_err();
    assert_eq!(error.code, ErrorCode::ModelStreamBroken);
    assert_eq!(agent.chat_history, history());
    assert!(session.records().is_empty());
}

#[test]
fn overflow_compacts_and_retries_without_duplicate_user_event() {
    let mut session = MemorySession::new();
    let model = numbered(|n| {
        if n == 0 {
            Err(ErrorEnvelope::of(ErrorCode::ContextWindowExceeded, "overflow"))
        } else {
            Ok(saying("recovered"))
        }
    });
    let compactor = TwoStageCompactor::new(1, ToolResultPruner::new(20, 10).unwrap());
    let summarizer = Summary(|_: &str| Ok("older context".to_string()));
    let recovery = OverflowRecovery::new(&compactor, &summarizer, 1).unwrap();
    let mut agent = AgentLoop::with_chat(&mut session, &NoTools, &model, chat_spec());
    agent.chat_history =
        vec![ChatMessage::user("old".into()), ChatMessage::assistant("answer".into())];
    agent.overflow_recovery = Some(recovery);
    agent.inbox.push("new".into());

    assert_eq!(agent.run_turn(), 1);
    assert_eq!(model.samples.get(), 2);
    let events = events(&session);
    assert_eq!(
        events.iter().filter(|event| matches!(event, Event::UserMessage { .. })).count(),
        1
    );
    assert!(events.iter().any(|event| matches!(event, Event::CompactionApplied { .. })));
    assert!(matches!(events.last().unwrap(), Event::TurnCompleted { .. }));
}

#[test]
fn exhausted_overflow_retry_aborts_after_audited_compaction() {
    let mut session = MemorySession::new();
    let model =
        numbered(|_| Err(ErrorEnvelope::of(ErrorCode::ContextWindowExceeded, "overflow")));
    let compactor = TwoStageCompactor::new(1, ToolResultPruner::new(20, 10).unwrap());
    let summarizer = Summary(|_: &str| Ok("older context".to_string()));
    assert!(OverflowRecovery::new(&compactor, &summarizer, 0).is_err());
    let recovery = OverflowRecovery::new(&compactor, &summarizer, 1).unwrap();
    let mut agent = AgentLoop::with_chat(&mut session, &NoTools, &model, chat_spec());
    agent.chat_history =
        vec![ChatMessage::user("old".into()), ChatMessage::assistant("answer".into())];
    agent.overflow_recovery = Some(recovery);
    agent.inbox.push("new".into());

    assert_eq!(agent.run_turn(), 0);
    assert_eq!(model.samples.get(), 2);
    let events = events(&session);
    assert!(events.iter().any(|event| matches!(event, Event::CompactionApplied { .. })));
    assert!(matches!(events.last().unwrap(), Event::TurnAborted { .. }));
}

// -- Repeated calls ---------------------------------------------------------

fn echoed() -> Json {
    Json::Object(vec![("echoed".into(), Json::Text("same".into()))])
}

#[test]
fn loop_guard_reminds_then_rejects_without_invoking_handler() {
    let mut session = MemorySession::new();
    let invocations = Cell::new(0);
    let tools = OneTool {
        name: "echo",
        plugin: false,
        run: |_: &Json| {
            invocations.set(invocations.get() + 1);
            if invocations.get() > 2 {
                panic!("handler must not run after loop guard rejection");
            }
            success(echoed())
        },
    };
    let model = numbered(|n| {
        Ok(calling("再试一次", &format!("call_{n}"), "echo", r#"{"text":"same"}"#))
    });
    let mut agent = AgentLoop::with_chat(&mut session, &tools, &model, chat_spec());
    agent.loop_guard = Some(LoopGuard { remind_after: 2, reject_after: 3 });
    agent.max_tool_rounds = 5;
    agent.inbox.push("反复调用".into());
    assert_eq!(agent.run_turn(), 0);

    let events = events(&session);
    let outcomes = outcomes(&events);
    assert_eq!(outcomes.len(), 5, "{outcomes:?}");
    assert_eq!(outcomes[0], ToolOutcome::Success { value: echoed() });
    match &outcomes[1] {
        ToolOutcome::Success { value } => {
            assert_eq!(value.get("result"), Some(&echoed()));
            assert!(value
                .get("guard_notice")
                .unwrap()
                .as_text()
                .unwrap()
                .contains("repeated identical tool call #2"));
        }
        other => panic!("expected wrapped success, got {other:?}"),
    }
    for outcome in &outcomes[2..] {
        match outcome {
            ToolOutcome::Failure { error } => {
                assert_eq!(error.code, ErrorCode::ToolLoopDetected);
                assert!(
                    error.message.contains("repeated 3 times")
                        || error.message.contains("repeated 4 times")
                        || error.message.contains("repeated 5 times")
                );
            }
            other => panic!("expected loop-detected failure, got {other:?}"),
        }
    }
    assert_eq!(invocations.get(), 2);
    assert!(matches!(events.last().unwrap(), Event::TurnAborted { .. }));
    assert_eq!(requested(&events), answered(&events));
}

#[test]
fn loop_guard_absent_keeps_repeating_calls() {
    let mut session = MemorySession::new();
    let tools = OneTool { name: "echo", plugin: false, run: |_: &Json| success(echoed()) };
    let model = numbered(|n| {
        Ok(calling("再试一次", &format!("call_{n}"), "echo", r#"{"text":"same"}"#))
    });
    let mut agent = AgentLoop::with_chat(&mut session, &tools, &model, chat_spec());
    agent.max_tool_rounds = 3;
    agent.inbox.push("x".into());
    assert_eq!(agent.run_turn(), 0);
    let successes = outcomes(&events(&session))
        .iter()
        .filter(|outcome| matches!(outcome, ToolOutcome::Success { .. }))
        .count();
    assert_eq!(successes, 3);
}

#[test]
fn distinct_arguments_reset_the_consecutive_counter() {
    let mut session = MemorySession::new();
    let tools = echo_tool();
    let model = numbered(|n| {
        Ok(calling("", &format!("call_{n}"), "echo", &format!(r#"{{"text":"v{n}"}}"#)))
    });
    let mut agent = AgentLoop::with_chat(&mut session, &tools, &model, chat_spec());
    agent.loop_guard = Some(LoopGuard { remind_after: 2, reject_after: 3 });
    agent.max_tool_rounds = 4;
    agent.inbox.push("x".into());
    assert_eq!(agent.run_turn(), 0);
    let failures = outcomes(&events(&session))
        .iter()
        .filter(|outcome| matches!(outcome, ToolOutcome::Failure { .. }))
        .count();
    assert_eq!(failures, 0);
}

#[test]
fn identical_calls_are_counted_until_another_comes() {
    let mut tracker = CallTracker::new();
    assert_eq!(tracker.note("echo", "{}"), 1);
    assert_eq!(tracker.note("echo", "{}"), 2);
    assert_eq!(tracker.note("echo", "[]"), 1);
    assert_eq!(tracker.note("echo", "{}"), 1);
    let guard = Some(LoopGuard { remind_after: 2, reject_after: 3 });
    assert_eq!(judge(guard, 1), LoopVerdict::Run);
    assert_eq!(judge(guard, 2), LoopVerdict::Remind);
    assert_eq!(judge(guard, 3), LoopVerdict::Reject);
    assert_eq!(judge(None, 99), LoopVerdict::Run);
}

// -- Results of plugins -----------------------------------------------------

struct Fixed {
    decision: ToolResultDecision,
    fail: bool,
}

impl ToolResultMiddleware for Fixed {
    fn inspect(&self, _: &ToolResultContext) -> Result<ToolResultDecision, ErrorEnvelope> {
        if self.fail {
            return Err(ErrorEnvelope::of(ErrorCode::Internal, "middleware exploded"));
        }
        Ok(self.decision.clone())
    }
}

fn plugin_data(secret: &str) -> Json {
    Json::Object(vec![
        ("safe".into(), Json::Text("hello".into())),
        ("secret".into(), Json::Text(secret.into())),
    ])
}

fn run_plugin_turn(middleware: Option<&Fixed>) -> (Vec<Event>, String) {
    let mut session = MemorySession::new();
    let tools = OneTool {
        name: "greeter_hello",
        plugin: true,
        run: |_: &Json| success(plugin_data("plugin-data")),
    };
    let model =
        scripted(vec![calling("让我查一下", "call_1", "greeter_hello", "{}"), saying("完成")]);
    let mut agent = AgentLoop::with_chat(&mut session, &tools, &model, chat_spec());
    agent.result_middleware = match middleware {
        Some(fixed) => Some(fixed),
        None => None,
    };
    agent.inbox.push("调用插件".into());
    assert_eq!(agent.run_turn(), 1);
    let seen = model.seen.borrow();
    let view = seen.last().unwrap().iter().map(|message| message.content.clone()).collect();
    (events(&session), view)
}

fn refused_with(events: &[Event]) -> ErrorEnvelope {
    match outcomes(events).remove(0) {
        ToolOutcome::Failure { error } => error,
        other => panic!("expected a failure, got {other:?}"),
    }
}

#[test]
fn plugin_result_without_middleware_fails_closed_and_leaves_event() {
    let (events, view) = run_plugin_turn(None);
    let error = refused_with(&events);
    assert_eq!(error.code, ErrorCode::Internal);
    assert!(error.message.contains("middleware is absent"));
    assert!(view.contains("middleware is absent"));
    assert!(!view.contains("plugin-data"));
    assert!(matches!(events.last().unwrap(), Event::TurnCompleted { .. }));
}

#[test]
fn middleware_allow_redact_reject_and_failure_each_leave_event() {
    let (events, view) =
        run_plugin_turn(Some(&Fixed { decision: ToolResultDecision::Allow, fail: false }));
    assert_eq!(
        outcomes(&events),
        vec![ToolOutcome::Success { value: plugin_data("plugin-data") }]
    );
    assert!(view.contains("plugin-data"));

    let redacted = ToolOutcome::Success { value: plugin_data("[redacted]") };
    let (events, view) = run_plugin_turn(Some(&Fixed {
        decision: ToolResultDecision::Redact(redacted.clone()),
        fail: false,
    }));
    assert_eq!(outcomes(&events), vec![redacted]);
    assert!(view.contains("[redacted]"));
    assert!(!view.contains("plugin-data"));

    let (events, _) = run_plugin_turn(Some(&Fixed {
        decision: ToolResultDecision::Reject(ErrorEnvelope::of(
            ErrorCode::SandboxDenied,
            "plugin result rejected by security policy",
        )),
        fail: false,
    }));
    let error = refused_with(&events);
    assert_eq!(error.code, ErrorCode::SandboxDenied);
    assert!(error.message.contains("security policy"));

    let (events, _) =
        run_plugin_turn(Some(&Fixed { decision: ToolResultDecision::Allow, fail: true }));
    let error = refused_with(&events);
    assert_eq!(error.code, ErrorCode::Internal);
    assert!(error.message.contains("middleware failed"));
}

#[test]
fn call_result_pairing_survives_middleware_rejection() {
    let (events, _) = run_plugin_turn(Some(&Fixed {
        decision: ToolResultDecision::Reject(ErrorEnvelope::of(
            ErrorCode::SandboxDenied,
            "rejected",
        )),
        fail: false,
    }));
    assert_eq!(requested(&events), vec!["call_1".to_string()]);
    assert_eq!(answered(&events), vec!["call_1".to_string()]);
}

#[test]
fn builtin_tool_result_flows_without_middleware() {
    let mut session = MemorySession::new();
    let tools = echo_tool();
    let model = scripted(vec![
        calling("", "call_2", "echo", r#"{"text":"hi"}"#),
        saying("完成"),
    ]);
    let mut agent = AgentLoop::with_chat(&mut session, &tools, &model, chat_spec());
    agent.inbox.push("echo 一下".into());
    assert_eq!(agent.run_turn(), 1);
    assert_eq!(
        outcomes(&events(&session)),
        vec![ToolOutcome::Success { value: Json::Text("hi".into()) }]
    );
}

// -- Memories and queued input ----------------------------------------------

#[test]
fn memory_write_flows_through_audit_to_event_and_projection() {
    let mut session = MemorySession::new();
    let tools = OneTool {
        name: "memory_write",
        plugin: false,
        run: |args: &Json| ToolExecution {
            outcome: ToolOutcome::Success {
                value: Json::Object(vec![("recorded".into(), Json::Bool(true))]),
            },
            audits: vec![ToolAudit::MemoryRecorded {
                text: args.get("text").unwrap().as_text().unwrap().clone(),
                tags: vec!["test".into()],
                source: MemorySource::Model,
                scope: MemoryScope::LineageOnly,
            }],
        },
    };
    let model = scripted(vec![
        calling(
            "我来记一下",
            "call_1",
            "memory_write",
            r#"{"text":"用户偏好 Rust","tags":["lang"]}"#,
        ),
        saying("记好了"),
    ]);
    let mut agent = AgentLoop::with_chat(&mut session, &tools, &model, chat_spec());
    agent.inbox.push("记住这件事".into());
    assert_eq!(agent.run_turn(), 1);

    let events = events(&session);
    let memories: Vec<(&String, &Vec<String>)> = events
        .iter()
        .filter_map(|event| match event {
            Event::MemoryRecorded { text, tags, .. } => Some((text, tags)),
            _ => None,
        })
        .collect();
    assert_eq!(memories.len(), 1);
    assert_eq!(memories[0].0, "用户偏好 Rust");
    assert_eq!(memories[0].1, &vec!["test".to_string()]);
    assert!(matches!(events.last().unwrap(), Event::TurnCompleted { .. }));
}

#[test]
fn queued_input_is_visible_at_next_round_boundary_without_breaking_pairs() {
    let mut session = MemorySession::new();
    let tools = echo_tool();
    let model = scripted(vec![tool_reply(), saying("完成")]);
    let drained = Cell::new(false);
    let source = Source(|| {
        if drained.replace(true) {
            vec![]
        } else {
            vec![Event::UserInputQueued { text: "优先处理 X".into() }]
        }
    });
    let mut agent = AgentLoop::with_chat(&mut session, &tools, &model, chat_spec());
    agent.external_events = Some(&source);
    agent.inbox.push("开始".into());
    assert_eq!(agent.run_turn(), 1);

    let seen = model.seen.borrow();
    assert_eq!(seen.len(), 2);
    assert!(!seen[0].iter().any(|message| message.content.contains("优先处理 X")));
    let steer = seen[1].iter().position(|message| message.content == "优先处理 X").unwrap();
    let tool_result = seen[1]
        .iter()
        .position(|message| message.content.contains("\"success\""))
        .unwrap();
    assert!(steer > tool_result);

    let events = events(&session);
    assert!(events.iter().any(|event| matches!(event, Event::UserInputQueued { .. })));
    assert_eq!(requested(&events), answered(&events));
}

#[test]
fn leftover_queued_input_flows_into_next_turn() {
    let mut session = MemorySession::new();
    let tools = echo_tool();
    let model = scripted(vec![saying("完成"), saying("完成")]);
    let mut agent = AgentLoop::with_chat(&mut session, &tools, &model, chat_spec());
    agent.inbox.push("第一轮".into());
    assert_eq!(agent.run_turn(), 1);
    agent.enqueue_input("补充说明 Y".into()).unwrap();
    agent.inbox.push("第二轮".into());
    assert_eq!(agent.run_turn(), 1);

    let seen = model.seen.borrow();
    assert_eq!(seen.len(), 2);
    assert!(seen[1].iter().any(|message| message.content == "补充说明 Y"));
}

#[test]
fn queued_input_leaves_the_loop_as_it_is() {
    let mut session = MemorySession::new();
    let model = scripted(vec![]);
    let mut agent = AgentLoop::with_chat(&mut session, &NoTools, &model, chat_spec());
    agent.inbox.push("waiting".into());
    agent.enqueue_input("more".into()).unwrap();
    assert_eq!(agent.phase, Phase::Idle);
    assert_eq!(agent.queued_from, 0);
    assert!(agent.chat_history.is_empty());
    assert_eq!(agent.inbox.drain(), ["waiting"]);
}

#[test]
fn an_interrupted_turn_leaves_what_waits() {
    let mut session = MemorySession::new();
    let mut agent = AgentLoop::new(&mut session, &NoTools, &Unused);
    agent.inbox.push("waiting".into());
    let turn_id = agent.start_turn().unwrap();
    agent.interrupt_turn(turn_id, "stop".into()).unwrap();
    assert_eq!(agent.phase, Phase::Idle);
    assert_eq!(agent.inbox.drain(), ["waiting"]);
    assert_eq!(
        events(&session).last(),
        Some(&Event::TurnAborted { turn_id, reason: "stop".into() })
    );
}

#[test]
fn enqueue_rejects_blank_input() {
    let mut session = MemorySession::new();
    let model = scripted(vec![]);
    let mut agent = AgentLoop::with_chat(&mut session, &NoTools, &model, chat_spec());
    assert_eq!(
        agent.enqueue_input("   ".into()).unwrap_err().code,
        ErrorCode::ToolArgsInvalid
    );
}

#[test]
fn steer_command_enqueues_user_input_event() {
    let mut session = MemorySession::new();
    let model = scripted(vec![]);
    let mut agent = AgentLoop::with_chat(&mut session, &NoTools, &model, chat_spec());
    agent.enqueue_input("优先处理 X".into()).unwrap();
    agent.mark_queued_inputs_consumed();
    assert_eq!(
        events(&session),
        vec![Event::UserInputQueued { text: "优先处理 X".into() }]
    );
}

#[test]
fn an_agent_path_names_each_agent_once() {
    let mut session = MemorySession::new();
    let mut agent = AgentLoop::new(&mut session, &NoTools, &Echo);
    assert!(agent.set_agent_path(vec!["root".into(), "child".into()]).is_ok());
    assert!(agent.set_agent_path(vec!["root".into(), "root".into()]).is_err());
    assert!(agent.set_agent_path(vec![]).is_err());
    assert_eq!(agent.agent_path, vec!["root".to_string(), "child".to_string()]);
}

// -- MCP --------------------------------------------------------------------

struct Server(Result<&'static str, ErrorCode>);

impl McpCaller for Server {
    fn call(&mut self, tool: &str, _: &Json) -> Result<McpCallResult, ErrorEnvelope> {
        match self.0 {
            Ok(output) => Ok(McpCallResult {
                source: "fixture".into(),
                tool: tool.into(),
                visible_output: output.chars().take(32).collect(),
                full_output: output.into(),
                truncated: output.len() > 32,
                output_limit_bytes: 32,
            }),
            Err(code) => Err(ErrorEnvelope::of(code, "server failed")),
        }
    }
}

#[derive(Default)]
struct Spill {
    stored: RefCell<Vec<(String, String)>>,
}

impl SpillSink for Spill {
    fn store(
        &self,
        root: &str,
        _: usize,
        _: usize,
        call_id: &str,
        output: &str,
    ) -> Result<Json, String> {
        self.stored.borrow_mut().push((root.into(), output.into()));
        Ok(Json::Object(vec![(
            "locator".into(),
            Json::Text(format!("spill:{call_id}")),
        )]))
    }
}

fn invocation(call_id: &str, tool: &str, approved: bool) -> McpInvocation {
    McpInvocation::new(
        call_id.into(),
        tool.into(),
        Json::Object(vec![]),
        approved,
        "spill-root".into(),
    )
    .unwrap()
}

#[test]
fn oversized_result_spills_and_is_retrievable_with_approval_audit() {
    let mut session = MemorySession::new();
    let mut agent = AgentLoop::new(&mut session, &NoTools, &Unused);
    let spill = Spill::default();
    let long = "xxxxxxxxxxxxxxxxxxxxxxxxxxxxxxxxxxxxxxxxxxxxxxxxxxxxxxxxxxxxxxxx";
    let outcome = agent
        .run_mcp_tool(
            "fixture",
            &mut Server(Ok(long)),
            &spill,
            &invocation("mcp-1", "verbose", true),
        )
        .unwrap();
    let value = match outcome {
        ToolOutcome::Success { value } => value,
        other => panic!("expected success, got {other:?}"),
    };
    assert_eq!(
        value.get("output").unwrap().get("locator").unwrap().as_text().unwrap(),
        "spill:mcp-1"
    );
    assert_eq!(
        *spill.stored.borrow(),
        vec![("spill-root".to_string(), "x".repeat(64))]
    );
    let events = events(&session);
    assert_eq!(events.len(), 3);
    assert!(matches!(events[1], Event::ApprovalDecided { approved: true, .. }));
    assert!(matches!(events[2], Event::ToolResultAdded { .. }));
}

#[test]
fn rejection_protocol_error_and_child_exit_each_leave_complete_pair() {
    for (approved, code) in
        [(false, ErrorCode::ApprovalRejected), (true, ErrorCode::Internal)]
    {
        let mut session = MemorySession::new();
        let mut agent = AgentLoop::new(&mut session, &NoTools, &Unused);
        let refused = agent.run_mcp_tool(
            "fixture",
            &mut Server(Err(ErrorCode::Internal)),
            &Spill::default(),
            &invocation("mcp-fail", "echo", approved),
        );
        assert_eq!(refused.unwrap_err().code, code);
        let events = events(&session);
        assert_eq!(events.len(), 3);
        assert_eq!(requested(&events), answered(&events));
        assert_eq!(refused_with(&events).code, code);
    }
}

#[test]
fn managed_mcp_rejects_stale_generation_and_keeps_complete_pair() {
    let mut session = MemorySession::new();
    let mut agent = AgentLoop::new(&mut session, &NoTools, &Unused);
    let error = agent
        .run_registered_mcp_tool(
            "fixture",
            "echo",
            &mut Server(Err(ErrorCode::ToolArgsInvalid)),
            &Spill::default(),
            &invocation("mcp-stale", "echo", true),
        )
        .unwrap_err();
    assert_eq!(error.code, ErrorCode::ToolArgsInvalid);
    let events = events(&session);
    assert_eq!(events.len(), 3);
    assert!(matches!(
        events[2],
        Event::ToolResultAdded { outcome: ToolOutcome::Failure { .. }, .. }
    ));
}

#[test]
fn an_mcp_call_needs_its_names() {
    for (call_id, tool, root) in [(" ", "t", "r"), ("c", " ", "r"), ("c", "t", "")] {
        let refused = McpInvocation::new(
            call_id.into(),
            tool.into(),
            Json::Null,
            true,
            root.into(),
        );
        assert_eq!(refused.unwrap_err().code, ErrorCode::ToolArgsInvalid);
    }
}
