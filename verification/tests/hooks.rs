use ideal_harness::agent_loop::{AgentLoop, ModelProvider, Phase};
use ideal_harness::hooks::{Hook, HookContext, HookPoint, HookRegistry, HookResult};
use ideal_harness::json::Json;
use ideal_harness::mcp_bridge::{McpCallResult, McpCaller, McpInvocation, SpillSink};
use ideal_harness::model_provider::{ChatMessage, ChatModel, ChatReply, ToolCallRequest};
use ideal_harness::protocol::{
    ErrorCode, ErrorEnvelope, Event, ModelCallSpec, SubagentReportDelivery, ToolOutcome,
};
use ideal_harness::session::MemorySession;
use ideal_harness::subagent::{SubagentRunner, SubagentTask, SubagentTrace};
use ideal_harness::subagent_lifecycle::{SubagentCancellation, SubagentDelegation};
use ideal_harness::subagent_policy::{SubagentPolicy, SubagentRequest};
use ideal_harness::tools::{ToolDispatcher, ToolExecution};
use std::cell::RefCell;

struct Unused;

impl ModelProvider for Unused {
    fn complete(&self, _: &str) -> Result<String, ErrorEnvelope> {
        Err(ErrorEnvelope::of(ErrorCode::Internal, "unused"))
    }
}

struct Broken;

impl ModelProvider for Broken {
    fn complete(&self, _: &str) -> Result<String, ErrorEnvelope> {
        Err(ErrorEnvelope::of(ErrorCode::ModelStreamBroken, "stream failed"))
    }
}

struct Fine;

impl ModelProvider for Fine {
    fn complete(&self, _: &str) -> Result<String, ErrorEnvelope> {
        Ok("ok".into())
    }
}

struct Scripted(RefCell<Vec<ChatReply>>);

impl ChatModel for Scripted {
    fn stream_chat(
        &self,
        _: &ModelCallSpec,
        _: &Vec<ChatMessage>,
        _: Option<&Json>,
    ) -> Result<ChatReply, ErrorEnvelope> {
        Ok(self.0.borrow_mut().remove(0))
    }
}

struct NoTools;

impl ToolDispatcher for NoTools {
    fn dispatch_with_audit(&self, _: &str, _: &Json) -> Option<ToolExecution> {
        None
    }

    fn is_plugin_tool(&self, _: &str) -> bool {
        false
    }
}

struct EchoTool {
    blocked: bool,
}

impl ToolDispatcher for EchoTool {
    fn dispatch_with_audit(&self, name: &str, _: &Json) -> Option<ToolExecution> {
        assert!(!self.blocked, "required pre hook must block dispatch");
        if name == "echo" {
            Some(ToolExecution::new(ToolOutcome::Success { value: Json::Text("ok".into()) }))
        } else {
            None
        }
    }

    fn is_plugin_tool(&self, _: &str) -> bool {
        false
    }
}

struct Allow;

impl Hook for Allow {
    fn run(&self, _: &HookContext) -> Result<HookResult, ErrorEnvelope> {
        Ok(HookResult::allow("ok".into()))
    }
}

struct Deny;

impl Hook for Deny {
    fn run(&self, _: &HookContext) -> Result<HookResult, ErrorEnvelope> {
        Ok(HookResult::deny("blocked".into()))
    }
}

fn spec() -> ModelCallSpec {
    ModelCallSpec {
        model: "mock".into(),
        base_url: "http://localhost".into(),
        temperature: None,
    }
}

fn tool_then_text(tool: &str) -> Scripted {
    Scripted(RefCell::new(vec![
        ChatReply {
            text: String::new(),
            finish_reason: Some("tool_calls".into()),
            tool_calls: vec![ToolCallRequest {
                id: "original-call".into(),
                name: tool.into(),
                arguments: "{}".into(),
            }],
            usage: None,
        },
        ChatReply {
            text: "done".into(),
            finish_reason: Some("stop".into()),
            tool_calls: vec![],
            usage: None,
        },
    ]))
}

fn events(session: &MemorySession) -> Vec<Event> {
    session.records().iter().map(|record| record.event.clone()).collect()
}

fn hook_tool(event: &Event) -> Option<&str> {
    match event {
        Event::ToolCallRequested { tool, .. } if tool.starts_with("hook:") => Some(tool),
        _ => None,
    }
}

fn hook_at(events: &[Event], point: &str) -> usize {
    events
        .iter()
        .position(|event| hook_tool(event).is_some_and(|tool| tool.contains(point)))
        .unwrap()
}

fn original_result(events: &[Event]) -> usize {
    events
        .iter()
        .position(|event| {
            matches!(
                event,
                Event::ToolResultAdded { call_id, .. } if call_id == "original-call"
            )
        })
        .unwrap()
}

fn calls(events: &[Event]) -> usize {
    events.iter().filter(|event| matches!(event, Event::ToolCallRequested { .. })).count()
}

fn results(events: &[Event]) -> usize {
    events.iter().filter(|event| matches!(event, Event::ToolResultAdded { .. })).count()
}

#[test]
fn normal_tool_and_turn_hooks_are_ordered_without_recursion() {
    let mut session = MemorySession::new();
    let mut hooks = HookRegistry::new(vec![
        HookPoint::PreToolUse,
        HookPoint::PostToolUse,
        HookPoint::TurnCompleted,
    ]);
    hooks.register(HookPoint::PreToolUse, "guard".into(), Box::new(Allow)).unwrap();
    hooks.register(HookPoint::PostToolUse, "audit".into(), Box::new(Allow)).unwrap();
    hooks.register(HookPoint::TurnCompleted, "finish".into(), Box::new(Allow)).unwrap();
    let chat = tool_then_text("echo");
    let tools = EchoTool { blocked: false };
    let mut agent = AgentLoop::with_chat(&mut session, &tools, &chat, spec());
    agent.hooks = Some(hooks);
    agent.inbox.push("run".into());
    assert_eq!(agent.run_turn(), 1);

    let events = events(&session);
    let original_call = events
        .iter()
        .position(|event| {
            matches!(
                event,
                Event::ToolCallRequested { call_id, .. } if call_id == "original-call"
            )
        })
        .unwrap();
    let pre = hook_at(&events, "pre_tool_use");
    let result = original_result(&events);
    let post = hook_at(&events, "post_tool_use");
    let completed_hook = hook_at(&events, "turn_completed");
    let completed = events
        .iter()
        .position(|event| matches!(event, Event::TurnCompleted { .. }))
        .unwrap();
    assert!(original_call < pre && pre < result && result < post);
    assert!(post < completed_hook && completed_hook < completed);
    assert_eq!(
        events.iter().filter(|event| hook_tool(event).is_some()).count(),
        3,
        "hook audit events must not recursively trigger hooks"
    );
}

#[test]
fn failed_tool_still_runs_post_hook_after_original_result() {
    let mut session = MemorySession::new();
    let mut hooks = HookRegistry::new(vec![HookPoint::PostToolUse]);
    hooks.register(HookPoint::PostToolUse, "audit".into(), Box::new(Allow)).unwrap();
    let chat = tool_then_text("unknown");
    let mut agent = AgentLoop::with_chat(&mut session, &NoTools, &chat, spec());
    agent.hooks = Some(hooks);
    agent.inbox.push("run".into());
    assert_eq!(agent.run_turn(), 1);

    let events = events(&session);
    let result = original_result(&events);
    assert!(matches!(
        events[result],
        Event::ToolResultAdded { outcome: ToolOutcome::Failure { .. }, .. }
    ));
    assert!(result < hook_at(&events, "post_tool_use"));
}

#[test]
fn required_pre_hook_failure_is_fail_closed_and_keeps_every_pair() {
    let mut session = MemorySession::new();
    let mut hooks = HookRegistry::new(vec![HookPoint::PreToolUse]);
    hooks.register(HookPoint::PreToolUse, "guard".into(), Box::new(Deny)).unwrap();
    let chat = tool_then_text("echo");
    let tools = EchoTool { blocked: true };
    let mut agent = AgentLoop::with_chat(&mut session, &tools, &chat, spec());
    agent.hooks = Some(hooks);
    agent.inbox.push("run".into());
    assert_eq!(agent.run_turn(), 0);

    let events = events(&session);
    assert_eq!(calls(&events), results(&events));
    assert!(matches!(events.last().unwrap(), Event::TurnAborted { .. }));
}

#[test]
fn missing_required_completion_hook_aborts_instead_of_completing() {
    let mut session = MemorySession::new();
    let mut agent = AgentLoop::new(&mut session, &NoTools, &Fine);
    agent.hooks = Some(HookRegistry::new(vec![HookPoint::TurnCompleted]));
    agent.inbox.push("run".into());
    agent.run_turn();

    let events = events(&session);
    assert!(events.iter().all(|event| !matches!(event, Event::TurnCompleted { .. })));
    assert!(matches!(events.last().unwrap(), Event::TurnAborted { .. }));
    assert_eq!(calls(&events), results(&events));
}

#[test]
fn interruption_hook_runs_before_abort_and_idle_is_rejected() {
    let mut session = MemorySession::new();
    let mut hooks = HookRegistry::new(vec![HookPoint::TurnInterrupted]);
    hooks.register(HookPoint::TurnInterrupted, "cleanup".into(), Box::new(Allow)).unwrap();
    let mut agent = AgentLoop::new(&mut session, &NoTools, &Unused);
    agent.hooks = Some(hooks);
    assert_eq!(
        agent.interrupt_turn(7, "stop".into()).unwrap_err().code,
        ErrorCode::ToolArgsInvalid
    );
    agent.phase = Phase::Running;
    agent.interrupt_turn(7, "stop".into()).unwrap();

    let events = events(&session);
    assert!(hook_tool(&events[0]).is_some_and(|tool| tool.contains("turn_interrupted")));
    assert!(matches!(events[1], Event::ToolResultAdded { .. }));
    assert!(matches!(events[2], Event::TurnAborted { .. }));
}

#[test]
fn failed_turn_hook_runs_after_error_and_before_abort() {
    let mut session = MemorySession::new();
    let mut hooks = HookRegistry::new(vec![HookPoint::TurnFailed]);
    hooks.register(HookPoint::TurnFailed, "failure-audit".into(), Box::new(Allow)).unwrap();
    let mut agent = AgentLoop::new(&mut session, &NoTools, &Broken);
    agent.hooks = Some(hooks);
    agent.inbox.push("run".into());
    assert_eq!(agent.run_turn(), 0);

    let events = events(&session);
    let abort = events
        .iter()
        .position(|event| matches!(event, Event::TurnAborted { .. }))
        .unwrap();
    assert!(hook_at(&events, "turn_failed") < abort);
}

#[test]
fn registry_rejects_duplicate_names() {
    let mut hooks = HookRegistry::default();
    hooks.register(HookPoint::TurnFailed, "audit".into(), Box::new(Allow)).unwrap();
    assert_eq!(
        hooks
            .register(HookPoint::TurnFailed, "audit".into(), Box::new(Allow))
            .unwrap_err()
            .code,
        ErrorCode::ToolArgsInvalid
    );
    assert!(hooks.register(HookPoint::TurnCompleted, "audit".into(), Box::new(Allow)).is_ok());
    assert!(hooks.register(HookPoint::TurnFailed, " ".into(), Box::new(Allow)).is_err());
}

#[test]
fn recursive_execution_is_rejected_without_emitting_nested_events() {
    let mut hooks = HookRegistry::default();
    let mut session = MemorySession::new();
    assert!(hooks.begin_round());
    let error = hooks
        .execute(&HookContext::turn(HookPoint::TurnFailed, 1, None), &mut session)
        .unwrap_err();
    assert_eq!(error.code, ErrorCode::Internal);
    assert!(session.records().is_empty());
}

#[test]
fn a_refusal_at_an_optional_point_is_recorded_and_passed_over() {
    let mut hooks = HookRegistry::default();
    hooks.register(HookPoint::TurnCompleted, "note".into(), Box::new(Deny)).unwrap();
    let mut session = MemorySession::new();
    let context = HookContext::turn(HookPoint::TurnCompleted, 1, None);
    assert!(hooks.execute(&context, &mut session).is_ok());
    let recorded = events(&session);
    assert_eq!((calls(&recorded), results(&recorded)), (1, 1));

    let mut required = HookRegistry::new(vec![HookPoint::TurnCompleted]);
    required.register(HookPoint::TurnCompleted, "note".into(), Box::new(Deny)).unwrap();
    assert!(required.execute(&context, &mut session).is_err());
}

struct MustNotRun;

impl SubagentRunner for MustNotRun {
    fn run(
        &self,
        _: &SubagentTask,
        _: &mut SubagentTrace,
        _: &SubagentCancellation,
    ) -> Result<String, ErrorEnvelope> {
        panic!("cancelled subagent runner must not run")
    }
}

#[test]
fn cancelled_subagent_closes_original_pair_before_stopped_hook() {
    let mut session = MemorySession::new();
    let mut hooks = HookRegistry::new(vec![HookPoint::SubagentStopped]);
    hooks.register(HookPoint::SubagentStopped, "cleanup".into(), Box::new(Allow)).unwrap();
    let mut agent = AgentLoop::new(&mut session, &NoTools, &Unused);
    agent.hooks = Some(hooks);
    let task = SubagentTask::with_lineage(
        "task".into(),
        "work".into(),
        "root".into(),
        "child".into(),
    )
    .unwrap();
    let cancellation = SubagentCancellation::new();
    cancellation.cancel("stop".into()).unwrap();
    let request = SubagentRequest::local_default();
    let policy = SubagentPolicy::local_default();
    let delegation = SubagentDelegation::new(
        &request,
        &policy,
        &policy,
        SubagentReportDelivery::Quiet,
        &cancellation,
    );
    assert_eq!(
        agent
            .run_subagent_lifecycle(&task, &delegation, &MustNotRun)
            .unwrap_err()
            .code,
        ErrorCode::SubagentCancelled
    );

    let events = events(&session);
    let stopped = events
        .iter()
        .position(|event| matches!(event, Event::SubagentStopped { .. }))
        .unwrap();
    let result = events
        .iter()
        .position(|event| {
            matches!(event, Event::ToolResultAdded { call_id, .. } if call_id == "task")
        })
        .unwrap();
    assert!(stopped < result && result < hook_at(&events, "subagent_stopped"));
}

struct Reports;

impl SubagentRunner for Reports {
    fn run(
        &self,
        _: &SubagentTask,
        trace: &mut SubagentTrace,
        _: &SubagentCancellation,
    ) -> Result<String, ErrorEnvelope> {
        trace.record(Event::TurnStarted { turn_id: 0 });
        Ok("report".into())
    }
}

#[test]
fn a_stopped_hook_turns_a_success_into_its_error() {
    let mut session = MemorySession::new();
    let mut hooks = HookRegistry::new(vec![HookPoint::SubagentStopped]);
    hooks.register(HookPoint::SubagentStopped, "audit".into(), Box::new(Deny)).unwrap();
    let mut agent = AgentLoop::new(&mut session, &NoTools, &Unused);
    agent.hooks = Some(hooks);
    let task = SubagentTask::with_lineage(
        "task".into(),
        "work".into(),
        "root".into(),
        "child".into(),
    )
    .unwrap();
    let error = agent.run_subagent(&task, &Reports).unwrap_err();
    assert_eq!(error.code, ErrorCode::ApprovalRejected);
    assert_eq!(error.message, "blocked");

    let events = events(&session);
    assert_eq!(calls(&events), 2);
    assert_eq!(results(&events), 2);
    assert!(matches!(
        &events[4],
        Event::ToolResultAdded { call_id, outcome: ToolOutcome::Success { .. } } if call_id == "task"
    ));
    assert_eq!(hook_at(&events, "subagent_stopped"), 5);
}

struct Counting(u32);

impl McpCaller for Counting {
    fn call(&mut self, tool: &str, _: &Json) -> Result<McpCallResult, ErrorEnvelope> {
        self.0 += 1;
        Ok(McpCallResult {
            source: "fixture".into(),
            tool: tool.into(),
            visible_output: "fine".into(),
            full_output: "fine".into(),
            truncated: false,
            output_limit_bytes: 32,
        })
    }
}

struct NoSpill;

impl SpillSink for NoSpill {
    fn store(&self, _: &str, _: usize, _: usize, _: &str, _: &str) -> Result<Json, String> {
        panic!("short output must not be stored")
    }
}

fn mcp_call(point: HookPoint) -> (Result<ToolOutcome, ErrorEnvelope>, u32, Vec<Event>) {
    let mut session = MemorySession::new();
    let mut hooks = HookRegistry::new(vec![point]);
    hooks.register(point, "policy".into(), Box::new(Deny)).unwrap();
    let mut agent = AgentLoop::new(&mut session, &NoTools, &Unused);
    agent.hooks = Some(hooks);
    let invocation = McpInvocation::new(
        "mcp-1".into(),
        "read".into(),
        Json::Object(vec![]),
        true,
        "spill-root".into(),
    )
    .unwrap();
    let mut server = Counting(0);
    let answer = agent.run_mcp_tool("fixture", &mut server, &NoSpill, &invocation);
    (answer, server.0, events(&session))
}

#[test]
fn an_mcp_call_that_the_hooks_refuse_is_not_made() {
    let (answer, made, events) = mcp_call(HookPoint::PreToolUse);
    assert_eq!(answer.unwrap_err().message, "blocked");
    assert_eq!(made, 0);
    assert_eq!(events.len(), 4);
    assert_eq!(hook_at(&events, "pre_tool_use"), 1);
    assert!(matches!(
        &events[3],
        Event::ToolResultAdded { call_id, outcome: ToolOutcome::Failure { error } }
            if call_id == "mcp-1" && error.message == "blocked"
    ));
}

#[test]
fn a_hook_after_an_mcp_call_replaces_its_answer_only() {
    let (answer, made, events) = mcp_call(HookPoint::PostToolUse);
    assert_eq!(answer.unwrap_err().message, "blocked");
    assert_eq!(made, 1);
    assert_eq!(events.len(), 5);
    assert!(matches!(&events[1], Event::ApprovalDecided { approved: true, .. }));
    assert!(matches!(
        &events[2],
        Event::ToolResultAdded { outcome: ToolOutcome::Success { .. }, .. }
    ));
    assert_eq!(hook_at(&events, "post_tool_use"), 3);
}

#[test]
fn the_rest_of_a_batch_is_answered_without_a_run() {
    let mut session = MemorySession::new();
    let mut hooks = HookRegistry::new(vec![HookPoint::PreToolUse]);
    hooks.register(HookPoint::PreToolUse, "policy".into(), Box::new(Deny)).unwrap();
    let model = tool_then_text("echo");
    let second = ToolCallRequest {
        id: "second-call".into(),
        name: "echo".into(),
        arguments: "{}".into(),
    };
    model.0.borrow_mut()[0].tool_calls.push(second);
    let tools = EchoTool { blocked: true };
    let mut agent = AgentLoop::with_chat(&mut session, &tools, &model, spec());
    agent.hooks = Some(hooks);
    agent.inbox.push("go".into());
    assert_eq!(agent.run_turn(), 0);

    let events = events(&session);
    let last = events
        .iter()
        .rev()
        .find_map(|event| match event {
            Event::ToolResultAdded { call_id, outcome: ToolOutcome::Failure { error } } => {
                Some((call_id.clone(), error.clone()))
            }
            _ => None,
        })
        .unwrap();
    assert_eq!(last.0, "second-call");
    assert_eq!(last.1.code, ErrorCode::ApprovalRejected);
    assert_eq!(
        last.1.message,
        "tool was not executed because an earlier call in the batch failed"
    );
    assert!(matches!(
        events.last().unwrap(),
        Event::TurnAborted { reason, .. } if reason == "blocked"
    ));
}
