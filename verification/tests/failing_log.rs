use ideal_harness::agent_loop::{AgentLoop, ModelProvider};
use ideal_harness::chat_turn::execute_hook;
use ideal_harness::hooks::{Hook, HookContext, HookPoint, HookRegistry, HookResult};
use ideal_harness::host::{inject_summary, recover_dangling_turn};
use ideal_harness::json::Json;
use ideal_harness::mcp_bridge::{McpCallResult, McpCaller, McpInvocation, SpillSink};
use ideal_harness::model_provider::{ChatMessage, ChatModel, ChatReply, ToolCallRequest};
use ideal_harness::protocol::{
    ErrorCode, ErrorEnvelope, Event, ModelCallSpec, SequencedEvent, ToolOutcome,
};
use ideal_harness::session::{EventLog, LoggedSession, SessionStore};
use ideal_harness::subagent::{SubagentRunner, SubagentTask, SubagentTrace};
use ideal_harness::subagent_lifecycle::SubagentCancellation;
use ideal_harness::tools::{ToolDispatcher, ToolExecution};
use std::cell::{Cell, RefCell};
use std::rc::Rc;

/// A log that takes so many records and no more.
struct Room(Cell<usize>);

impl EventLog for Room {
    fn write(&self, records: &Vec<SequencedEvent>) -> Result<(), String> {
        match self.0.get().checked_sub(records.len()) {
            Some(left) => {
                self.0.set(left);
                Ok(())
            }
            None => Err("disk full".into()),
        }
    }
}

fn session(room: usize) -> LoggedSession<Room> {
    LoggedSession::open(Room(Cell::new(room)), vec![]).ok().unwrap()
}

fn kinds(session: &LoggedSession<Room>) -> Vec<&'static str> {
    session
        .records()
        .iter()
        .map(|record| match &record.event {
            Event::TurnStarted { .. } => "started",
            Event::TurnCompleted { .. } => "completed",
            Event::TurnAborted { .. } => "aborted",
            Event::UserMessage { .. } => "said",
            Event::TokenUsageRecorded { .. } => "used",
            Event::ModelChunkReceived { .. } => "chunk",
            Event::AssistantMessage { .. } => "answered",
            Event::ToolCallRequested { .. } => "requested",
            Event::ApprovalDecided { .. } => "decided",
            Event::ToolResultAdded { .. } => "returned",
            Event::SubagentStarted { .. } => "subagent started",
            Event::SubagentReportDelivered { .. } => "reported",
            Event::SubagentStopped { .. } => "subagent stopped",
            _ => "else",
        })
        .collect()
}

struct NoTools;

impl ToolDispatcher for NoTools {
    fn dispatch_with_audit(&self, _: &str, _: &Json) -> Option<ToolExecution> {
        None
    }

    fn is_plugin_tool(&self, _: &str) -> bool {
        false
    }
}

struct Fine;

impl ModelProvider for Fine {
    fn complete(&self, _: &str) -> Result<String, ErrorEnvelope> {
        Ok("fine".into())
    }
}

struct Scripted {
    replies: RefCell<Vec<ChatReply>>,
    asked: Cell<usize>,
}

impl ChatModel for Scripted {
    fn stream_chat(
        &self,
        _: &ModelCallSpec,
        _: &Vec<ChatMessage>,
        _: Option<&Json>,
    ) -> Result<ChatReply, ErrorEnvelope> {
        self.asked.set(self.asked.get() + 1);
        Ok(self.replies.borrow_mut().remove(0))
    }
}

fn scripted(replies: Vec<ChatReply>) -> Scripted {
    Scripted { replies: RefCell::new(replies), asked: Cell::new(0) }
}

fn text(text: &str) -> ChatReply {
    ChatReply { text: text.into(), ..ChatReply::default() }
}

fn call(id: &str) -> ChatReply {
    let request =
        ToolCallRequest { id: id.into(), name: "none".into(), arguments: "{}".into() };
    ChatReply { tool_calls: vec![request], ..ChatReply::default() }
}

fn spec() -> ModelCallSpec {
    ModelCallSpec { model: "m".into(), base_url: "http://localhost".into(), temperature: None }
}

struct Allow(Rc<Cell<usize>>);

impl Hook for Allow {
    fn run(&self, _: &HookContext) -> Result<HookResult, ErrorEnvelope> {
        self.0.set(self.0.get() + 1);
        Ok(HookResult::allow("ok".into()))
    }
}

fn stop_context() -> HookContext {
    HookContext::turn(HookPoint::TurnCompleted, 1, None)
}

#[test]
fn a_required_point_is_closed_whatever_the_log_takes() {
    for room in 0..3 {
        let mut session = session(room);
        let mut hooks = Some(HookRegistry::new(vec![HookPoint::TurnCompleted]));
        let refused = execute_hook(&mut hooks, &stop_context(), &mut session).unwrap_err();
        assert_eq!(session.len(), room as u64);
        if room < 2 {
            assert_eq!(refused.code, ErrorCode::Internal);
            assert_eq!(refused.message, "failed to append hook audit event: disk full");
        } else {
            assert_ne!(refused.message, "failed to append hook audit event: disk full");
        }
    }
}

#[test]
fn a_hook_runs_only_once_its_call_is_on_record() {
    for (room, runs) in [(0, 0), (1, 1), (2, 1), (3, 2), (4, 2)] {
        let mut session = session(room);
        let ran = Rc::new(Cell::new(0));
        let mut hooks = HookRegistry::new(vec![]);
        for name in ["a", "b"] {
            let hook = Box::new(Allow(ran.clone()));
            hooks.register(HookPoint::TurnCompleted, name.into(), hook).unwrap();
        }
        let mut hooks = Some(hooks);
        let result = execute_hook(&mut hooks, &stop_context(), &mut session);
        assert_eq!(ran.get(), runs, "room={room}");
        assert_eq!(result.is_ok(), room == 4, "room={room}");
    }
}

struct Server {
    asked: usize,
}

impl McpCaller for Server {
    fn call(&mut self, tool: &str, _: &Json) -> Result<McpCallResult, ErrorEnvelope> {
        self.asked += 1;
        Ok(McpCallResult {
            source: "fixture".into(),
            tool: tool.into(),
            visible_output: "out".into(),
            full_output: "out".into(),
            truncated: false,
            output_limit_bytes: 64,
        })
    }
}

struct NoSpill;

impl SpillSink for NoSpill {
    fn store(&self, _: &str, _: usize, _: usize, _: &str, _: &str) -> Result<Json, String> {
        Err("no spill".into())
    }
}

#[test]
fn a_server_is_asked_only_once_the_approval_is_on_record() {
    for (room, asked) in [(0, 0), (1, 0), (2, 1), (3, 1)] {
        let mut session = session(room);
        let mut agent = AgentLoop::new(&mut session, &NoTools, &Fine);
        let mut server = Server { asked: 0 };
        let invocation =
            McpInvocation::new("c".into(), "t".into(), Json::Null, true, "root".into()).unwrap();
        let result = agent.run_mcp_tool("fixture", &mut server, &NoSpill, &invocation);
        assert_eq!(server.asked, asked, "room={room}");
        match result {
            Ok(outcome) => {
                assert_eq!(room, 3);
                assert!(matches!(outcome, ToolOutcome::Success { .. }));
            }
            Err(error) => {
                assert!(room < 3);
                assert_eq!(error.message, "failed to append MCP audit event: disk full");
            }
        }
        let all = ["requested", "decided", "returned"];
        assert_eq!(kinds(&session), all[..room]);
    }
}

struct Runner(Cell<usize>);

impl SubagentRunner for Runner {
    fn run(
        &self,
        _: &SubagentTask,
        _: &mut SubagentTrace,
        _: &SubagentCancellation,
    ) -> Result<String, ErrorEnvelope> {
        self.0.set(self.0.get() + 1);
        Ok("report".into())
    }
}

#[test]
fn a_report_counts_once_it_is_all_on_record() {
    let all = ["requested", "subagent started", "reported", "subagent stopped", "returned"];
    for room in 0..6 {
        let mut session = session(room);
        let mut agent = AgentLoop::new(&mut session, &NoTools, &Fine);
        let runner = Runner(Cell::new(0));
        let task = SubagentTask::new("t".into(), "do it".into()).unwrap();
        let result = agent.run_subagent(&task, &runner);
        assert_eq!(runner.0.get(), usize::from(room >= 2), "room={room}");
        match result {
            Ok(report) => {
                assert_eq!(room, 5);
                assert_eq!(report.text, "report");
            }
            Err(error) => {
                assert!(room < 5);
                assert_eq!(
                    error.message,
                    "failed to append subagent lifecycle event: disk full"
                );
            }
        }
        assert_eq!(kinds(&session), all[..room]);
    }
}

#[test]
fn an_answer_whose_use_is_not_on_record_is_not_given() {
    let chat = scripted(vec![text("hello")]);
    let mut session = session(2);
    let mut agent = AgentLoop::with_chat(&mut session, &NoTools, &chat, spec());
    agent.inbox.push("hi".into());
    assert_eq!(agent.start_turn(), Ok(0));
    assert_eq!(agent.finish_turn(0), 0);
    assert_eq!(chat.asked.get(), 1);
    assert_eq!(agent.chat_history, [ChatMessage::user("hi".into())]);
    assert_eq!(kinds(&session), ["started", "said"]);
}

#[test]
fn an_answer_is_given_though_it_is_not_on_record() {
    let chat = scripted(vec![text("hello")]);
    let mut session = session(3);
    let mut agent = AgentLoop::with_chat(&mut session, &NoTools, &chat, spec());
    agent.inbox.push("hi".into());
    assert_eq!(agent.start_turn(), Ok(0));
    assert_eq!(agent.finish_turn(0), 1);
    assert_eq!(
        agent.chat_history,
        [ChatMessage::user("hi".into()), ChatMessage::assistant("hello".into())]
    );
    assert_eq!(kinds(&session), ["started", "said", "used"]);
}

#[test]
fn a_call_is_answered_though_it_is_not_on_record() {
    let chat = scripted(vec![call("c"), text("never")]);
    let mut session = session(3);
    let mut agent = AgentLoop::with_chat(&mut session, &NoTools, &chat, spec());
    agent.inbox.push("hi".into());
    assert_eq!(agent.start_turn(), Ok(0));
    assert_eq!(agent.finish_turn(0), 0);
    assert_eq!(chat.asked.get(), 2);
    assert_eq!(agent.chat_history.len(), 3);
    assert_eq!(agent.chat_history[2].tool_call_id.as_deref(), Some("c"));
    assert_eq!(kinds(&session), ["started", "said", "used"]);
}

#[test]
fn what_a_log_does_not_take_is_said() {
    let mut full = session(0);
    assert_eq!(inject_summary(&mut full, Some("s".into())), Err("disk full".into()));
    assert_eq!(inject_summary(&mut full, None), Ok(false));
    assert_eq!(recover_dangling_turn(&mut full), Ok(false));
    let mut one = session(1);
    one.append(Event::TurnStarted { turn_id: 0 }).unwrap();
    assert_eq!(recover_dangling_turn(&mut one), Err("disk full".into()));
    let mut agent = AgentLoop::new(&mut one, &NoTools, &Fine);
    let refused = agent.enqueue_input("later".into()).unwrap_err();
    assert_eq!(refused.message, "failed to append queued input: disk full");
    let refused = agent.configure_root_token_budget("root".into(), 5).unwrap_err();
    assert_eq!(refused.message, "failed to append token budget event: disk full");
}
