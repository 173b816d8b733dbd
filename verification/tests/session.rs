use ideal_harness::agent_loop::{AgentLoop, ModelProvider, Phase};
use ideal_harness::json::Json;
use ideal_harness::protocol::{ErrorCode, ErrorEnvelope, Event, SequencedEvent, ToolOutcome};
use ideal_harness::session::{EventLog, LoggedSession, MemorySession, SessionStore};
use ideal_harness::tools::{ToolDispatcher, ToolExecution};
use std::cell::{Cell, RefCell};
use std::rc::Rc;

#[derive(Clone)]
struct Written {
    lines: Rc<RefCell<Vec<SequencedEvent>>>,
    room: Rc<Cell<usize>>,
}

impl EventLog for Written {
    fn write(&self, records: &Vec<SequencedEvent>) -> Result<(), String> {
        if self.room.get() < records.len() {
            return Err("disk full".into());
        }
        self.room.set(self.room.get() - records.len());
        self.lines.borrow_mut().extend(records.iter().cloned());
        Ok(())
    }
}

fn log(room: usize) -> Written {
    Written { lines: Rc::new(RefCell::new(vec![])), room: Rc::new(Cell::new(room)) }
}

fn said(text: &str) -> Event {
    Event::UserMessage { text: text.into() }
}

#[test]
fn records_are_numbered_from_zero() {
    let mut session = MemorySession::new();
    assert_eq!(session.len(), 0);
    assert_eq!(session.append(said("a")), Ok(0));
    assert_eq!(session.append(said("b")), Ok(1));
    assert_eq!(session.len(), 2);
    assert_eq!(session.last_record().unwrap().event, said("b"));
    assert_eq!(session.replay_events().unwrap().len(), 2);
}

#[test]
fn an_event_counts_once_it_is_written() {
    let written = log(1);
    let mut session = LoggedSession::open(written.clone(), vec![]).ok().unwrap();
    assert_eq!(session.append(said("a")), Ok(0));
    assert_eq!(session.append(said("b")), Err("disk full".to_string()));
    assert_eq!(session.len(), 1);
    assert_eq!(*session.records(), *written.lines.borrow());
}

#[test]
fn events_that_belong_together_are_written_together() {
    let mut session = MemorySession::new();
    assert_eq!(session.append(said("a")), Ok(0));
    assert_eq!(session.append_all(vec![said("b"), said("c")]), Ok(1));
    assert_eq!(session.append_all(vec![]), Ok(3));
    assert_eq!(session.len(), 3);
    assert_eq!(session.last_record().unwrap().seq, 2);

    let written = log(2);
    let mut session = LoggedSession::open(written.clone(), vec![]).ok().unwrap();
    assert_eq!(session.append(said("a")), Ok(0));
    assert_eq!(session.append_all(vec![said("b"), said("c")]), Err("disk full".to_string()));
    assert_eq!(session.append_all(vec![]), Ok(1));
    assert_eq!(session.len(), 1);
    assert_eq!(session.append_all(vec![said("b")]), Ok(1));
    assert_eq!(*session.records(), *written.lines.borrow());
    assert_eq!(session.records()[1], SequencedEvent { seq: 1, event: said("b") });
}

#[test]
fn a_session_goes_on_where_its_log_ends() {
    let records = vec![
        SequencedEvent { seq: 0, event: said("a") },
        SequencedEvent { seq: 1, event: said("b") },
    ];
    let mut session = LoggedSession::open(log(9), records).ok().unwrap();
    assert_eq!(session.append(said("c")), Ok(2));
    let gap = vec![SequencedEvent { seq: 1, event: said("a") }];
    assert_eq!(
        LoggedSession::open(log(9), gap).err(),
        Some("session log has a gap at record 0".to_string())
    );
}

struct NoTools;

impl ToolDispatcher for NoTools {
    fn dispatch_with_audit(&self, _: &str, _: &Json) -> Option<ToolExecution> {
        None
    }

    fn is_plugin_tool(&self, _: &str) -> bool {
        false
    }
}

struct Fine;

impl ModelProvider for Fine {
    fn complete(&self, _: &str) -> Result<String, ErrorEnvelope> {
        Ok("fine".into())
    }
}

#[test]
fn a_turn_survives_a_log_that_fills_up() {
    let mut session = LoggedSession::open(log(2), vec![]).ok().unwrap();
    let mut agent = AgentLoop::new(&mut session, &NoTools, &Fine);
    agent.inbox.push("hi".into());
    assert_eq!(agent.start_turn(), Ok(0));
    assert_eq!(agent.finish_turn(0), 0);
    assert_eq!(session.len(), 2);
    assert!(!session.is_intact());
}

#[test]
fn a_turn_that_cannot_begin_changes_nothing() {
    let mut session = LoggedSession::open(log(0), vec![]).ok().unwrap();
    assert!(session.is_intact());
    let mut agent = AgentLoop::new(&mut session, &NoTools, &Fine);
    agent.inbox.push("hi".into());
    assert!(agent.start_turn().is_err());
    assert_eq!(agent.phase, Phase::Idle);
    assert_eq!(agent.inbox.drain(), ["hi"]);
    assert_eq!(session.len(), 0);
    assert!(!session.is_intact());
}

#[test]
fn a_turn_may_be_begun_and_finished_apart() {
    let mut session = LoggedSession::open(log(9), vec![]).ok().unwrap();
    let mut agent = AgentLoop::new(&mut session, &NoTools, &Fine);
    agent.inbox.push("hi".into());
    assert_eq!(agent.start_turn(), Ok(0));
    assert_eq!(agent.phase, Phase::Running);
    assert_eq!(agent.finish_turn(0), 1);
    assert_eq!(agent.phase, Phase::Idle);
    assert!(session.is_intact());
    assert_eq!(session.len(), 5);
    let records = session.replay_events().unwrap();
    assert_eq!(records[0].event, Event::TurnStarted { turn_id: 0 });
    assert_eq!(records[4].event, Event::TurnCompleted { turn_id: 0 });
}

#[test]
fn texts_are_written_with_their_escapes() {
    let text = "\"\\/\u{8}\t\n\u{c}\r\u{1}\u{1f}\u{7f}é";
    assert_eq!(
        Json::Text(text.into()).render(),
        "\"\\\"\\\\/\\b\\t\\n\\f\\r\\u0001\\u001f\u{7f}é\""
    );
}

#[test]
fn floats_inside_a_document_keep_their_value() {
    for number in ["31.245270191439438", "121.48791951161945", "100.78399658203125"] {
        let nested = format!("[{{\"a\":[[{number}]]}}]");
        assert_eq!(Json::parse(&nested).unwrap().render(), nested);
        assert_eq!(Json::parse(number).unwrap().render(), number);
    }
}

#[test]
fn error_code_is_stable_across_roundtrip() {
    let names = [
        (ErrorCode::ToolArgsInvalid, "tool_args_invalid"),
        (ErrorCode::SandboxDenied, "sandbox_denied"),
        (ErrorCode::ApprovalRejected, "approval_rejected"),
        (ErrorCode::ContextWindowExceeded, "context_window_exceeded"),
        (ErrorCode::ModelStreamBroken, "model_stream_broken"),
        (ErrorCode::SubagentCancelled, "subagent_cancelled"),
        (ErrorCode::ToolTimeout, "tool_timeout"),
        (ErrorCode::ToolLoopDetected, "tool_loop_detected"),
        (ErrorCode::Internal, "internal"),
    ];
    for (code, name) in names {
        assert_eq!(code.wire_name(), name);
        let shown = ErrorEnvelope::of(code, "m").to_json();
        assert_eq!(shown.get("code").unwrap().as_text().unwrap(), name);
    }
}

#[test]
fn json_is_read_and_written() {
    let text = "{\"a\": [1, -2.50, true, null], \"b\": \"x\\n\\u00e9\"}";
    let value = Json::parse(text).unwrap();
    assert_eq!(value.render(), "{\"a\":[1,-2.5,true,null],\"b\":\"x\\né\"}");
    assert_eq!(Json::parse(&value.render()).unwrap(), value);
    assert_eq!(value.get("b").unwrap().as_text().unwrap(), "x\né");
    assert_eq!(value.get("c"), None);
    assert_eq!(Json::parse("7").unwrap().as_u64(), Some(7));
    assert_eq!(Json::parse("-7").unwrap().as_u64(), None);
    assert!(Json::parse("{oops").is_err());
    assert!(Json::parse(&"[".repeat(200)).is_err());
}

#[test]
fn outcomes_are_shown_by_their_kind() {
    let done = ToolOutcome::Success { value: Json::Text("hi".into()) };
    assert_eq!(done.to_json().render(), "{\"success\":{\"value\":\"hi\"}}");
    let failed =
        ToolOutcome::Failure { error: ErrorEnvelope::of(ErrorCode::Internal, "broken") };
    assert_eq!(
        failed.to_json().render(),
        "{\"failure\":{\"error\":{\"code\":\"internal\",\"message\":\"broken\"}}}"
    );
}
