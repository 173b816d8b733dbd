use ideal_harness::approval::{
    approve_escalation, Approver, AuthorizationContextProvider, Decision, EscalationRequest,
};
use ideal_harness::protocol::{
    AuthorizationContext, ErrorCode, ErrorEnvelope, ExecutorEnvironment,
};
use ideal_harness::sandbox_policy::SandboxMode;
use ideal_harness::terminal::{approval_prompt, LineInput, PromptOutput, TerminalApprover};
use std::cell::{Cell, RefCell};
use std::rc::Rc;

fn request() -> EscalationRequest {
    EscalationRequest {
        requested_mode: SandboxMode::WorkspaceWrite,
        justification: "need to update workspace files".into(),
    }
}

struct KnownContext;

impl AuthorizationContextProvider for KnownContext {
    fn current_context(&self) -> Result<AuthorizationContext, ErrorEnvelope> {
        Ok(AuthorizationContext {
            policy_epoch: 1,
            permission_profile_hash: "terminal-test".into(),
            executor: ExecutorEnvironment {
                os: "test-os".into(),
                home: "test-home".into(),
                workspace: "test-workspace".into(),
                generation: 1,
            },
        })
    }
}

struct Answer(Option<&'static str>);

impl LineInput for Answer {
    fn read_line(&self) -> Result<Option<String>, String> {
        Ok(self.0.map(|line| line.to_string()))
    }
}

struct Sink;

impl PromptOutput for Sink {
    fn write_all(&self, _: &str) -> Result<(), String> {
        Ok(())
    }

    fn flush(&self) -> Result<(), String> {
        Ok(())
    }
}

#[derive(Default)]
struct SharedWriter {
    text: Rc<RefCell<String>>,
}

impl PromptOutput for SharedWriter {
    fn write_all(&self, text: &str) -> Result<(), String> {
        self.text.borrow_mut().push_str(text);
        Ok(())
    }

    fn flush(&self) -> Result<(), String> {
        Ok(())
    }
}

struct FailingReader;

impl LineInput for FailingReader {
    fn read_line(&self) -> Result<Option<String>, String> {
        Err("injected read failure".into())
    }
}

#[derive(Default)]
struct CountingReader {
    reads: Rc<Cell<usize>>,
}

impl LineInput for CountingReader {
    fn read_line(&self) -> Result<Option<String>, String> {
        self.reads.set(self.reads.get() + 1);
        Ok(Some("y\n".into()))
    }
}

struct FailingWriter;

impl PromptOutput for FailingWriter {
    fn write_all(&self, _: &str) -> Result<(), String> {
        Err("injected write failure".into())
    }

    fn flush(&self) -> Result<(), String> {
        Err("injected flush failure".into())
    }
}

struct FlushFailingWriter;

impl PromptOutput for FlushFailingWriter {
    fn write_all(&self, _: &str) -> Result<(), String> {
        Ok(())
    }

    fn flush(&self) -> Result<(), String> {
        Err("injected flush failure".into())
    }
}

#[test]
fn explicit_y_or_yes_approves_case_insensitively() {
    for answer in ["y\n", "YES\r\n", " Yes \n"] {
        let approver = TerminalApprover::new(Answer(Some(answer)), Sink);
        assert_eq!(approver.decide(&request()), Decision::Approved);
    }
}

#[test]
fn negative_blank_and_unknown_answers_reject() {
    for answer in ["n\n", "\n", "approve\n", "y please\n"] {
        let approver = TerminalApprover::new(Answer(Some(answer)), Sink);
        assert_eq!(approver.decide(&request()), Decision::Rejected);
    }
}

#[test]
fn eof_rejects_and_approve_escalation_returns_stable_code() {
    let approver = TerminalApprover::new(Answer(None), Sink);
    let error = approve_escalation(
        SandboxMode::ReadOnly,
        request(),
        Some(&approver),
        Some(&KnownContext),
    )
    .result
    .unwrap_err();
    assert_eq!(error.code, ErrorCode::ApprovalRejected);
}

#[test]
fn prompt_explains_requested_mode_and_justification() {
    let output = SharedWriter::default();
    let captured = Rc::clone(&output.text);
    let approver = TerminalApprover::new(Answer(Some("n\n")), output);

    assert_eq!(approver.decide(&request()), Decision::Rejected);
    let prompt = captured.borrow().clone();
    assert!(prompt.contains("workspace-write"));
    assert!(prompt.contains("need to update workspace files"));
    assert!(prompt.contains("[y/N]"));
}

#[test]
fn the_justification_is_shown_escaped() {
    let prompt = approval_prompt(&EscalationRequest {
        requested_mode: SandboxMode::DangerFullAccess,
        justification: "line\nother \"quoted\"".into(),
    });
    assert!(prompt.contains("danger-full-access"));
    assert!(prompt.contains("\"line\\nother \\\"quoted\\\"\""));
}

#[test]
fn read_failure_rejects() {
    let approver = TerminalApprover::new(FailingReader, Sink);
    assert_eq!(approver.decide(&request()), Decision::Rejected);
}

#[test]
fn write_failure_rejects_without_reading() {
    let reader = CountingReader::default();
    let reads = Rc::clone(&reader.reads);
    let approver = TerminalApprover::new(reader, FailingWriter);

    assert_eq!(approver.decide(&request()), Decision::Rejected);
    assert_eq!(reads.get(), 0);
}

#[test]
fn flush_failure_rejects_without_reading() {
    let reader = CountingReader::default();
    let reads = Rc::clone(&reader.reads);
    let approver = TerminalApprover::new(reader, FlushFailingWriter);

    assert_eq!(approver.decide(&request()), Decision::Rejected);
    assert_eq!(reads.get(), 0);
}

#[test]
fn terminal_approval_integrates_with_widening_contract() {
    let approver = TerminalApprover::new(Answer(Some("yes\n")), Sink);
    let widened = approve_escalation(
        SandboxMode::ReadOnly,
        request(),
        Some(&approver),
        Some(&KnownContext),
    )
    .result
    .unwrap();
    assert_eq!(widened.mode, SandboxMode::WorkspaceWrite);

    let narrowing = EscalationRequest {
        requested_mode: SandboxMode::ReadOnly,
        justification: "reduce access".into(),
    };
    let error = approve_escalation(
        SandboxMode::DangerFullAccess,
        narrowing,
        Some(&approver),
        Some(&KnownContext),
    )
    .result
    .unwrap_err();
    assert_eq!(error.code, ErrorCode::SandboxDenied);
}
