use ideal_harness::agent_loop::{AgentLoop, ModelProvider};
use ideal_harness::json::Json;
use ideal_harness::protocol::{
    ErrorCode, ErrorEnvelope, Event, SubagentOutcome, SubagentReportDelivery, ToolOutcome,
};
use ideal_harness::role_config::{
    parse_roles, RoleCatalog, RoleTaskBudget, RoleTaskIdentity,
};
use ideal_harness::session::MemorySession;
use ideal_harness::subagent::{run_task, SubagentRunner, SubagentTask, SubagentTrace};
use ideal_harness::subagent_lifecycle::{SubagentCancellation, SubagentDelegation};
use ideal_harness::subagent_policy::{
    validate_child_policy, validate_delegation, SubagentPolicy, SubagentRequest,
};
use ideal_harness::tools::{ToolDispatcher, ToolExecution};
use std::cell::Cell;

fn names(list: &[&str]) -> Vec<String> {
    list.iter().map(|name| name.to_string()).collect()
}

fn policy() -> SubagentPolicy {
    SubagentPolicy::new(
        2,
        2,
        5,
        1_000,
        names(&["model-a"]),
        names(&["read", "exec"]),
        names(&["exec"]),
    )
    .unwrap()
}

fn request() -> SubagentRequest {
    SubagentRequest::new(1, 0, 3, 500, Some("model-a".into()), names(&["read"])).unwrap()
}

#[test]
fn valid_narrowed_policy_and_request_are_accepted() {
    let parent = policy();
    let child = SubagentPolicy::new(
        1,
        1,
        4,
        800,
        names(&["model-a"]),
        names(&["read"]),
        names(&["exec"]),
    )
    .unwrap();
    assert_eq!(validate_delegation(&parent, &child, &request()), Ok(()));
}

#[test]
fn resource_and_selection_limits_have_stable_codes() {
    let policy = policy();
    let cases = [
        (3, 0, 3, 500, Some("model-a"), vec!["read"], ErrorCode::SandboxDenied),
        (1, 2, 3, 500, Some("model-a"), vec!["read"], ErrorCode::SandboxDenied),
        (1, 0, 6, 500, Some("model-a"), vec!["read"], ErrorCode::ContextWindowExceeded),
        (1, 0, 3, 1_001, Some("model-a"), vec!["read"], ErrorCode::ContextWindowExceeded),
        (1, 0, 3, 500, Some("model-b"), vec!["read"], ErrorCode::SandboxDenied),
        (1, 0, 3, 500, Some("model-a"), vec!["exec"], ErrorCode::SandboxDenied),
    ];
    for (depth, active, turns, tokens, model, tools, code) in cases {
        let request = SubagentRequest::new(
            depth,
            active,
            turns,
            tokens,
            model.map(str::to_string),
            names(&tools),
        )
        .unwrap();
        assert_eq!(
            validate_delegation(&policy, &policy, &request).unwrap_err().code,
            code
        );
    }
}

#[test]
fn child_policy_cannot_expand_parent() {
    let parent = policy();
    let expanded = SubagentPolicy::new(
        3,
        2,
        5,
        1_000,
        names(&["model-a"]),
        names(&["read", "exec"]),
        names(&["exec"]),
    )
    .unwrap();
    assert_eq!(
        validate_delegation(&parent, &expanded, &request()).unwrap_err().code,
        ErrorCode::SandboxDenied
    );
}

#[test]
fn narrowing_twice_stays_within_the_first_policy() {
    let narrower = |depth, tokens| {
        SubagentPolicy::new(
            depth,
            1,
            4,
            tokens,
            names(&["model-a"]),
            names(&["read"]),
            names(&["exec"]),
        )
        .unwrap()
    };
    let top = policy();
    let middle = narrower(2, 900);
    let bottom = narrower(1, 100);
    assert!(validate_child_policy(&top, &top).is_ok());
    assert!(validate_child_policy(&top, &middle).is_ok());
    assert!(validate_child_policy(&middle, &bottom).is_ok());
    assert!(validate_child_policy(&top, &bottom).is_ok());
    assert!(validate_child_policy(&bottom, &middle).is_err());
}

#[test]
fn policies_and_requests_without_limits_or_names_are_refused() {
    let models = || names(&["m"]);
    assert!(SubagentPolicy::new(0, 1, 1, 1, models(), vec![], vec![]).is_err());
    assert!(SubagentPolicy::new(1, 0, 1, 1, models(), vec![], vec![]).is_err());
    assert!(SubagentPolicy::new(1, 1, 0, 1, models(), vec![], vec![]).is_err());
    assert!(SubagentPolicy::new(1, 1, 1, 0, models(), vec![], vec![]).is_err());
    assert!(SubagentPolicy::new(1, 1, 1, 1, names(&[" "]), vec![], vec![]).is_err());
    assert!(SubagentRequest::new(0, 0, 1, 1, None, vec![]).is_err());
    assert!(SubagentRequest::new(1, 0, 1, 1, Some(" ".into()), vec![]).is_err());
    let error = SubagentRequest::new(1, 0, 1, 1, None, names(&[""])).unwrap_err();
    assert_eq!(error.code, ErrorCode::ToolArgsInvalid);
}

fn user_role(model: &str, tools: &str) -> String {
    format!(
        r#"[{{
          "nickname":"reviser",
          "description":"Review code",
          "instructions":"Find correctness issues and cite evidence.",
          "model":"{model}",
          "allowed_tools":[{tools}],
          "denied_tools":[]
        }}]"#
    )
}

fn parent_policy() -> SubagentPolicy {
    SubagentPolicy::new(
        3,
        2,
        10,
        10_000,
        names(&["deepseek-chat", "model-a"]),
        names(&["read", "search"]),
        names(&["search"]),
    )
    .unwrap()
}

fn identity(prompt: &str) -> RoleTaskIdentity {
    RoleTaskIdentity::new("task-1".into(), prompt.into(), "root".into(), "child-1".into())
        .unwrap()
}

#[test]
fn built_in_and_user_roles_parse_into_sorted_catalog() {
    let user = user_role("model-a", r#""read""#);
    let catalog = RoleCatalog::with_builtins(Some(&user)).unwrap();
    assert_eq!(catalog.nicknames(), &vec!["researcher", "reviser"]);
    assert_eq!(catalog.get("researcher").unwrap().model(), "deepseek-chat");
    assert_eq!(catalog.get("reviser").unwrap().description(), "Review code");
    assert_eq!(catalog.get("missing").unwrap_err().code, ErrorCode::ToolArgsInvalid);
}

#[test]
fn a_catalog_holds_each_role_under_its_nickname() {
    let user = user_role("model-a", r#""read""#);
    let catalog = RoleCatalog::with_builtins(Some(&user)).unwrap();
    let nicknames = catalog.nicknames();
    assert!(nicknames.windows(2).all(|pair| pair[0] < pair[1]));
    for nickname in nicknames {
        assert_eq!(catalog.get(nickname).unwrap().nickname(), nickname);
    }
}

#[test]
fn unknown_malicious_blank_and_duplicate_configuration_fails_closed() {
    let unknown = r#"[{"nickname":"x","description":"d","instructions":"i","model":"m","allowed_tools":[],"denied_tools":[],"__proto__":{}}]"#;
    assert!(parse_roles(unknown).is_err());
    let blank = r#"[{"nickname":" ","description":"d","instructions":"i","model":"m","allowed_tools":[],"denied_tools":[]}]"#;
    assert!(parse_roles(blank).is_err());
    let duplicate_tool = user_role("model-a", r#""read","read""#);
    assert!(parse_roles(&duplicate_tool).is_err());
    let duplicate_roles = [
        parse_roles(&user_role("model-a", r#""read""#)).unwrap(),
        parse_roles(&user_role("model-a", r#""read""#)).unwrap(),
    ]
    .concat();
    assert!(RoleCatalog::from_roles(duplicate_roles).is_err());
    assert!(parse_roles("{}").is_err());
}

#[test]
fn role_generates_deterministic_bounded_subtask_configuration() {
    let role = parse_roles(&user_role("model-a", r#""search","read""#)).unwrap().remove(0);
    let identity = identity("Inspect module");
    let budget = RoleTaskBudget::new(2, 0, 4, 2_000).unwrap();
    let first = role.build_subtask(&identity, &budget, &parent_policy()).unwrap();
    let second = role.build_subtask(&identity, &budget, &parent_policy()).unwrap();
    assert_eq!(format!("{first:?}"), format!("{second:?}"));
    assert_eq!(first.role_nickname(), "reviser");
    assert_eq!(first.request().model().map(|m| m.as_str()), Some("model-a"));
    assert_eq!(first.request().tools().names(), &vec!["read"]);
    assert!(first.task().prompt().starts_with(role.instructions().as_str()));
    assert!(first.child_policy().denied_tools().contains("search"));
}

#[test]
fn role_override_cannot_expand_parent_model_tool_or_budget() {
    let identity = identity("Inspect");
    let budget = RoleTaskBudget::new(2, 0, 4, 2_000).unwrap();
    let bad_model = parse_roles(&user_role("model-b", r#""read""#)).unwrap().remove(0);
    assert_eq!(
        bad_model
            .build_subtask(&identity, &budget, &parent_policy())
            .unwrap_err()
            .code,
        ErrorCode::SandboxDenied
    );
    let bad_tool = parse_roles(&user_role("model-a", r#""exec""#)).unwrap().remove(0);
    assert_eq!(
        bad_tool
            .build_subtask(&identity, &budget, &parent_policy())
            .unwrap_err()
            .code,
        ErrorCode::SandboxDenied
    );
    let excessive = RoleTaskBudget::new(4, 0, 4, 2_000).unwrap();
    let role = parse_roles(&user_role("model-a", r#""read""#)).unwrap().remove(0);
    assert_eq!(
        role.build_subtask(&identity, &excessive, &parent_policy())
            .unwrap_err()
            .code,
        ErrorCode::SandboxDenied
    );
}

#[test]
fn role_tasks_need_a_budget_and_an_identity() {
    assert!(RoleTaskBudget::new(0, 0, 1, 1).is_err());
    assert!(RoleTaskBudget::new(1, 0, 1, 0).is_err());
    let refused =
        RoleTaskIdentity::new("task-1".into(), " ".into(), "root".into(), "child-1".into());
    assert_eq!(refused.unwrap_err().code, ErrorCode::ToolArgsInvalid);
}

struct Unused;

impl ModelProvider for Unused {
    fn complete(&self, _: &str) -> Result<String, ErrorEnvelope> {
        panic!("parent model must not run")
    }
}

struct NoTools;

impl ToolDispatcher for NoTools {
    fn dispatch_with_audit(&self, _: &str, _: &Json) -> Option<ToolExecution> {
        None
    }

    fn is_plugin_tool(&self, _: &str) -> bool {
        false
    }
}

fn events(session: &MemorySession) -> Vec<Event> {
    session.records().iter().map(|record| record.event.clone()).collect()
}

fn task(id: &str, prompt: &str) -> SubagentTask {
    SubagentTask::new(id.into(), prompt.into()).unwrap()
}

struct Counting<'a> {
    calls: &'a Cell<usize>,
    answer: &'static str,
}

impl SubagentRunner for Counting<'_> {
    fn run(
        &self,
        _: &SubagentTask,
        _: &mut SubagentTrace,
        cancellation: &SubagentCancellation,
    ) -> Result<String, ErrorEnvelope> {
        assert!(!cancellation.is_cancelled()?);
        self.calls.set(self.calls.get() + 1);
        Ok(self.answer.into())
    }
}

#[test]
fn parent_cancellation_skips_runner_and_closes_cancelled_lifecycle() {
    let mut session = MemorySession::new();
    let mut parent = AgentLoop::new(&mut session, &NoTools, &Unused);
    let task = SubagentTask::with_lineage(
        "t-cancel".into(),
        "work".into(),
        "root".into(),
        "child-c".into(),
    )
    .unwrap();
    let cancellation = SubagentCancellation::new();
    cancellation.cancel("parent turn interrupted".into()).unwrap();
    let calls = Cell::new(0);
    let request = SubagentRequest::local_default();
    let policy = SubagentPolicy::local_default();
    let delegation = SubagentDelegation::new(
        &request,
        &policy,
        &policy,
        SubagentReportDelivery::Quiet,
        &cancellation,
    );
    let error = parent
        .run_subagent_lifecycle(
            &task,
            &delegation,
            &Counting { calls: &calls, answer: "final report" },
        )
        .unwrap_err();
    assert_eq!(error.code, ErrorCode::SubagentCancelled);
    assert_eq!(calls.get(), 0);

    let events = events(&session);
    assert_eq!(events.len(), 5);
    assert!(matches!(
        &events[1],
        Event::SubagentStarted { parent_id, child_id, .. }
            if parent_id == "root" && child_id == "child-c"
    ));
    assert!(matches!(events[2], Event::SubagentCancellationRequested { .. }));
    assert!(matches!(
        events[3],
        Event::SubagentStopped { outcome: SubagentOutcome::Cancelled, .. }
    ));
    assert!(matches!(events[4], Event::ToolResultAdded { .. }));
}

#[test]
fn quiet_never_wakes_and_next_step_activates_only_when_boundary_is_drained() {
    let mut session = MemorySession::new();
    let mut parent = AgentLoop::new(&mut session, &NoTools, &Unused);
    let calls = Cell::new(0);
    let runner = Counting { calls: &calls, answer: "final report" };
    let request = SubagentRequest::local_default();
    let policy = SubagentPolicy::local_default();
    let quiet_cancellation = SubagentCancellation::new();
    let quiet_delegation = SubagentDelegation::new(
        &request,
        &policy,
        &policy,
        SubagentReportDelivery::Quiet,
        &quiet_cancellation,
    );
    parent
        .run_subagent_lifecycle(&task("t-quiet", "quiet work"), &quiet_delegation, &runner)
        .unwrap();
    assert!(parent.inbox.is_empty());
    assert!(parent.inbox.drain().is_empty());

    let next_cancellation = SubagentCancellation::new();
    let next_delegation = SubagentDelegation::new(
        &request,
        &policy,
        &policy,
        SubagentReportDelivery::NextStep,
        &next_cancellation,
    );
    parent
        .run_subagent_lifecycle(&task("t-next", "next work"), &next_delegation, &runner)
        .unwrap();
    assert!(parent.inbox.is_empty(), "next-step must wait for the boundary");
    assert_eq!(parent.inbox.drain(), vec!["final report"]);
    assert_eq!(calls.get(), 2);
}

#[test]
fn blank_cancellation_reason_is_rejected_without_cancelling() {
    let cancellation = SubagentCancellation::new();
    assert_eq!(
        cancellation.cancel(" ".into()).unwrap_err().code,
        ErrorCode::ToolArgsInvalid
    );
    assert!(!cancellation.is_cancelled().unwrap());
}

#[test]
fn a_cancellation_is_seen_by_every_holder() {
    let cancellation = SubagentCancellation::new();
    let shared = cancellation.share();
    assert!(!cancellation.is_cancelled().unwrap());
    assert!(cancellation.cancel(" ".into()).is_err());
    assert!(!cancellation.is_cancelled().unwrap());
    shared.cancel("stop".into()).unwrap();
    assert!(cancellation.is_cancelled().unwrap());
    assert!(shared.is_cancelled().unwrap());
    assert!(cancellation.share().is_cancelled().unwrap());
}

struct Noting;

impl SubagentRunner for Noting {
    fn run(
        &self,
        _: &SubagentTask,
        trace: &mut SubagentTrace,
        _: &SubagentCancellation,
    ) -> Result<String, ErrorEnvelope> {
        trace.record(Event::UserMessage { text: "a".into() });
        trace.record(Event::UserMessage { text: "b".into() });
        Ok("noted".into())
    }
}

#[test]
fn a_run_hands_the_trace_of_its_child_back() {
    let cancellation = SubagentCancellation::new();
    let task = task("t-note", "work");
    let (trace, given) = run_task(&Noting, &task, SubagentTrace::default(), &cancellation);
    assert_eq!(given.unwrap(), "noted");
    assert_eq!(trace.len(), 2);
}

#[test]
fn the_first_cancellation_reason_stands() {
    let cancellation = SubagentCancellation::new();
    let shared = cancellation.share();
    shared.cancel("first".into()).unwrap();
    cancellation.cancel("second".into()).unwrap();
    assert!(cancellation.is_cancelled().unwrap());
    assert_eq!(cancellation.reason().as_deref(), Some("first"));
}

struct Successful;

impl SubagentRunner for Successful {
    fn run(
        &self,
        task: &SubagentTask,
        trace: &mut SubagentTrace,
        _: &SubagentCancellation,
    ) -> Result<String, ErrorEnvelope> {
        trace.record(Event::UserMessage { text: task.prompt().clone() });
        trace.record(Event::AssistantMessage { text: "private working note".into() });
        Ok("final finding".into())
    }
}

#[test]
fn successful_report_returns_as_paired_parent_events_only() {
    let mut session = MemorySession::new();
    let mut parent = AgentLoop::new(&mut session, &NoTools, &Unused);
    let report =
        parent.run_subagent(&task("research-1", "inspect module"), &Successful).unwrap();
    assert_eq!(report.text, "final finding");
    assert_eq!(report.child_event_count, 2);

    let events = events(&session);
    assert_eq!(events.len(), 5);
    assert!(matches!(
        &events[0],
        Event::ToolCallRequested { tool, .. } if tool == "subagent"
    ));
    assert!(matches!(events[1], Event::SubagentStarted { .. }));
    assert!(matches!(
        events[2],
        Event::SubagentReportDelivered { delivery: SubagentReportDelivery::Quiet, .. }
    ));
    assert!(matches!(
        events[3],
        Event::SubagentStopped { outcome: SubagentOutcome::Succeeded, .. }
    ));
    match &events[4] {
        Event::ToolResultAdded { call_id, outcome: ToolOutcome::Success { value } } => {
            assert_eq!(call_id, "research-1");
            assert_eq!(value.get("kind").unwrap().as_text().unwrap(), "subagent_report");
            assert_eq!(value.get("text").unwrap().as_text().unwrap(), "final finding");
        }
        other => panic!("expected successful report event, got {other:?}"),
    }
    assert!(!format!("{events:?}").contains("private working note"));
}

struct FailsAfterPartialWork;

impl SubagentRunner for FailsAfterPartialWork {
    fn run(
        &self,
        _: &SubagentTask,
        trace: &mut SubagentTrace,
        _: &SubagentCancellation,
    ) -> Result<String, ErrorEnvelope> {
        trace.record(Event::AssistantMessage { text: "partial child output".into() });
        Err(ErrorEnvelope::of(ErrorCode::ModelStreamBroken, "child stream failed"))
    }
}

#[test]
fn child_failure_does_not_leak_partial_trace_into_parent() {
    let mut session = MemorySession::new();
    let mut parent = AgentLoop::new(&mut session, &NoTools, &Unused);
    let error = parent
        .run_subagent(&task("research-2", "fail safely"), &FailsAfterPartialWork)
        .unwrap_err();
    assert_eq!(error.code, ErrorCode::ModelStreamBroken);

    let events = events(&session);
    assert_eq!(events.len(), 4, "parent receives a closed lifecycle and audit pair");
    assert!(matches!(events[0], Event::ToolCallRequested { .. }));
    assert!(matches!(events[1], Event::SubagentStarted { .. }));
    assert!(matches!(
        events[2],
        Event::SubagentStopped { outcome: SubagentOutcome::Failed, .. }
    ));
    assert!(matches!(
        events[3],
        Event::ToolResultAdded {
            outcome: ToolOutcome::Failure {
                error: ErrorEnvelope { code: ErrorCode::ModelStreamBroken, .. }
            },
            ..
        }
    ));
    assert!(!format!("{events:?}").contains("partial child output"));
}

#[test]
fn invalid_task_is_rejected_before_parent_session_changes() {
    let session = MemorySession::new();
    let error = SubagentTask::new(" ".into(), "work".into()).unwrap_err();
    assert_eq!(error.code, ErrorCode::ToolArgsInvalid);
    assert!(session.records().is_empty());
}

#[test]
fn policy_rejection_is_a_complete_parent_pair_and_runner_is_not_called() {
    let mut session = MemorySession::new();
    let mut parent = AgentLoop::new(&mut session, &NoTools, &Unused);
    let policy =
        SubagentPolicy::new(1, 1, 2, 100, names(&["model-a"]), names(&["read"]), vec![]).unwrap();
    let request =
        SubagentRequest::new(2, 0, 2, 100, Some("model-a".into()), names(&["read"])).unwrap();
    let calls = Cell::new(0);

    let error = parent
        .run_subagent_with_policy(
            &task("research-3", "stay bounded"),
            &request,
            &policy,
            &policy,
            &Counting { calls: &calls, answer: "must not run" },
        )
        .unwrap_err();
    assert_eq!(error.code, ErrorCode::SandboxDenied);
    assert_eq!(calls.get(), 0);
    let events = events(&session);
    assert_eq!(events.len(), 2);
    let call_id = match &events[0] {
        Event::ToolCallRequested { call_id, .. } => call_id,
        other => panic!("expected call event, got {other:?}"),
    };
    match &events[1] {
        Event::ToolResultAdded { call_id: result_id, outcome: ToolOutcome::Failure { error } } => {
            assert_eq!(result_id, call_id);
            assert_eq!(error.code, ErrorCode::SandboxDenied);
        }
        other => panic!("expected failed result event, got {other:?}"),
    }
}

#[test]
fn policies_requests_and_roles_are_compared_by_what_they_hold() {
    assert_eq!(policy().clone(), policy());
    assert_ne!(policy(), SubagentPolicy::local_default());
    assert_eq!(request().clone(), request());
    let signal = SubagentCancellation::default();
    signal.clone().cancel("stop".into()).unwrap();
    assert_eq!(signal.reason().as_deref(), Some("stop"));
}
