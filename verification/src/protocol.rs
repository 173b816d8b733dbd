//! The records that sessions, tools and clients exchange.
use vstd::prelude::*;
use crate::json::{a_member_is_the_first_of_its_name, lemma_member_at, member_of, Json, JsonView};
use crate::text::same_text;

verus! {

broadcast use vstd::string::group_string_axioms;

/// A session's name.
pub type SessionId = String;

/// Stable error codes: error handling matches on the code and never reads the
/// message text.
#[derive(Debug, Clone, Copy, PartialEq, Eq, Structural, Hash)]
pub enum ErrorCode {
    ToolArgsInvalid,
    SandboxDenied,
    ApprovalRejected,
    ContextWindowExceeded,
    ModelStreamBroken,
    SubagentCancelled,
    SessionNotFound,
    CursorInvalid,
    TeamRevisionConflict,
    TeamDependencyCycle,
    /// A tool ran past its deadline; effects that it already had stay.
    ToolTimeout,
    /// The loop guard refused a repeated call with the same arguments.
    ToolLoopDetected,
    /// A file changed since it was read.
    FileRevisionConflict,
    Internal,
}

/// The name of a code on the wire.
pub open spec fn code_name(code: ErrorCode) -> Seq<char> {
    match code {
        ErrorCode::ToolArgsInvalid => "tool_args_invalid"@,
        ErrorCode::SandboxDenied => "sandbox_denied"@,
        ErrorCode::ApprovalRejected => "approval_rejected"@,
        ErrorCode::ContextWindowExceeded => "context_window_exceeded"@,
        ErrorCode::ModelStreamBroken => "model_stream_broken"@,
        ErrorCode::SubagentCancelled => "subagent_cancelled"@,
        ErrorCode::SessionNotFound => "session_not_found"@,
        ErrorCode::CursorInvalid => "cursor_invalid"@,
        ErrorCode::TeamRevisionConflict => "team_revision_conflict"@,
        ErrorCode::TeamDependencyCycle => "team_dependency_cycle"@,
        ErrorCode::ToolTimeout => "tool_timeout"@,
        ErrorCode::ToolLoopDetected => "tool_loop_detected"@,
        ErrorCode::FileRevisionConflict => "file_revision_conflict"@,
        ErrorCode::Internal => "internal"@,
    }
}

impl ErrorCode {
    /// The name of the code on the wire.
    pub fn wire_name(self) -> (r: &'static str)
        ensures
            r@ == code_name(self),
    {
        match self {
            ErrorCode::ToolArgsInvalid => "tool_args_invalid",
            ErrorCode::SandboxDenied => "sandbox_denied",
            ErrorCode::ApprovalRejected => "approval_rejected",
            ErrorCode::ContextWindowExceeded => "context_window_exceeded",
            ErrorCode::ModelStreamBroken => "model_stream_broken",
            ErrorCode::SubagentCancelled => "subagent_cancelled",
            ErrorCode::SessionNotFound => "session_not_found",
            ErrorCode::CursorInvalid => "cursor_invalid",
            ErrorCode::TeamRevisionConflict => "team_revision_conflict",
            ErrorCode::TeamDependencyCycle => "team_dependency_cycle",
            ErrorCode::ToolTimeout => "tool_timeout",
            ErrorCode::ToolLoopDetected => "tool_loop_detected",
            ErrorCode::FileRevisionConflict => "file_revision_conflict",
            ErrorCode::Internal => "internal",
        }
    }
}

// ---------------------------------------------------------------------------
// Errors and tool outcomes
// ---------------------------------------------------------------------------

/// An error: the code is for routing, the message for people and models.
#[derive(Debug, PartialEq, Eq)]
pub struct ErrorEnvelope {
    pub code: ErrorCode,
    pub message: String,
}

pub struct ErrorView {
    pub code: ErrorCode,
    pub message: Seq<char>,
}

impl View for ErrorEnvelope {
    type V = ErrorView;

    open spec fn view(&self) -> ErrorView {
        ErrorView { code: self.code, message: self.message@ }
    }
}

/// The error with a given code and message.
pub open spec fn error(code: ErrorCode, message: Seq<char>) -> ErrorView {
    ErrorView { code, message }
}

/// The error of a result.
pub open spec fn failure_of(r: Result<(), ErrorEnvelope>) -> Option<ErrorView> {
    match r {
        Ok(()) => None,
        Err(e) => Some(e@),
    }
}

impl ErrorEnvelope {
    pub fn new(code: ErrorCode, message: String) -> (r: ErrorEnvelope)
        ensures
            r@ == error(code, message@),
    {
        ErrorEnvelope { code, message }
    }

    /// An error whose message is a text of the library.
    pub fn of(code: ErrorCode, message: &str) -> (r: ErrorEnvelope)
        ensures
            r@ == error(code, message@),
    {
        ErrorEnvelope { code, message: message.to_owned() }
    }
}

impl Clone for ErrorEnvelope {
    fn clone(&self) -> (r: ErrorEnvelope)
        ensures
            r@ == self@,
    {
        ErrorEnvelope { code: self.code, message: self.message.clone() }
    }
}

/// What running a tool came to.
#[derive(Debug, PartialEq, Eq)]
pub enum ToolOutcome {
    Success { value: Json },
    Failure { error: ErrorEnvelope },
}

pub enum OutcomeView {
    Success { value: JsonView },
    Failure { error: ErrorView },
}

impl View for ToolOutcome {
    type V = OutcomeView;

    open spec fn view(&self) -> OutcomeView {
        match self {
            ToolOutcome::Success { value } => OutcomeView::Success { value: value@ },
            ToolOutcome::Failure { error } => OutcomeView::Failure { error: error@ },
        }
    }
}

impl Clone for ToolOutcome {
    fn clone(&self) -> (r: ToolOutcome)
        ensures
            r@ == self@,
    {
        match self {
            ToolOutcome::Success { value } => ToolOutcome::Success { value: value.clone() },
            ToolOutcome::Failure { error } => ToolOutcome::Failure { error: error.clone() },
        }
    }
}

/// An error as a JSON value.
pub open spec fn error_json(e: ErrorView) -> JsonView {
    JsonView::Object(
        seq![
            ("code"@, JsonView::Text(code_name(e.code))),
            ("message"@, JsonView::Text(e.message)),
        ],
    )
}

/// A tool outcome as a JSON value.
pub open spec fn outcome_json(o: OutcomeView) -> JsonView {
    match o {
        OutcomeView::Success { value } => JsonView::Object(
            seq![("success"@, JsonView::Object(seq![("value"@, value)]))],
        ),
        OutcomeView::Failure { error } => JsonView::Object(
            seq![("failure"@, JsonView::Object(seq![("error"@, error_json(error))]))],
        ),
    }
}

impl ErrorEnvelope {
    pub fn to_json(&self) -> (r: Json)
        ensures
            r@ == error_json(self@),
    {
        let mut members: Vec<(String, Json)> = Vec::new();
        members.push(("code".to_string(), Json::Text(self.code.wire_name().to_string())));
        members.push(("message".to_string(), Json::Text(self.message.clone())));
        proof {
            crate::json::lemma_object_view(members);
            assert(crate::json::members_view(members@) =~= error_json(self@)->Object_0);
        }
        Json::Object(members)
    }
}

impl ToolOutcome {
    pub fn to_json(&self) -> (r: Json)
        ensures
            r@ == outcome_json(self@),
    {
        match self {
            ToolOutcome::Success { value } => one_member(
                "success",
                one_member("value", value.clone()),
            ),
            ToolOutcome::Failure { error } => one_member(
                "failure",
                one_member("error", error.to_json()),
            ),
        }
    }
}

/// The object with one member.
pub fn one_member(name: &str, value: Json) -> (r: Json)
    ensures
        r@ == JsonView::Object(seq![(name@, value@)]),
{
    let mut members: Vec<(String, Json)> = Vec::new();
    members.push((name.to_owned(), value));
    proof {
        crate::json::lemma_object_view(members);
        assert(crate::json::members_view(members@) =~= seq![(name@, value@)]);
    }
    Json::Object(members)
}

// ---------------------------------------------------------------------------
// Model calls
// ---------------------------------------------------------------------------

/// A tool call that a model asked for. `arguments` keeps the JSON text as the
/// provider sent it.
#[derive(Debug, PartialEq, Eq, Clone)]
pub struct ModelToolCall {
    pub id: String,
    pub name: String,
    pub arguments: String,
}

/// What a model sees of a session.
#[derive(Debug, PartialEq, Eq, Clone)]
pub enum ModelSurfaceMessage {
    SystemSummary { text: String },
    User { text: String },
    Assistant { text: String },
    AssistantToolCalls { request_id: String, calls: Vec<ModelToolCall> },
    ToolResult { call_id: String, outcome: ToolOutcome },
}

/// A message that the model sees, with the events that it comes from.
#[derive(Debug, PartialEq, Eq, Clone)]
pub struct ModelSurfaceEntry {
    pub message: ModelSurfaceMessage,
    pub source_event_seqs: Vec<u64>,
}

/// Where a token count comes from.
#[derive(Debug, Clone, Copy, PartialEq, Eq, Structural)]
pub enum TokenUsageSource {
    Provider,
    Heuristic,
}

/// The token count that a provider gave for one sample.
#[derive(Debug, Clone, Copy, PartialEq, Eq, Structural)]
pub struct ModelTokenUsage {
    pub total_tokens: u64,
}

/// How one model call is made. The temperature is a decimal number, or absent
/// for the provider's default.
#[derive(Debug, PartialEq, Eq)]
pub struct ModelCallSpec {
    pub model: String,
    pub base_url: String,
    pub temperature: Option<String>,
}

impl Clone for ModelCallSpec {
    fn clone(&self) -> (r: ModelCallSpec)
        ensures
            r == *self,
    {
        ModelCallSpec {
            model: self.model.clone(),
            base_url: self.base_url.clone(),
            temperature: match &self.temperature {
                Some(t) => Some(t.clone()),
                None => None,
            },
        }
    }
}

// ---------------------------------------------------------------------------
// Authorization
// ---------------------------------------------------------------------------

/// The facts of the place where commands run.
#[derive(Debug, PartialEq, Eq)]
pub struct ExecutorEnvironment {
    pub os: String,
    pub home: String,
    pub workspace: String,
    pub generation: u64,
}

pub struct ExecutorView {
    pub os: Seq<char>,
    pub home: Seq<char>,
    pub workspace: Seq<char>,
    pub generation: u64,
}

impl View for ExecutorEnvironment {
    type V = ExecutorView;

    open spec fn view(&self) -> ExecutorView {
        ExecutorView {
            os: self.os@,
            home: self.home@,
            workspace: self.workspace@,
            generation: self.generation,
        }
    }
}

impl Clone for ExecutorEnvironment {
    fn clone(&self) -> (r: ExecutorEnvironment)
        ensures
            r@ == self@,
    {
        ExecutorEnvironment {
            os: self.os.clone(),
            home: self.home.clone(),
            workspace: self.workspace.clone(),
            generation: self.generation,
        }
    }
}

/// Everything that one authorization is bound to.
#[derive(Debug, PartialEq, Eq)]
pub struct AuthorizationContext {
    pub policy_epoch: u64,
    pub permission_profile_hash: String,
    pub executor: ExecutorEnvironment,
}

pub struct AuthorizationView {
    pub policy_epoch: u64,
    pub permission_profile_hash: Seq<char>,
    pub executor: ExecutorView,
}

impl View for AuthorizationContext {
    type V = AuthorizationView;

    open spec fn view(&self) -> AuthorizationView {
        AuthorizationView {
            policy_epoch: self.policy_epoch,
            permission_profile_hash: self.permission_profile_hash@,
            executor: self.executor@,
        }
    }
}

impl Clone for AuthorizationContext {
    fn clone(&self) -> (r: AuthorizationContext)
        ensures
            r@ == self@,
    {
        AuthorizationContext {
            policy_epoch: self.policy_epoch,
            permission_profile_hash: self.permission_profile_hash.clone(),
            executor: self.executor.clone(),
        }
    }
}

impl AuthorizationContext {
    /// Whether two contexts agree in every field.
    pub fn same(&self, other: &AuthorizationContext) -> (r: bool)
        ensures
            r == (self@ == other@),
    {
        self.policy_epoch == other.policy_epoch && same_text(
            &self.permission_profile_hash,
            &other.permission_profile_hash,
        ) && same_text(&self.executor.os, &other.executor.os) && same_text(
            &self.executor.home,
            &other.executor.home,
        ) && same_text(&self.executor.workspace, &other.executor.workspace)
            && self.executor.generation == other.executor.generation
    }
}

// ---------------------------------------------------------------------------
// Subagents, tools and teams
// ---------------------------------------------------------------------------

/// How a subagent ended.
#[derive(Debug, Clone, Copy, PartialEq, Eq, Structural)]
pub enum SubagentOutcome {
    Succeeded,
    Failed,
    Cancelled,
}

/// Who wrote a memory.
#[derive(Debug, Clone, Copy, PartialEq, Eq, Structural)]
pub enum MemorySource {
    Model,
}

/// Which sessions a memory is for.
#[derive(Debug, Clone, Copy, PartialEq, Eq, Structural)]
pub enum MemoryScope {
    /// The session and those that come from it.
    LineageOnly,
}

/// How a subagent's report reaches its parent.
#[derive(Debug, Clone, Copy, PartialEq, Eq, Structural)]
pub enum SubagentReportDelivery {
    /// Into the parent's inbox at the next turn boundary.
    NextStep,
    /// Recorded only.
    Quiet,
}

/// Why a tool was stopped.
#[derive(Debug, Clone, Copy, PartialEq, Eq, Structural)]
pub enum ToolTermination {
    DeadlineExceeded,
    Cancelled,
    ProcessTreeTerminated,
}

#[derive(Debug, Clone, Copy, PartialEq, Eq, Structural)]
pub enum TeamTaskStatus {
    Pending,
    InProgress,
    Blocked,
    Completed,
    Failed,
    Cancelled,
}

#[derive(Debug, PartialEq, Eq, Clone)]
pub struct TeamMember {
    pub member_id: String,
    pub parent_id: String,
}

#[derive(Debug, PartialEq, Eq, Clone)]
pub struct TeamMessage {
    pub message_id: String,
    pub from_member_id: String,
    pub to_member_id: String,
    pub body: String,
}

#[derive(Debug, PartialEq, Eq, Clone)]
pub struct TeamTask {
    pub task_id: String,
    pub owner_member_id: String,
    pub revision: u64,
    pub status: TeamTaskStatus,
    pub blocked_by: Vec<String>,
    pub write_scopes: Vec<String>,
}

#[derive(Debug, PartialEq, Eq, Clone)]
pub struct TeamWriteScopeConflict {
    pub task_id: String,
    pub conflicting_task_id: String,
    pub scope: String,
}

// ---------------------------------------------------------------------------
// Events
// ---------------------------------------------------------------------------

/// One record of the append-only event stream of a session.
#[derive(Debug, PartialEq, Eq, Clone)]
pub enum Event {
    TurnStarted { turn_id: u64 },
    UserMessage { text: String },
    /// Input that came while a turn was running.
    UserInputQueued { text: String },
    AssistantMessage { text: String },
    ModelChunkReceived { call_id: String, delta_text: String },
    ToolCallRequested { call_id: String, tool: String, args: Json },
    ToolResultAdded { call_id: String, outcome: ToolOutcome },
    /// The batch of tool calls as it went to the model.
    ModelToolCallsRequested { request_id: String, calls: Vec<ModelToolCall> },
    CompactionApplied {
        summary: String,
        compacted_messages: Option<u64>,
        source_event_seqs: Vec<u64>,
    },
    TokenBudgetConfigured { root_agent_id: String, token_budget: u64 },
    /// One per successful sample; the path leads from the root to the consumer.
    TokenUsageRecorded {
        usage_id: String,
        agent_path: Vec<String>,
        total_tokens: u64,
        source: TokenUsageSource,
    },
    ApprovalDecided {
        call_id: String,
        approved: bool,
        authorization: Option<AuthorizationContext>,
    },
    /// Permissions or the executor changed while an approval was pending.
    AuthorizationInvalidated {
        call_id: String,
        previous: AuthorizationContext,
        current: AuthorizationContext,
    },
    NetworkAccessDenied { host: String, port: u16, reason: String },
    SubagentStarted { task_id: String, parent_id: String, child_id: String },
    SubagentCancellationRequested { task_id: String, child_id: String, reason: String },
    SubagentReportDelivered {
        task_id: String,
        child_id: String,
        delivery: SubagentReportDelivery,
        text: String,
    },
    SubagentStopped { task_id: String, child_id: String, outcome: SubagentOutcome },
    ToolExecutionTerminated { call_id: String, termination: ToolTermination },
    MemoryRecorded { memory_id: String, text: String, tags: Vec<String> },
    MemoryContextInjected { summary: String },
    TeamMemberRegistered { member: TeamMember },
    TeamMessageEnqueued { message: TeamMessage },
    TeamMessageDelivered { message_id: String, to_member_id: String },
    TeamTaskCreated { task: TeamTask },
    TeamTaskUpdated { expected_revision: u64, task: TeamTask },
    TeamWriteScopeConflictDetected { conflict: TeamWriteScopeConflict },
    TurnCompleted { turn_id: u64 },
    TurnAborted { turn_id: u64, reason: String },
}

/// An event with its place in the stream.
#[derive(Debug, PartialEq, Eq, Clone)]
pub struct SequencedEvent {
    pub seq: u64,
    pub event: Event,
}

// ---------------------------------------------------------------------------
// Copies of lists
// ---------------------------------------------------------------------------

/// A copy of a list of strings.
pub fn copy_texts(list: &Vec<String>) -> (r: Vec<String>)
    ensures
        r@ == list@,
{
    let mut r: Vec<String> = Vec::new();
    let mut i: usize = 0;
    while i < list.len()
        invariant
            i <= list@.len(),
            r@ == list@.take(i as int),
        decreases list@.len() - i,
    {
        r.push(list[i].clone());
        i = i + 1;
        assert(r@ =~= list@.take(i as int));
    }
    assert(r@ =~= list@);
    r
}

// ---------------------------------------------------------------------------
// Laws
// ---------------------------------------------------------------------------

/// The code of an error is shown by its own name, and by no other's.
pub proof fn a_code_has_one_name(a: ErrorCode, b: ErrorCode)
    ensures
        code_name(ErrorCode::ToolArgsInvalid) == "tool_args_invalid"@,
        code_name(ErrorCode::SandboxDenied) == "sandbox_denied"@,
        code_name(ErrorCode::ApprovalRejected) == "approval_rejected"@,
        code_name(ErrorCode::ContextWindowExceeded) == "context_window_exceeded"@,
        code_name(ErrorCode::ModelStreamBroken) == "model_stream_broken"@,
        code_name(ErrorCode::SubagentCancelled) == "subagent_cancelled"@,
        code_name(ErrorCode::SessionNotFound) == "session_not_found"@,
        code_name(ErrorCode::CursorInvalid) == "cursor_invalid"@,
        code_name(ErrorCode::TeamRevisionConflict) == "team_revision_conflict"@,
        code_name(ErrorCode::TeamDependencyCycle) == "team_dependency_cycle"@,
        code_name(ErrorCode::ToolTimeout) == "tool_timeout"@,
        code_name(ErrorCode::ToolLoopDetected) == "tool_loop_detected"@,
        code_name(ErrorCode::FileRevisionConflict) == "file_revision_conflict"@,
        code_name(ErrorCode::Internal) == "internal"@,
        code_name(a) == code_name(b) <==> a == b,
{
    reveal_strlit("tool_args_invalid");
    reveal_strlit("sandbox_denied");
    reveal_strlit("approval_rejected");
    reveal_strlit("context_window_exceeded");
    reveal_strlit("model_stream_broken");
    reveal_strlit("subagent_cancelled");
    reveal_strlit("session_not_found");
    reveal_strlit("cursor_invalid");
    reveal_strlit("team_revision_conflict");
    reveal_strlit("team_dependency_cycle");
    reveal_strlit("tool_timeout");
    reveal_strlit("tool_loop_detected");
    reveal_strlit("file_revision_conflict");
    reveal_strlit("internal");
    assert("tool_args_invalid"@.len() == 17);
    assert("sandbox_denied"@.len() == 14);
    assert("approval_rejected"@.len() == 17);
    assert("context_window_exceeded"@.len() == 23);
    assert("model_stream_broken"@.len() == 19);
    assert("subagent_cancelled"@.len() == 18);
    assert("session_not_found"@.len() == 17);
    assert("cursor_invalid"@.len() == 14);
    assert("team_revision_conflict"@.len() == 22);
    assert("team_dependency_cycle"@.len() == 21);
    assert("tool_timeout"@.len() == 12);
    assert("tool_loop_detected"@.len() == 18);
    assert("file_revision_conflict"@.len() == 22);
    assert("internal"@.len() == 8);
    assert("tool_args_invalid"@[0] != "approval_rejected"@[0]);
    assert("tool_args_invalid"@[0] != "session_not_found"@[0]);
    assert("approval_rejected"@[0] != "session_not_found"@[0]);
    assert("sandbox_denied"@[0] != "cursor_invalid"@[0]);
    assert("subagent_cancelled"@[0] != "tool_loop_detected"@[0]);
    assert("team_revision_conflict"@[0] != "file_revision_conflict"@[0]);
}

/// An error is shown with its code and its message, so that both are read back.
pub proof fn an_error_is_shown_in_full(a: ErrorView, b: ErrorView)
    ensures
        member_of(error_json(a), "code"@) == Some(JsonView::Text(code_name(a.code))),
        member_of(error_json(a), "message"@) == Some(JsonView::Text(a.message)),
        error_json(a) == error_json(b) ==> a == b,
{
    reveal_strlit("code");
    reveal_strlit("message");
    assert("code"@.len() == 4);
    assert("message"@.len() == 7);
    lemma_member_at(error_json(a)->Object_0, 0);
    lemma_member_at(error_json(a)->Object_0, 1);
    lemma_member_at(error_json(b)->Object_0, 0);
    lemma_member_at(error_json(b)->Object_0, 1);
    a_code_has_one_name(a.code, b.code);
}

/// An outcome is shown as a success with its value or as a failure with its error, never both.
pub proof fn an_outcome_is_shown_in_full(o: OutcomeView)
    ensures
        match o {
            OutcomeView::Success { value } => {
                &&& member_of(outcome_json(o), "success"@) is Some
                &&& member_of(member_of(outcome_json(o), "success"@)->0, "value"@) == Some(value)
                &&& member_of(outcome_json(o), "failure"@) is None
            },
            OutcomeView::Failure { error } => {
                &&& member_of(outcome_json(o), "failure"@) is Some
                &&& member_of(member_of(outcome_json(o), "failure"@)->0, "error"@) == Some(
                    error_json(error),
                )
                &&& member_of(outcome_json(o), "success"@) is None
            },
        },
{
    reveal_strlit("success");
    reveal_strlit("failure");
    reveal_strlit("value");
    reveal_strlit("error");
    assert("success"@.len() == 7);
    assert("failure"@.len() == 7);
    assert("value"@.len() == 5);
    assert("error"@.len() == 5);
    assert("success"@[0] != "failure"@[0]);
    assert("value"@[0] != "error"@[0]);
    let members = outcome_json(o)->Object_0;
    lemma_member_at(members, 0);
    lemma_member_at(members[0].1->Object_0, 0);
    a_member_is_the_first_of_its_name(members, "success"@);
    a_member_is_the_first_of_its_name(members, "failure"@);
}

} // verus!
