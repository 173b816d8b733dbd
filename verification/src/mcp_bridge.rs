//! Calls of tools that an MCP server offers: recorded like any other call, approved
//! or refused on the record, with long output kept outside the event stream.
use vstd::prelude::*;
use crate::chat_turn::execute_hook;
use crate::hooks::{
    bumped, hook_rules, hooks_idle, ran_hooks, rounds_in, sequence_of, ContextView,
    HookContext, HookPoint, HookRegistry, HookRules,
};
use crate::json::{lemma_member_at, lemma_object_view, member_of, members_view, Json, JsonView};
use crate::protocol::{
    error, failure_of, ErrorCode, ErrorEnvelope, ErrorView, Event, OutcomeView, ToolOutcome,
};
use crate::session::{
    added, all_taken, extends, lemma_extends_push, lemma_extends_refl, lemma_extends_trans,
    lemma_kept_push, lemma_kept_trans, lemma_pair_kept, Handed, SessionStore, StoredEvents,
};
use crate::text::{blank, chars_of, concat2, concat4, is_blank, same_text};
use crate::usage::{lemma_ledger_push, lemma_step_push, lemma_step_refl, lemma_step_trans, step_ok};

verus! {

broadcast use vstd::string::group_string_axioms;

/// One call of an MCP tool.
#[derive(Debug, PartialEq, Eq, Clone)]
pub struct McpInvocation {
    call_id: String,
    tool: String,
    arguments: Json,
    approved: bool,
    spill_root: String,
}

pub struct InvocationView {
    pub call_id: Seq<char>,
    pub tool: Seq<char>,
    pub arguments: JsonView,
    pub approved: bool,
    pub spill_root: Seq<char>,
}

impl View for McpInvocation {
    type V = InvocationView;

    closed spec fn view(&self) -> InvocationView {
        InvocationView {
            call_id: self.call_id@,
            tool: self.tool@,
            arguments: self.arguments@,
            approved: self.approved,
            spill_root: self.spill_root@,
        }
    }
}

impl McpInvocation {
    pub fn new(
        call_id: String,
        tool: String,
        arguments: Json,
        approved: bool,
        spill_root: String,
    ) -> (r: Result<McpInvocation, ErrorEnvelope>)
        ensures
            match r {
                Ok(i) => {
                    &&& !blank(call_id@) && !blank(tool@) && spill_root@.len() > 0
                    &&& i@ == (InvocationView {
                        call_id: call_id@,
                        tool: tool@,
                        arguments: arguments@,
                        approved,
                        spill_root: spill_root@,
                    })
                },
                Err(e) => {
                    &&& blank(call_id@) || blank(tool@) || spill_root@.len() == 0
                    &&& e@ == error(
                        ErrorCode::ToolArgsInvalid,
                        "MCP call id, tool and spill root are required"@,
                    )
                },
            },
    {
        if is_blank(&call_id) || is_blank(&tool) || spill_root.as_str().is_empty() {
            return Err(
                ErrorEnvelope::of(
                    ErrorCode::ToolArgsInvalid,
                    "MCP call id, tool and spill root are required",
                ),
            );
        }
        Ok(McpInvocation { call_id, tool, arguments, approved, spill_root })
    }

    pub fn call_id(&self) -> (r: &String)
        ensures
            r@ == self@.call_id,
    {
        &self.call_id
    }
}

/// What an MCP server gave back.
#[derive(Debug, PartialEq, Eq)]
pub struct McpCallResult {
    pub source: String,
    pub tool: String,
    /// The output as far as it may be shown.
    pub visible_output: String,
    pub full_output: String,
    pub truncated: bool,
    pub output_limit_bytes: usize,
}

/// A connection to an MCP server.
pub trait McpCaller {
    fn call(&mut self, tool: &str, arguments: &Json) -> Result<McpCallResult, ErrorEnvelope>;
}

/// The server was asked over `caller` to run a tool and gave `r`.
pub open spec fn server_gave<C: McpCaller>(
    caller: C,
    tool: &str,
    arguments: &Json,
    r: Result<McpCallResult, ErrorEnvelope>,
) -> bool {
    exists|c: &mut C| #[trigger] call_ensures(C::call, (c, tool, arguments), r) && *c == caller
}

fn ask_server<C: McpCaller>(caller: &mut C, tool: &str, arguments: &Json) -> (r: Result<
    McpCallResult,
    ErrorEnvelope,
>)
    ensures
        server_gave(*old(caller), tool, arguments, r),
        exists|c: &mut C| #[trigger]
            call_ensures(C::call, (c, tool, arguments), r) && *c == *old(caller) && *final(c)
                == *final(caller),
{
    caller.call(tool, arguments)
}

/// What the server gave for an invocation.
pub open spec fn was_called<C: McpCaller>(
    caller: C,
    i: InvocationView,
    r: Result<McpCallResult, ErrorEnvelope>,
) -> bool {
    exists|tool: &str, arguments: Json| #[trigger]
        server_gave(caller, tool, &arguments, r) && tool@ == i.tool && arguments@ == i.arguments
}

/// Keeps output that is too long for the event stream, and gives the value that
/// stands for it there.
pub trait SpillSink {
    fn store(
        &self,
        root: &str,
        limit_bytes: usize,
        preview_chars: usize,
        call_id: &str,
        output: &str,
    ) -> Result<Json, String>;
}

pub open spec fn spill_error(detail: Seq<char>) -> ErrorView {
    error(ErrorCode::Internal, "failed to spill MCP output: "@ + detail)
}

/// The recorded outcome of a call. `spilled` is what the sink gave for output that
/// was cut short, and nothing for output that was not.
pub open spec fn mcp_outcome(
    source: Seq<char>,
    tool: Seq<char>,
    visible: Seq<char>,
    spilled: Option<JsonView>,
) -> OutcomeView {
    OutcomeView::Success {
        value: JsonView::Object(
            seq![
                (
                    "output"@,
                    match spilled {
                        Some(value) => value,
                        None => JsonView::Text(visible),
                    },
                ),
                ("source"@, JsonView::Text(source)),
                ("tool"@, JsonView::Text(tool)),
            ],
        ),
    }
}

/// Builds the recorded outcome of a call from what the sink gave.
pub fn outcome_with(result: &McpCallResult, spilled: Option<Json>) -> (r: ToolOutcome)
    ensures
        r@ == mcp_outcome(
            result.source@,
            result.tool@,
            result.visible_output@,
            match spilled {
                Some(j) => Some(j@),
                None => None,
            },
        ),
{
    let ghost given: Option<JsonView> = match &spilled {
        Some(j) => Some(j@),
        None => None,
    };
    let output = match spilled {
        Some(value) => value,
        None => Json::Text(result.visible_output.clone()),
    };
    let mut members: Vec<(String, Json)> = Vec::new();
    members.push(("output".to_string(), output));
    members.push(("source".to_string(), Json::Text(result.source.clone())));
    members.push(("tool".to_string(), Json::Text(result.tool.clone())));
    proof {
        lemma_object_view(members);
        assert(members_view(members@) =~= mcp_outcome(
            result.source@,
            result.tool@,
            result.visible_output@,
            given,
        )->value->Object_0);
    }
    ToolOutcome::Success { value: Json::Object(members) }
}

/// The number of characters that a spilled output is shown with: as many as were
/// visible, and at least one.
pub open spec fn shown_chars(visible: Seq<char>) -> nat {
    if visible.len() == 0 {
        1
    } else {
        visible.len()
    }
}

pub fn preview_chars(result: &McpCallResult) -> (r: usize)
    ensures
        r == shown_chars(result.visible_output@),
{
    let n: usize = chars_of(&result.visible_output).len();
    if n == 0 {
        1
    } else {
        n
    }
}

/// `stored` is what the sink made of the full output of a call.
pub open spec fn spilled_as<K: SpillSink>(
    sink: &K,
    i: InvocationView,
    result: McpCallResult,
    stored: Result<Json, String>,
) -> bool {
    exists|root: &str, shown: usize, call_id: &str, output: &str|
        {
            &&& root@ == i.spill_root
            &&& shown == shown_chars(result.visible_output@)
            &&& call_id@ == i.call_id
            &&& output@ == result.full_output@
            &&& #[trigger] call_ensures(
                K::store,
                (sink, root, result.output_limit_bytes, shown, call_id, output),
                stored,
            )
        }
}

/// What a call comes to, given what the server gave. Output that was cut short is
/// stored, and shown as what the sink gave for it.
pub open spec fn projected_as<K: SpillSink>(
    sink: &K,
    i: InvocationView,
    called: Result<McpCallResult, ErrorEnvelope>,
    r: Result<ToolOutcome, ErrorEnvelope>,
) -> bool {
    match called {
        Err(e) => r is Err && r->Err_0@ == e@,
        Ok(result) => if !result.truncated {
            r is Ok && r->Ok_0@ == mcp_outcome(
                result.source@,
                result.tool@,
                result.visible_output@,
                None,
            )
        } else {
            exists|stored: Result<Json, String>|
                {
                    &&& #[trigger] spilled_as(sink, i, result, stored)
                    &&& match stored {
                        Ok(value) => r is Ok && r->Ok_0@ == mcp_outcome(
                            result.source@,
                            result.tool@,
                            result.visible_output@,
                            Some(value@),
                        ),
                        Err(e) => r is Err && r->Err_0@ == spill_error(e@),
                    }
                }
        },
    }
}

fn project_result<K: SpillSink>(
    invocation: &McpInvocation,
    result: &McpCallResult,
    sink: &K,
) -> (r: Result<ToolOutcome, ErrorEnvelope>)
    ensures
        projected_as(sink, invocation@, Ok(*result), r),
        r matches Ok(o) ==> o@ is Success,
{
    if !result.truncated {
        return Ok(outcome_with(result, None));
    }
    let shown: usize = preview_chars(result);
    let root = invocation.spill_root.as_str();
    let call_id = invocation.call_id.as_str();
    let output = result.full_output.as_str();
    let stored = sink.store(root, result.output_limit_bytes, shown, call_id, output);
    assert(call_ensures(
        K::store,
        (sink, root, result.output_limit_bytes, shown, call_id, output),
        stored,
    ));
    assert(spilled_as(sink, invocation@, *result, stored));
    match stored {
        Ok(value) => Ok(outcome_with(result, Some(value))),
        Err(e) => Err(
            ErrorEnvelope::new(ErrorCode::Internal, concat2("failed to spill MCP output: ", &e)),
        ),
    }
}

pub open spec fn mcp_tool(source: Seq<char>, tool: Seq<char>) -> Seq<char> {
    "mcp:"@ + source + ":"@ + tool
}

pub open spec fn refused_error() -> ErrorView {
    error(ErrorCode::ApprovalRejected, "MCP invocation rejected by approval policy"@)
}

pub open spec fn handle_error() -> ErrorView {
    error(
        ErrorCode::ToolArgsInvalid,
        "MCP invocation tool does not match the managed handle"@,
    )
}

pub open spec fn is_mcp_call(e: Event, i: InvocationView, source: Seq<char>) -> bool {
    e matches Event::ToolCallRequested { call_id, tool, args } && call_id@ == i.call_id && tool@
        == mcp_tool(source, i.tool) && args@ == i.arguments
}

pub open spec fn is_mcp_approval(e: Event, i: InvocationView) -> bool {
    e matches Event::ApprovalDecided { call_id, approved, authorization } && call_id@ == i.call_id
        && approved == i.approved && authorization is None
}

pub open spec fn is_mcp_result(e: Event, i: InvocationView, o: OutcomeView) -> bool {
    e matches Event::ToolResultAdded { call_id, outcome } && call_id@ == i.call_id && outcome@ == o
}

/// The error of a record that the session did not take.
pub open spec fn mcp_audit_error(detail: Seq<char>) -> ErrorView {
    error(ErrorCode::Internal, "failed to append MCP audit event: "@ + detail)
}

fn append<S: SessionStore>(session: &mut S, event: Event) -> (r: Result<(), ErrorEnvelope>)
    ensures
        final(session).intact() ==> old(session).intact(),
        final(session).intact() ==> r is Ok,
        r is Ok ==> final(session).events() == old(session).events().push(event),
        r is Err ==> final(session).events() == old(session).events(),
        final(session).handed() == old(session).handed().push(final(session).handed().last()),
        final(session).handed().last().event == event,
        match final(session).handed().last().refused {
            None => r is Ok,
            Some(detail) => r is Err && r->Err_0@ == mcp_audit_error(detail),
        },
{
    match session.append(event) {
        Ok(_) => Ok(()),
        Err(e) => Err(
            ErrorEnvelope::new(
                ErrorCode::Internal,
                concat2("failed to append MCP audit event: ", &e),
            ),
        ),
    }
}

/// What an invocation comes to once it is approved: what the server gave, or that
/// the tool is not the one of the handle.
fn call_result<C: McpCaller, K: SpillSink>(
    handle: Option<&str>,
    invocation: &McpInvocation,
    caller: &mut C,
    sink: &K,
) -> (r: Result<ToolOutcome, ErrorEnvelope>)
    ensures
        handle is Some && handle->0@ != invocation@.tool ==> r is Err && r->Err_0@
            == handle_error(),
        handle is Some && handle->0@ != invocation@.tool ==> *final(caller) == *old(caller),
        handle is None || handle->0@ == invocation@.tool ==> exists|
            called: Result<McpCallResult, ErrorEnvelope>,
        |
            {
                &&& was_called(*old(caller), invocation@, called)
                &&& #[trigger] projected_as(sink, invocation@, called, r)
                &&& exists|c: &mut C, tool: &str, arguments: Json|
                    {
                        &&& #[trigger] call_ensures(C::call, (c, tool, &arguments), called)
                        &&& *c == *old(caller)
                        &&& *final(c) == *final(caller)
                        &&& tool@ == invocation@.tool
                        &&& arguments@ == invocation@.arguments
                    }
            },
        r matches Ok(o) ==> o@ is Success,
{
    match handle {
        Some(name) => {
            if !same_text(&invocation.tool, name) {
                return Err(
                    ErrorEnvelope::of(
                        ErrorCode::ToolArgsInvalid,
                        "MCP invocation tool does not match the managed handle",
                    ),
                );
            }
        },
        None => {},
    }
    let ghost connection = *caller;
    let tool = invocation.tool.as_str();
    let called = ask_server(caller, tool, &invocation.arguments);
    let ghost given = called;
    assert(server_gave(connection, tool, &invocation.arguments, given));
    let r = match called {
        Err(e) => Err(e),
        Ok(result) => project_result(invocation, &result, sink),
    };
    assert(projected_as(sink, invocation@, given, r));
    r
}

/// What the hooks of a call are told.
pub open spec fn mcp_context(
    point: HookPoint,
    i: InvocationView,
    source: Seq<char>,
    outcome: Option<OutcomeView>,
) -> ContextView {
    ContextView {
        point,
        turn_id: None,
        call_id: Some(i.call_id),
        tool: Some(mcp_tool(source, i.tool)),
        detail: None,
        outcome,
    }
}

/// What the approval, the server and the sink made of a call. `called` is what the server
/// gave, and nothing where it was not asked; then `left`, the connection after it, is as it
/// was.
pub open spec fn is_mcp_outcome<C: McpCaller, K: SpillSink>(
    caller: C,
    sink: &K,
    i: InvocationView,
    handle: Option<Seq<char>>,
    called: Option<Result<McpCallResult, ErrorEnvelope>>,
    outcome: Result<ToolOutcome, ErrorEnvelope>,
    left: C,
) -> bool {
    if !i.approved {
        called is None && outcome is Err && outcome->Err_0@ == refused_error() && left == caller
    } else if handle is Some && handle->0 != i.tool {
        called is None && outcome is Err && outcome->Err_0@ == handle_error() && left == caller
    } else {
        called is Some && was_called(caller, i, called->0) && projected_as(
            sink,
            i,
            called->0,
            outcome,
        )
    }
}

pub open spec fn outcome_shown(outcome: Result<ToolOutcome, ErrorEnvelope>) -> OutcomeView {
    match outcome {
        Ok(o) => o@,
        Err(e) => OutcomeView::Failure { error: e@ },
    }
}

/// What a call is answered: its outcome, or the error of the hooks that refused it.
pub open spec fn answered_with(
    outcome: Result<ToolOutcome, ErrorEnvelope>,
    stopped: Option<ErrorView>,
    r: Result<ToolOutcome, ErrorEnvelope>,
) -> bool {
    match stopped {
        Some(e) => r is Err && r->Err_0@ == e,
        None => match outcome {
            Ok(o) => r is Ok && r->Ok_0@ == o@,
            Err(e) => r is Err && r->Err_0@ == e@,
        },
    }
}

pub open spec fn handle_view(handle: Option<&str>) -> Option<Seq<char>> {
    match handle {
        Some(h) => Some(h@),
        None => None,
    }
}

/// What the end of a call adds: its result, and the record of the hooks after it. Where the
/// session does not take the result, the hooks are not told.
pub open spec fn is_conclusion(
    i: InvocationView,
    source: Seq<char>,
    hooks: HookRules,
    sequence: u64,
    outcome: Result<ToolOutcome, ErrorEnvelope>,
    events: Seq<Handed>,
    after: Seq<Handed>,
    stopped: Option<ErrorView>,
    r: Result<ToolOutcome, ErrorEnvelope>,
    next: u64,
) -> bool {
    &&& events.len() == 1 + after.len()
    &&& is_mcp_result(events[0].event, i, outcome_shown(outcome))
    &&& events.subrange(1, events.len() as int) == after
    &&& match events[0].refused {
        Some(detail) => {
            &&& after.len() == 0
            &&& r is Err && r->Err_0@ == mcp_audit_error(detail)
            &&& next == sequence
        },
        None => {
            &&& ran_hooks(
                hooks,
                mcp_context(HookPoint::PostToolUse, i, source, Some(outcome_shown(outcome))),
                sequence,
                after,
                stopped,
            )
            &&& answered_with(outcome, stopped, r)
            &&& next == bumped(sequence, rounds_in(after))
        },
    }
}

/// What happened around a call: the record of the hooks before it and why they refused
/// it, what the server gave where it was asked, what came of the call, and the record of the
/// hooks after it and why they refused that.
pub struct McpTrace {
    pub before: Seq<Handed>,
    pub denied: Option<ErrorView>,
    pub called: Option<Result<McpCallResult, ErrorEnvelope>>,
    pub outcome: Result<ToolOutcome, ErrorEnvelope>,
    pub after: Seq<Handed>,
    pub stopped: Option<ErrorView>,
}

/// A call of an MCP tool: the request, the decision and the result are recorded, with
/// what the hooks left in between, and the result is what the server and the sink made
/// of it. A call that the hooks refuse, or whose request or decision the session does not
/// take, is not made. `left` is the connection afterwards, and `next` the number of the next
/// run of a hook.
pub open spec fn is_mcp_run<C: McpCaller, K: SpillSink>(
    caller: C,
    sink: &K,
    i: InvocationView,
    source: Seq<char>,
    handle: Option<Seq<char>>,
    hooks: HookRules,
    sequence: u64,
    t: McpTrace,
    events: Seq<Handed>,
    r: Result<ToolOutcome, ErrorEnvelope>,
    left: C,
    next: u64,
) -> bool {
    let n = t.before.len() as int;
    &&& events.len() > 0
    &&& is_mcp_call(events[0].event, i, source)
    &&& match events[0].refused {
        Some(detail) => {
            &&& events.len() == 1
            &&& t.called is None && left == caller
            &&& r is Err && r->Err_0@ == mcp_audit_error(detail)
            &&& next == sequence
        },
        None => {
            &&& ran_hooks(
                hooks,
                mcp_context(HookPoint::PreToolUse, i, source, None),
                sequence,
                t.before,
                t.denied,
            )
            &&& events.len() >= n + 2
            &&& events.subrange(1, 1 + n) == t.before
            &&& match t.denied {
                Some(e) => {
                    &&& events.len() == n + 2
                    &&& is_mcp_result(events[n + 1].event, i, OutcomeView::Failure { error: e })
                    &&& t.called is None && left == caller
                    &&& r is Err && r->Err_0@ == (match events[n + 1].refused {
                        None => e,
                        Some(detail) => mcp_audit_error(detail),
                    })
                    &&& next == bumped(sequence, rounds_in(t.before))
                },
                None => {
                    &&& is_mcp_approval(events[n + 1].event, i)
                    &&& match events[n + 1].refused {
                        Some(detail) => {
                            &&& events.len() == n + 2
                            &&& t.called is None && left == caller
                            &&& r is Err && r->Err_0@ == mcp_audit_error(detail)
                            &&& next == bumped(sequence, rounds_in(t.before))
                        },
                        None => {
                            &&& is_mcp_outcome(
                                caller,
                                sink,
                                i,
                                handle,
                                t.called,
                                t.outcome,
                                left,
                            )
                            &&& is_conclusion(
                                i,
                                source,
                                hooks,
                                bumped(sequence, rounds_in(t.before)),
                                t.outcome,
                                events.subrange(n + 2, events.len() as int),
                                t.after,
                                t.stopped,
                                r,
                                next,
                            )
                        },
                    }
                },
            }
        },
    }
}

/// The request of a call and its approval are on record.
pub open spec fn approval_taken(
    events: Seq<Handed>,
    i: InvocationView,
    source: Seq<char>,
) -> bool {
    &&& i.approved
    &&& events.len() > 0
    &&& is_mcp_call(events[0].event, i, source)
    &&& events[0].refused is None
    &&& exists|k: int|
        0 < k < events.len() && is_mcp_approval((#[trigger] events[k]).event, i)
            && events[k].refused is None
}

/// A server is asked only once the request and its approval are on record. Where it is not
/// asked, the connection is as it was, and the call fails.
pub proof fn a_server_is_asked_only_after_its_approval<C: McpCaller, K: SpillSink>(
    caller: C,
    sink: &K,
    i: InvocationView,
    source: Seq<char>,
    handle: Option<Seq<char>>,
    hooks: HookRules,
    sequence: u64,
    t: McpTrace,
    events: Seq<Handed>,
    r: Result<ToolOutcome, ErrorEnvelope>,
    left: C,
    next: u64,
)
    requires
        is_mcp_run(caller, sink, i, source, handle, hooks, sequence, t, events, r, left, next),
    ensures
        t.called is Some ==> approval_taken(events, i, source),
        t.called is None ==> left == caller && r is Err,
        r is Ok ==> t.called is Some && approval_taken(events, i, source),
{
    if t.called is Some {
        let n = t.before.len() as int;
        assert(is_mcp_approval(events[n + 1].event, i));
    }
}

/// Records the outcome of a call and tells the hooks.
fn conclude<S: SessionStore>(
    session: &mut S,
    hooks: &mut Option<HookRegistry>,
    invocation: &McpInvocation,
    source: &str,
    tool_name: &str,
    outcome: Result<ToolOutcome, ErrorEnvelope>,
    Ghost(start): Ghost<Seq<Event>>,
    Ghost(request): Ghost<Event>,
) -> (r: Result<ToolOutcome, ErrorEnvelope>)
    requires
        request matches Event::ToolCallRequested { call_id, .. } && call_id@ == invocation@.call_id,
        step_ok(true, old(session).intact(), start.push(request), old(session).events()),
        tool_name@ == mcp_tool(source@, invocation@.tool),
    ensures
        final(session).intact() ==> old(session).intact(),
        step_ok(true, final(session).intact(), start, final(session).events()),
        extends(old(session).events(), final(session).events()),
        outcome is Err ==> r is Err,
        hook_rules(*final(hooks)) == hook_rules(*old(hooks)),
        hooks_idle(*old(hooks)) ==> hooks_idle(*final(hooks)),
        extends(old(session).handed(), final(session).handed()),
        hooks_idle(*old(hooks)) ==> exists|
            after: Seq<Handed>,
            stopped: Option<ErrorView>,
        |
            is_conclusion(
                invocation@,
                source@,
                hook_rules(*old(hooks)),
                sequence_of(*old(hooks)),
                outcome,
                added(old(session).handed(), final(session).handed()),
                after,
                stopped,
                r,
                sequence_of(*final(hooks)),
            ),
{
    let ghost log0 = session.events();
    let ghost handed0 = session.handed();
    let shown = match &outcome {
        Ok(o) => o.clone(),
        Err(e) => ToolOutcome::Failure { error: e.clone() },
    };
    let answer = Event::ToolResultAdded {
        call_id: invocation.call_id.clone(),
        outcome: shown.clone(),
    };
    proof {
        lemma_extends_refl(start);
        lemma_extends_refl(log0);
        lemma_extends_push(log0, log0, answer);
        lemma_kept_push(start, start, request);
        lemma_ledger_push(start, request);
        lemma_kept_trans(start, start.push(request), log0);
        lemma_kept_push(start, log0, answer);
        lemma_ledger_push(log0, answer);
        if session.intact() {
            lemma_pair_kept(start, request, log0, answer);
        }
    }
    let appended = append(session, answer);
    let ghost handed1 = session.handed();
    proof {
        lemma_extends_refl(handed0);
        lemma_extends_push(handed0, handed0, handed1.last());
        assert(added(handed0, handed1) =~= seq![handed1.last()]);
    }
    match appended {
        Ok(()) => {},
        Err(e) => {
            proof {
                let events = added(handed0, handed1);
                assert(events.subrange(1, 1) =~= Seq::<Handed>::empty());
                assert(is_conclusion(
                    invocation@,
                    source@,
                    hook_rules(*old(hooks)),
                    sequence_of(*old(hooks)),
                    outcome,
                    events,
                    Seq::empty(),
                    None,
                    Err(e),
                    sequence_of(*hooks),
                ));
            }
            return Err(e);
        },
    }
    let ghost log1 = session.events();
    let context = HookContext::tool(
        HookPoint::PostToolUse,
        None,
        &invocation.call_id,
        tool_name,
        Some(shown),
    );
    let hooked = execute_hook(hooks, &context, session);
    proof {
        lemma_step_trans(true, session.intact(), start, log1, session.events());
        lemma_extends_trans(log0, log1, session.events());
        lemma_extends_trans(handed0, handed1, session.handed());
    }
    let ghost given = outcome;
    let ghost stopped = failure_of(hooked);
    let r = match hooked {
        Ok(()) => outcome,
        Err(e) => Err(e),
    };
    proof {
        if hooks_idle(*old(hooks)) {
            let handed2 = session.handed();
            let after = added(handed1, handed2);
            let events = added(handed0, handed2);
            assert(events == added(handed0, handed1) + after);
            assert(events[0] == handed1.last());
            assert(events.subrange(1, events.len() as int) =~= after);
            assert(is_conclusion(
                invocation@,
                source@,
                hook_rules(*old(hooks)),
                sequence_of(*old(hooks)),
                given,
                events,
                after,
                stopped,
                r,
                sequence_of(*hooks),
            ));
        }
    }
    r
}

/// Runs an approved MCP call, or records its refusal. The server is asked only once the
/// request and its approval are on record. Whatever happens, on a store that does not fail
/// the call is recorded with exactly one result.
pub fn run_mcp_tool_with<S: SessionStore, C: McpCaller, K: SpillSink>(
    session: &mut S,
    hooks: &mut Option<HookRegistry>,
    source: &str,
    handle: Option<&str>,
    invocation: &McpInvocation,
    caller: &mut C,
    sink: &K,
) -> (r: Result<ToolOutcome, ErrorEnvelope>)
    ensures
        final(session).intact() ==> old(session).intact(),
        step_ok(true, final(session).intact(), old(session).events(), final(session).events()),
        !invocation@.approved ==> r is Err,
        handle is Some && handle->0@ != invocation@.tool ==> r is Err,
        !invocation@.approved || (handle is Some && handle->0@ != invocation@.tool)
            ==> *final(caller) == *old(caller),
        hook_rules(*final(hooks)) == hook_rules(*old(hooks)),
        hooks_idle(*old(hooks)) ==> hooks_idle(*final(hooks)),
        final(session).intact() ==> {
            let events = added(old(session).events(), final(session).events());
            &&& events.len() > 0
            &&& is_mcp_call(events[0], invocation@, source@)
        },
        extends(old(session).handed(), final(session).handed()),
        *final(caller) == *old(caller) || approval_taken(
            added(old(session).handed(), final(session).handed()),
            invocation@,
            source@,
        ),
        hooks_idle(*old(hooks)) ==> exists|t: McpTrace|
            {
                &&& #[trigger] is_mcp_run(
                    *old(caller),
                    sink,
                    invocation@,
                    source@,
                    handle_view(handle),
                    hook_rules(*old(hooks)),
                    sequence_of(*old(hooks)),
                    t,
                    added(old(session).handed(), final(session).handed()),
                    r,
                    *final(caller),
                    sequence_of(*final(hooks)),
                )
                &&& t.called is Some ==> exists|c: &mut C, tool: &str, arguments: Json|
                    {
                        &&& #[trigger] call_ensures(C::call, (c, tool, &arguments), t.called->0)
                        &&& *c == *old(caller)
                        &&& *final(c) == *final(caller)
                        &&& tool@ == invocation@.tool
                        &&& arguments@ == invocation@.arguments
                    }
            },
{
    let ghost start = session.events();
    let ghost start_h = session.handed();
    let ghost idle = hooks_idle(*hooks);
    let ghost rules = hook_rules(*hooks);
    let ghost seq0 = sequence_of(*hooks);
    let ghost connection = *caller;
    let ghost wanted = handle_view(handle);
    let tool_name = concat4("mcp:", source, ":", &invocation.tool);
    let request = Event::ToolCallRequested {
        call_id: invocation.call_id.clone(),
        tool: tool_name.clone(),
        args: invocation.arguments.clone(),
    };
    proof {
        lemma_step_refl(true, session.intact(), start);
        lemma_extends_push(start, start, request);
        lemma_kept_push(start, start, request);
        lemma_ledger_push(start, request);
        lemma_step_refl(true, session.intact(), start.push(request));
    }
    let asked = append(session, request);
    let ghost handed1 = session.handed();
    proof {
        lemma_extends_refl(start_h);
        lemma_extends_push(start_h, start_h, handed1.last());
        assert(added(start_h, handed1) =~= seq![handed1.last()]);
    }
    match asked {
        Ok(()) => {},
        Err(e) => {
            proof {
                lemma_extends_refl(start);
                let t = McpTrace {
                    before: Seq::empty(),
                    denied: None,
                    called: None,
                    outcome: Err(e),
                    after: Seq::empty(),
                    stopped: None,
                };
                assert(is_mcp_run(
                    connection,
                    sink,
                    invocation@,
                    source@,
                    wanted,
                    rules,
                    seq0,
                    t,
                    added(start_h, handed1),
                    Err(e),
                    *caller,
                    sequence_of(*hooks),
                ));
            }
            return Err(e);
        },
    }
    let ghost log1 = session.events();
    let pre = HookContext::tool(
        HookPoint::PreToolUse,
        None,
        &invocation.call_id,
        &tool_name,
        None,
    );
    let hooked = execute_hook(hooks, &pre, session);
    let ghost log2 = session.events();
    let ghost handed2 = session.handed();
    proof {
        lemma_extends_trans(start_h, handed1, handed2);
        assert(added(start_h, handed2) =~= seq![handed1.last()] + added(handed1, handed2));
    }
    match hooked {
        Ok(()) => {},
        Err(e) => {
            let answer = Event::ToolResultAdded {
                call_id: invocation.call_id.clone(),
                outcome: ToolOutcome::Failure { error: e.clone() },
            };
            proof {
                lemma_kept_trans(start, log1, log2);
                lemma_kept_push(start, log2, answer);
                lemma_ledger_push(log2, answer);
                if session.intact() {
                    lemma_pair_kept(start, request, log2, answer);
                }
                lemma_first_stays(start, request, log2);
                lemma_first_stays(start, request, log2.push(answer));
            }
            let r: Result<ToolOutcome, ErrorEnvelope> = match append(session, answer) {
                Ok(()) => Err(e),
                Err(failure) => Err(failure),
            };
            proof {
                let last = session.handed().last();
                lemma_extends_push(start_h, handed2, last);
                if idle {
                    let t = McpTrace {
                        before: added(handed1, handed2),
                        denied: Some(e@),
                        called: None,
                        outcome: r,
                        after: Seq::empty(),
                        stopped: None,
                    };
                    let events = added(start_h, session.handed());
                    assert(events =~= (seq![handed1.last()] + t.before).push(last));
                    let n = t.before.len() as int;
                    assert(events.subrange(1, 1 + n) =~= t.before);
                    assert(is_mcp_run(
                        connection,
                        sink,
                        invocation@,
                        source@,
                        wanted,
                        rules,
                        seq0,
                        t,
                        events,
                        r,
                        *caller,
                        sequence_of(*hooks),
                    ));
                }
            }
            return r;
        },
    }
    let decided = Event::ApprovalDecided {
        call_id: invocation.call_id.clone(),
        approved: invocation.approved,
        authorization: None,
    };
    proof {
        lemma_step_push(true, session.intact(), log1, log2, decided);
        lemma_kept_trans(start, log1, log2);
        lemma_kept_push(start, log2, decided);
        lemma_ledger_push(log2, decided);
        lemma_first_stays(start, request, log2);
        lemma_first_stays(start, request, log2.push(decided));
    }
    let agreed = append(session, decided);
    let ghost handed3 = session.handed();
    let ghost before = added(handed1, handed2);
    proof {
        lemma_extends_push(start_h, handed2, handed3.last());
        assert(added(start_h, handed3) =~= (seq![handed1.last()] + before).push(handed3.last()));
    }
    match agreed {
        Ok(()) => {},
        Err(e) => {
            proof {
                if idle {
                    let t = McpTrace {
                        before,
                        denied: None,
                        called: None,
                        outcome: Err(e),
                        after: Seq::empty(),
                        stopped: None,
                    };
                    let events = added(start_h, handed3);
                    assert(events.subrange(1, 1 + before.len() as int) =~= before);
                    assert(is_mcp_run(
                        connection,
                        sink,
                        invocation@,
                        source@,
                        wanted,
                        rules,
                        seq0,
                        t,
                        events,
                        Err(e),
                        *caller,
                        sequence_of(*hooks),
                    ));
                }
            }
            return Err(e);
        },
    }
    let ghost log3 = session.events();
    let ghost seq1 = sequence_of(*hooks);
    let outcome: Result<ToolOutcome, ErrorEnvelope> = if !invocation.approved {
        Err(
            ErrorEnvelope::of(
                ErrorCode::ApprovalRejected,
                "MCP invocation rejected by approval policy",
            ),
        )
    } else {
        call_result(handle, invocation, caller, sink)
    };
    let ghost given = outcome;
    let ghost called: Option<Result<McpCallResult, ErrorEnvelope>> = if invocation@.approved && (
    handle is None || handle->0@ == invocation@.tool) {
        Some(
            choose|called: Result<McpCallResult, ErrorEnvelope>|
                {
                    &&& was_called(connection, invocation@, called)
                    &&& #[trigger] projected_as(sink, invocation@, called, given)
                    &&& exists|c: &mut C, tool: &str, arguments: Json|
                        {
                            &&& #[trigger] call_ensures(C::call, (c, tool, &arguments), called)
                            &&& *c == connection
                            &&& *final(c) == *caller
                            &&& tool@ == invocation@.tool
                            &&& arguments@ == invocation@.arguments
                        }
                },
        )
    } else {
        None
    };
    let result = conclude(
        session,
        hooks,
        invocation,
        source,
        &tool_name,
        outcome,
        Ghost(start),
        Ghost(request),
    );
    proof {
        let log4 = session.events();
        let handed4 = session.handed();
        if session.intact() {
            lemma_extends_push(log1, log2, decided);
            lemma_extends_trans(log1, log3, log4);
            lemma_first_stays(start, request, log4);
        }
        let tail = added(handed3, handed4);
        lemma_extends_trans(start_h, handed3, handed4);
        let events = added(start_h, handed4);
        assert(events =~= added(start_h, handed3) + tail);
        let n = before.len() as int;
        assert(events[0] == handed1.last());
        assert(events[n + 1] == handed3.last());
        assert(is_mcp_approval(events[n + 1].event, invocation@));
        if idle {
            let (after, stopped) = choose|after: Seq<Handed>, stopped: Option<ErrorView>|
                is_conclusion(
                    invocation@,
                    source@,
                    rules,
                    seq1,
                    given,
                    tail,
                    after,
                    stopped,
                    result,
                    sequence_of(*hooks),
                );
            let t = McpTrace { before, denied: None, called, outcome: given, after, stopped };
            assert(events.subrange(1, 1 + n) =~= before);
            assert(events.subrange(n + 2, events.len() as int) =~= tail);
            assert(is_mcp_run(
                connection,
                sink,
                invocation@,
                source@,
                wanted,
                rules,
                seq0,
                t,
                events,
                result,
                *caller,
                sequence_of(*hooks),
            ));
        }
    }
    result
}

proof fn lemma_first_stays(start: Seq<Event>, request: Event, log: Seq<Event>)
    requires
        extends(start, log) || extends(start.push(request), log),
    ensures
        extends(start.push(request), log) ==> extends(start, log) && added(start, log).len() > 0
            && added(start, log)[0] == request,
{
    if extends(start.push(request), log) {
        lemma_extends_refl(start);
        lemma_extends_push(start, start, request);
        lemma_extends_trans(start, start.push(request), log);
        assert(added(start, start.push(request)) =~= seq![request]);
        assert(added(start, log)[0] == request);
    }
}

/// What a server gave is shown with where it came from and the tool: what was kept of it where
/// it was too long, and the output itself otherwise.
pub proof fn what_a_server_gave_is_shown(
    source: Seq<char>,
    tool: Seq<char>,
    visible: Seq<char>,
    kept: JsonView,
)
    ensures
        mcp_outcome(source, tool, visible, None) is Success,
        member_of(mcp_outcome(source, tool, visible, None)->value, "output"@) == Some(
            JsonView::Text(visible),
        ),
        member_of(mcp_outcome(source, tool, visible, Some(kept))->value, "output"@) == Some(kept),
        member_of(mcp_outcome(source, tool, visible, None)->value, "source"@) == Some(
            JsonView::Text(source),
        ),
        member_of(mcp_outcome(source, tool, visible, None)->value, "tool"@) == Some(
            JsonView::Text(tool),
        ),
        member_of(mcp_outcome(source, tool, visible, Some(kept))->value, "source"@) == Some(
            JsonView::Text(source),
        ),
        member_of(mcp_outcome(source, tool, visible, Some(kept))->value, "tool"@) == Some(
            JsonView::Text(tool),
        ),
{
    reveal_strlit("output");
    reveal_strlit("source");
    reveal_strlit("tool");
    assert("output"@.len() == 6);
    assert("source"@.len() == 6);
    assert("tool"@.len() == 4);
    assert("output"@[0] != "source"@[0]);
    let a = mcp_outcome(source, tool, visible, None)->value->Object_0;
    lemma_member_at(a, 0);
    lemma_member_at(a, 1);
    lemma_member_at(a, 2);
    let b = mcp_outcome(source, tool, visible, Some(kept))->value->Object_0;
    lemma_member_at(b, 0);
    lemma_member_at(b, 1);
    lemma_member_at(b, 2);
}

/// A tool of a server is named after the server and the tool, and asked for with the call's
/// own id and arguments; its result answers that id.
pub proof fn how_a_server_is_recorded(
    e: Event,
    i: InvocationView,
    source: Seq<char>,
    o: OutcomeView,
)
    ensures
        is_mcp_call(e, i, source) ==> e is ToolCallRequested && e->ToolCallRequested_call_id@
            == i.call_id && e->ToolCallRequested_tool@ == "mcp:"@ + source + ":"@ + i.tool
            && e->args@ == i.arguments,
        is_mcp_approval(e, i) ==> e is ApprovalDecided && e->approved == i.approved
            && e->ApprovalDecided_call_id@ == i.call_id,
        is_mcp_result(e, i, o) ==> e is ToolResultAdded && e->ToolResultAdded_call_id@ == i.call_id
            && e->ToolResultAdded_outcome@ == o,
        refused_error().code == ErrorCode::ApprovalRejected,
        handle_error().code == ErrorCode::ToolArgsInvalid,
{
}

/// What came of a call: a call that was not approved, or is not of the tool that is managed, is
/// refused and no server is asked; otherwise the server was asked for the call's tool and
/// arguments, and what it gave is shown.
pub proof fn what_came_of_a_call<C: McpCaller, K: SpillSink>(
    caller: C,
    sink: &K,
    i: InvocationView,
    handle: Option<Seq<char>>,
    called: Option<Result<McpCallResult, ErrorEnvelope>>,
    outcome: Result<ToolOutcome, ErrorEnvelope>,
    left: C,
)
    requires
        is_mcp_outcome(caller, sink, i, handle, called, outcome, left),
    ensures
        !i.approved ==> called is None && outcome is Err && outcome->Err_0@.code
            == ErrorCode::ApprovalRejected && left == caller,
        i.approved && handle is Some && handle->0 != i.tool ==> called is None && outcome is Err
            && outcome->Err_0@.code == ErrorCode::ToolArgsInvalid && left == caller,
        called is Some <==> i.approved && (handle is None || handle->0 == i.tool),
        called matches Some(Err(e)) ==> outcome is Err && outcome->Err_0@ == e@,
        called is Some && called->0 is Ok && !called->0->Ok_0.truncated ==> {
            &&& outcome is Ok
            &&& member_of(outcome->Ok_0@->value, "output"@) == Some(
                JsonView::Text(called->0->Ok_0.visible_output@),
            )
        },
{
    if let Some(Ok(result)) = called {
        what_a_server_gave_is_shown(
            result.source@,
            result.tool@,
            result.visible_output@,
            JsonView::Null,
        );
    }
}

/// What is answered: what stopped the call, or otherwise what came of it.
pub proof fn what_is_answered_in_the_end(
    outcome: Result<ToolOutcome, ErrorEnvelope>,
    stopped: Option<ErrorView>,
    r: Result<ToolOutcome, ErrorEnvelope>,
)
    requires
        answered_with(outcome, stopped, r),
    ensures
        r is Ok <==> stopped is None && outcome is Ok,
        r is Ok ==> r->Ok_0@ == outcome->Ok_0@,
        stopped is Some ==> r->Err_0@ == stopped->0,
        stopped is None && outcome is Err ==> r->Err_0@ == outcome->Err_0@,
        outcome is Ok ==> outcome_shown(outcome) == outcome->Ok_0@,
        outcome is Err ==> outcome_shown(outcome) == (OutcomeView::Failure {
            error: outcome->Err_0@,
        }),
{
}

/// The hooks around a call are told its id and its tool, and those behind it its outcome.
pub proof fn what_the_hooks_are_told(
    point: HookPoint,
    i: InvocationView,
    source: Seq<char>,
    outcome: Option<OutcomeView>,
)
    ensures
        mcp_context(point, i, source, outcome).point == point,
        mcp_context(point, i, source, outcome).call_id == Some(i.call_id),
        mcp_context(point, i, source, outcome).tool == Some("mcp:"@ + source + ":"@ + i.tool),
        mcp_context(point, i, source, outcome).outcome == outcome,
        mcp_context(point, i, source, outcome).turn_id is None,
        mcp_context(point, i, source, outcome).detail is None,
{
}

/// At least one character is shown of what was too long.
pub proof fn how_much_is_shown(visible: Seq<char>)
    ensures
        visible.len() > 0 ==> shown_chars(visible) == visible.len(),
        visible.len() == 0 ==> shown_chars(visible) == 1,
{
}

/// What is recorded of a call: its request first, and its result with what came of it; a hook
/// that refuses it is its result.
pub proof fn what_is_recorded_of_a_call<C: McpCaller, K: SpillSink>(
    caller: C,
    sink: &K,
    i: InvocationView,
    source: Seq<char>,
    handle: Option<Seq<char>>,
    hooks: HookRules,
    sequence: u64,
    t: McpTrace,
    events: Seq<Handed>,
    r: Result<ToolOutcome, ErrorEnvelope>,
    left: C,
    next: u64,
)
    requires
        is_mcp_run(caller, sink, i, source, handle, hooks, sequence, t, events, r, left, next),
        all_taken(events),
    ensures
        ({
            let n = t.before.len() as int;
            &&& events[0].event is ToolCallRequested
            &&& events[0].event->ToolCallRequested_call_id@ == i.call_id
            &&& events[0].event->ToolCallRequested_tool@ == "mcp:"@ + source + ":"@ + i.tool
            &&& events[0].event->args@ == i.arguments
            &&& t.denied is Some ==> {
                &&& events.len() == n + 2
                &&& events[n + 1].event is ToolResultAdded
                &&& events[n + 1].event->ToolResultAdded_outcome@ == (OutcomeView::Failure {
                    error: t.denied->0,
                })
                &&& r is Err && r->Err_0@ == t.denied->0
                &&& t.called is None
            }
            &&& t.denied is None ==> {
                &&& events[n + 1].event is ApprovalDecided
                &&& events[n + 1].event->approved == i.approved
                &&& events[n + 2].event is ToolResultAdded
                &&& events[n + 2].event->ToolResultAdded_call_id@ == i.call_id
                &&& events[n + 2].event->ToolResultAdded_outcome@ == outcome_shown(t.outcome)
                &&& t.stopped is None && t.outcome is Ok ==> r is Ok && r->Ok_0@ == t.outcome->Ok_0@
                &&& t.stopped is None && t.outcome is Err ==> r is Err && r->Err_0@
                    == t.outcome->Err_0@
                &&& t.stopped is Some ==> r is Err && r->Err_0@ == t.stopped->0
            }
        }),
{
    let n = t.before.len() as int;
    assert(events[0].refused is None);
    assert(events[n + 1].refused is None);
    if t.denied is None {
        let rest = events.subrange(n + 2, events.len() as int);
        assert(rest[0] == events[n + 2]);
        assert(events[n + 2].refused is None);
    }
}

/// An output that was too long is kept in full by the sink, and what it answers is shown in
/// place of it.
pub proof fn what_was_too_long_is_kept<K: SpillSink>(
    sink: &K,
    i: InvocationView,
    result: McpCallResult,
    r: Result<ToolOutcome, ErrorEnvelope>,
)
    requires
        projected_as(sink, i, Ok(result), r),
        result.truncated,
    ensures
        exists|
            root: &str,
            shown: usize,
            call_id: &str,
            output: &str,
            stored: Result<Json, String>,
        |
            {
                &&& #[trigger] call_ensures(
                    K::store,
                    (sink, root, result.output_limit_bytes, shown, call_id, output),
                    stored,
                )
                &&& root@ == i.spill_root && call_id@ == i.call_id
                &&& output@ == result.full_output@
                &&& stored is Ok ==> r is Ok && member_of(r->Ok_0@->value, "output"@) == Some(
                    stored->Ok_0@,
                )
                &&& stored is Err ==> r is Err && r->Err_0@.code == ErrorCode::Internal
                    && r->Err_0@.message == "failed to spill MCP output: "@ + stored->Err_0@
            },
{
    let stored = choose|stored: Result<Json, String>|
        {
            &&& #[trigger] spilled_as(sink, i, result, stored)
            &&& match stored {
                Ok(value) => r is Ok && r->Ok_0@ == mcp_outcome(
                    result.source@,
                    result.tool@,
                    result.visible_output@,
                    Some(value@),
                ),
                Err(e) => r is Err && r->Err_0@ == spill_error(e@),
            }
        };
    if stored is Ok {
        what_a_server_gave_is_shown(
            result.source@,
            result.tool@,
            result.visible_output@,
            stored->Ok_0@,
        );
    }
    let (root, shown, call_id, output) = choose|
        root: &str,
        shown: usize,
        call_id: &str,
        output: &str,
    |
        {
            &&& root@ == i.spill_root
            &&& shown == shown_chars(result.visible_output@)
            &&& call_id@ == i.call_id
            &&& output@ == result.full_output@
            &&& #[trigger] call_ensures(
                K::store,
                (sink, root, result.output_limit_bytes, shown, call_id, output),
                stored,
            )
        };
    assert(call_ensures(
        K::store,
        (sink, root, result.output_limit_bytes, shown, call_id, output),
        stored,
    ));
}

} // verus!
