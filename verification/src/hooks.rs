//! Lifecycle hooks: callbacks that see what the loop does and may refuse it. Each
//! run of a hook is recorded as a call with its result.
use vstd::prelude::*;
use crate::held::Held;
use crate::json::{
    a_written_number_is_read_back, lemma_member_at, lemma_object_view, member_of, members_view,
    uint_of, Json, JsonView,
};
use crate::protocol::{
    error, failure_of, outcome_json, ErrorCode, ErrorEnvelope, ErrorView, Event, OutcomeView,
    ToolOutcome,
};
use crate::session::{
    added, adds_only_calls, all_taken, calls_kept, extends, kept, last_refusal, lemma_extends_refl,
    lemma_kept_push, lemma_next_handed, lemma_pair_kept, taken_so_far, took, Handed, SessionStore,
    StoredEvents,
};
use crate::text::{
    blank, concat2, concat3, concat4, concat5, decimal, decimal_of, is_blank, same_text,
};

verus! {

broadcast use vstd::string::group_string_axioms;

/// The points of the loop's life that hooks can watch.
#[derive(Debug, Clone, Copy, PartialEq, Eq, Structural, PartialOrd, Ord)]
pub enum HookPoint {
    PreToolUse,
    PostToolUse,
    TurnCompleted,
    TurnFailed,
    TurnInterrupted,
    SubagentStopped,
}

pub open spec fn point_name(point: HookPoint) -> Seq<char> {
    match point {
        HookPoint::PreToolUse => "pre_tool_use"@,
        HookPoint::PostToolUse => "post_tool_use"@,
        HookPoint::TurnCompleted => "turn_completed"@,
        HookPoint::TurnFailed => "turn_failed"@,
        HookPoint::TurnInterrupted => "turn_interrupted"@,
        HookPoint::SubagentStopped => "subagent_stopped"@,
    }
}

impl HookPoint {
    pub fn as_str(self) -> (r: &'static str)
        ensures
            r@ == point_name(self),
    {
        match self {
            HookPoint::PreToolUse => "pre_tool_use",
            HookPoint::PostToolUse => "post_tool_use",
            HookPoint::TurnCompleted => "turn_completed",
            HookPoint::TurnFailed => "turn_failed",
            HookPoint::TurnInterrupted => "turn_interrupted",
            HookPoint::SubagentStopped => "subagent_stopped",
        }
    }
}

// ---------------------------------------------------------------------------
// What a hook sees
// ---------------------------------------------------------------------------

/// What a hook is told. It holds no way to write to the session.
#[derive(Debug, PartialEq, Eq, Clone)]
pub struct HookContext {
    point: HookPoint,
    turn_id: Option<u64>,
    call_id: Option<String>,
    tool: Option<String>,
    detail: Option<String>,
    outcome: Option<ToolOutcome>,
}

pub struct ContextView {
    pub point: HookPoint,
    pub turn_id: Option<u64>,
    pub call_id: Option<Seq<char>>,
    pub tool: Option<Seq<char>>,
    pub detail: Option<Seq<char>>,
    pub outcome: Option<OutcomeView>,
}

pub open spec fn seen(t: Option<String>) -> Option<Seq<char>> {
    match t {
        Some(s) => Some(s@),
        None => None,
    }
}

impl View for HookContext {
    type V = ContextView;

    closed spec fn view(&self) -> ContextView {
        ContextView {
            point: self.point,
            turn_id: self.turn_id,
            call_id: seen(self.call_id),
            tool: seen(self.tool),
            detail: seen(self.detail),
            outcome: match self.outcome {
                Some(o) => Some(o@),
                None => None,
            },
        }
    }
}

pub open spec fn text_or_null(t: Option<Seq<char>>) -> JsonView {
    match t {
        Some(s) => JsonView::Text(s),
        None => JsonView::Null,
    }
}

/// A context as the arguments of the recorded call.
pub open spec fn context_json(c: ContextView) -> JsonView {
    JsonView::Object(
        seq![
            ("call_id"@, text_or_null(c.call_id)),
            ("detail"@, text_or_null(c.detail)),
            (
                "outcome"@,
                match c.outcome {
                    Some(o) => outcome_json(o),
                    None => JsonView::Null,
                },
            ),
            ("point"@, JsonView::Text(point_name(c.point))),
            ("tool"@, text_or_null(c.tool)),
            (
                "turn_id"@,
                match c.turn_id {
                    Some(n) => JsonView::Number(decimal(n as nat)),
                    None => JsonView::Null,
                },
            ),
        ],
    )
}

fn json_text_or_null(t: &Option<String>) -> (r: Json)
    ensures
        r@ == text_or_null(seen(*t)),
{
    match t {
        Some(s) => Json::Text(s.clone()),
        None => Json::Null,
    }
}

impl HookContext {
    pub(crate) fn tool(
        point: HookPoint,
        turn_id: Option<u64>,
        call_id: &str,
        tool: &str,
        outcome: Option<ToolOutcome>,
    ) -> (r: HookContext)
        ensures
            r@ == (ContextView {
                point,
                turn_id,
                call_id: Some(call_id@),
                tool: Some(tool@),
                detail: None,
                outcome: match outcome {
                    Some(o) => Some(o@),
                    None => None,
                },
            }),
    {
        HookContext {
            point,
            turn_id,
            call_id: Some(call_id.to_owned()),
            tool: Some(tool.to_owned()),
            detail: None,
            outcome,
        }
    }

    pub fn turn(point: HookPoint, turn_id: u64, detail: Option<String>) -> (r: HookContext)
        ensures
            r@ == (ContextView {
                point,
                turn_id: Some(turn_id),
                call_id: None,
                tool: None,
                detail: seen(detail),
                outcome: None,
            }),
    {
        HookContext {
            point,
            turn_id: Some(turn_id),
            call_id: None,
            tool: None,
            detail,
            outcome: None,
        }
    }

    pub(crate) fn subagent(task_id: &str, outcome: ToolOutcome) -> (r: HookContext)
        ensures
            r@ == (ContextView {
                point: HookPoint::SubagentStopped,
                turn_id: None,
                call_id: Some(task_id@),
                tool: Some("subagent"@),
                detail: None,
                outcome: Some(outcome@),
            }),
    {
        HookContext {
            point: HookPoint::SubagentStopped,
            turn_id: None,
            call_id: Some(task_id.to_owned()),
            tool: Some("subagent".to_string()),
            detail: None,
            outcome: Some(outcome),
        }
    }

    pub fn point(&self) -> (r: HookPoint)
        ensures
            r == self@.point,
    {
        self.point
    }

    pub fn turn_id(&self) -> (r: Option<u64>)
        ensures
            r == self@.turn_id,
    {
        self.turn_id
    }

    pub fn call_id(&self) -> (r: Option<&String>)
        ensures
            r is Some <==> self@.call_id is Some,
            r matches Some(t) ==> self@.call_id == Some(t@),
    {
        match &self.call_id {
            Some(t) => Some(t),
            None => None,
        }
    }

    pub fn tool_name(&self) -> (r: Option<&String>)
        ensures
            r is Some <==> self@.tool is Some,
            r matches Some(t) ==> self@.tool == Some(t@),
    {
        match &self.tool {
            Some(t) => Some(t),
            None => None,
        }
    }

    pub fn detail(&self) -> (r: Option<&String>)
        ensures
            r is Some <==> self@.detail is Some,
            r matches Some(t) ==> self@.detail == Some(t@),
    {
        match &self.detail {
            Some(t) => Some(t),
            None => None,
        }
    }

    pub fn outcome(&self) -> (r: Option<&ToolOutcome>)
        ensures
            r is Some <==> self@.outcome is Some,
            r matches Some(o) ==> self@.outcome == Some(o@),
    {
        match &self.outcome {
            Some(o) => Some(o),
            None => None,
        }
    }

    fn event_args(&self) -> (r: Json)
        ensures
            r@ == context_json(self@),
    {
        let mut members: Vec<(String, Json)> = Vec::new();
        members.push(("call_id".to_string(), json_text_or_null(&self.call_id)));
        members.push(("detail".to_string(), json_text_or_null(&self.detail)));
        let outcome = match &self.outcome {
            Some(o) => o.to_json(),
            None => Json::Null,
        };
        members.push(("outcome".to_string(), outcome));
        members.push(("point".to_string(), Json::Text(self.point.as_str().to_string())));
        members.push(("tool".to_string(), json_text_or_null(&self.tool)));
        let turn = match self.turn_id {
            Some(n) => Json::Number(decimal_of(n)),
            None => Json::Null,
        };
        members.push(("turn_id".to_string(), turn));
        proof {
            lemma_object_view(members);
            assert(members_view(members@) =~= context_json(self@)->Object_0);
        }
        Json::Object(members)
    }
}

// ---------------------------------------------------------------------------
// What a hook decides
// ---------------------------------------------------------------------------

/// A hook's decision; `allowed == false` refuses what is about to happen.
#[derive(Debug, PartialEq, Eq, Clone)]
pub struct HookResult {
    pub allowed: bool,
    pub note: String,
}

impl HookResult {
    pub fn allow(note: String) -> (r: HookResult)
        ensures
            r.allowed,
            r.note@ == note@,
    {
        HookResult { allowed: true, note }
    }

    pub fn deny(note: String) -> (r: HookResult)
        ensures
            !r.allowed,
            r.note@ == note@,
    {
        HookResult { allowed: false, note }
    }
}

/// What a hook gave back.
pub enum Decision {
    Allowed(Seq<char>),
    Denied(Seq<char>),
    Failed(ErrorView),
}

pub open spec fn decision_of(d: Result<HookResult, ErrorEnvelope>) -> Decision {
    match d {
        Ok(r) => if r.allowed {
            Decision::Allowed(r.note@)
        } else {
            Decision::Denied(r.note@)
        },
        Err(e) => Decision::Failed(e@),
    }
}

/// The recorded result of a decision.
pub open spec fn decision_outcome(d: Decision) -> OutcomeView {
    match d {
        Decision::Allowed(note) => OutcomeView::Success {
            value: JsonView::Object(
                seq![("allowed"@, JsonView::Bool(true)), ("note"@, JsonView::Text(note))],
            ),
        },
        Decision::Denied(note) => OutcomeView::Failure {
            error: error(ErrorCode::ApprovalRejected, note),
        },
        Decision::Failed(e) => OutcomeView::Failure { error: e },
    }
}

/// The error of a decision that does not allow.
pub open spec fn decision_error(d: Decision) -> Option<ErrorView> {
    match d {
        Decision::Allowed(_) => None,
        Decision::Denied(note) => Some(error(ErrorCode::ApprovalRejected, note)),
        Decision::Failed(e) => Some(e),
    }
}

/// What is recorded of a decision, and the error that it stands for.
pub fn project_decision(decision: Result<HookResult, ErrorEnvelope>) -> (r: (
    ToolOutcome,
    Option<ErrorEnvelope>,
))
    ensures
        r.0@ == decision_outcome(decision_of(decision)),
        match r.1 {
            Some(e) => decision_error(decision_of(decision)) == Some(e@),
            None => decision_error(decision_of(decision)) is None,
        },
{
    match decision {
        Ok(result) => {
            if result.allowed {
                let mut members: Vec<(String, Json)> = Vec::new();
                members.push(("allowed".to_string(), Json::Bool(true)));
                members.push(("note".to_string(), Json::Text(result.note)));
                proof {
                    lemma_object_view(members);
                    assert(members_view(members@) =~= seq![
                        ("allowed"@, JsonView::Bool(true)),
                        ("note"@, JsonView::Text(result.note@)),
                    ]);
                }
                (ToolOutcome::Success { value: Json::Object(members) }, None)
            } else {
                let e = ErrorEnvelope::new(ErrorCode::ApprovalRejected, result.note);
                (ToolOutcome::Failure { error: e.clone() }, Some(e))
            }
        },
        Err(e) => (ToolOutcome::Failure { error: e.clone() }, Some(e)),
    }
}

/// A hook reads a context and decides.
pub trait Hook {
    fn run(&self, context: &HookContext) -> Result<HookResult, ErrorEnvelope>;
}

/// `r` is what the hook gave back for the context.
pub open spec fn hook_said<H: Hook + ?Sized>(
    hook: &H,
    context: &HookContext,
    r: Result<HookResult, ErrorEnvelope>,
) -> bool {
    call_ensures(H::run, (hook, context), r)
}

/// A hook as it is registered at a point: its name, and what it decides on a context.
pub struct HookEntry {
    pub name: Seq<char>,
    pub decides: spec_fn(ContextView, Decision) -> bool,
}

/// The hook was told the context and decided so.
pub open spec fn decided<H: Hook + ?Sized>(hook: &H, context: ContextView, d: Decision) -> bool {
    exists|c: HookContext, r: Result<HookResult, ErrorEnvelope>| #[trigger]
        hook_said(hook, &c, r) && c@ == context && d == decision_of(r)
}

/// What a hook decides on a context.
pub open spec fn decisions_of<H: Hook + ?Sized>(hook: &H) -> spec_fn(
    ContextView,
    Decision,
) -> bool {
    |context: ContextView, d: Decision| decided(hook, context, d)
}

pub open spec fn names_of(hooks: Seq<HookEntry>) -> Seq<Seq<char>> {
    Seq::new(hooks.len(), |i: int| hooks[i].name)
}

// ---------------------------------------------------------------------------
// The registry
// ---------------------------------------------------------------------------

struct RegisteredHook {
    point: HookPoint,
    name: String,
    handler: Held<Box<dyn Hook>>,
}

impl RegisteredHook {
    fn new(point: HookPoint, name: String, handler: Held<Box<dyn Hook>>) -> (r: RegisteredHook)
        ensures
            r.point == point,
            r.name == name,
            r.handler == handler,
    {
        RegisteredHook { point, name, handler }
    }
}

/// The hooks of a loop. At a required point a missing, refusing or failing hook
/// stops what is about to happen.
pub struct HookRegistry {
    hooks: Vec<RegisteredHook>,
    required: Vec<HookPoint>,
    /// Set while hooks run: a hook may not start another round of hooks.
    running: bool,
    next_call_id: u64,
}

spec fn entry_of(hook: RegisteredHook) -> HookEntry {
    HookEntry { name: hook.name@, decides: decisions_of(&*hook.handler.it) }
}

spec fn entries_in(hooks: Seq<RegisteredHook>, point: HookPoint) -> Seq<HookEntry>
    decreases hooks.len(),
{
    if hooks.len() == 0 {
        Seq::empty()
    } else if hooks.last().point == point {
        entries_in(hooks.drop_last(), point).push(
            entry_of(hooks.last()),
        )
    } else {
        entries_in(hooks.drop_last(), point)
    }
}

/// The id of a hook's recorded call.
pub open spec fn hook_call_id(point: HookPoint, name: Seq<char>, sequence: u64) -> Seq<char> {
    "hook:"@ + point_name(point) + ":"@ + name + ":"@ + decimal(sequence as nat)
}

pub open spec fn hook_tool(point: HookPoint, name: Seq<char>) -> Seq<char> {
    "hook:"@ + point_name(point) + ":"@ + name
}

/// The recorded call of a hook.
pub open spec fn hook_call(
    request: Event,
    context: ContextView,
    name: Seq<char>,
    sequence: u64,
) -> bool {
    request matches Event::ToolCallRequested { call_id, tool, args } && {
        &&& call_id@ == hook_call_id(context.point, name, sequence)
        &&& tool@ == hook_tool(context.point, name)
        &&& args@ == context_json(context)
    }
}

/// Two events record one run of a hook: the call and its result.
pub open spec fn hook_pair(
    request: Event,
    answer: Event,
    context: ContextView,
    name: Seq<char>,
    sequence: u64,
    outcome: OutcomeView,
) -> bool {
    &&& hook_call(request, context, name, sequence)
    &&& answer matches Event::ToolResultAdded { call_id, outcome: got } && {
        &&& call_id@ == hook_call_id(context.point, name, sequence)
        &&& got@ == outcome
    }
}

pub open spec fn missing_error(point: HookPoint) -> ErrorView {
    error(
        ErrorCode::ApprovalRejected,
        "required "@ + point_name(point) + " hook is missing"@,
    )
}

/// `n + k`, or the largest `u64`.
pub open spec fn bumped(n: u64, k: int) -> u64 {
    if n + k > u64::MAX {
        u64::MAX
    } else {
        (n + k) as u64
    }
}

/// The number of runs that `events` record, two events for each. The last one may lack its
/// result.
pub open spec fn rounds_in(events: Seq<Handed>) -> int {
    (events.len() as int + 1) / 2
}

/// The error of a record that the session did not take.
pub open spec fn audit_error(detail: Seq<char>) -> ErrorView {
    error(ErrorCode::Internal, "failed to append hook audit event: "@ + detail)
}

/// The record of a required point that has no hook, and its result.
pub open spec fn missing_round(
    context: ContextView,
    sequence: u64,
    events: Seq<Handed>,
    result: Option<ErrorView>,
) -> bool {
    &&& taken_so_far(events)
    &&& match last_refusal(events) {
        Some(detail) => {
            &&& 1 <= events.len() <= 2
            &&& hook_call(events[0].event, context, "missing"@, sequence)
            &&& events.len() == 2 ==> hook_pair(
                events[0].event,
                events[1].event,
                context,
                "missing"@,
                sequence,
                OutcomeView::Failure { error: missing_error(context.point) },
            )
            &&& result == Some(audit_error(detail))
        },
        None => {
            &&& events.len() == 2
            &&& hook_pair(
                events[0].event,
                events[1].event,
                context,
                "missing"@,
                sequence,
                OutcomeView::Failure { error: missing_error(context.point) },
            )
            &&& result == Some(missing_error(context.point))
        },
    }
}

/// The first of some decisions all let the round go on.
pub open spec fn allowed_before(ds: Seq<Decision>, n: int) -> bool {
    forall|i: int| 0 <= i < n ==> (#[trigger] ds[i]) is Allowed
}

/// The events of a round of hooks whose decisions were `ds`, and its result. A record that
/// the session does not take ends the round with an error.
pub open spec fn hook_round(
    hooks: Seq<HookEntry>,
    required: bool,
    context: ContextView,
    sequence: u64,
    ds: Seq<Decision>,
    events: Seq<Handed>,
    result: Option<ErrorView>,
) -> bool {
    if hooks.len() == 0 {
        if required {
            missing_round(context, sequence, events, result)
        } else {
            events.len() == 0 && result is None
        }
    } else {
        let n = ds.len() as int;
        &&& n <= hooks.len()
        &&& taken_so_far(events)
        &&& 2 * n <= events.len() <= 2 * n + 1
        &&& forall|i: int|
            0 <= i < ds.len() ==> hook_pair(
                events[2 * i].event,
                events[2 * i + 1].event,
                context,
                hooks[i].name,
                bumped(sequence, i),
                decision_outcome(#[trigger] ds[i]),
            ) && (hooks[i].decides)(context, ds[i])
        &&& if events.len() == 2 * n + 1 {
            &&& n < hooks.len()
            &&& hook_call(events.last().event, context, hooks[n].name, bumped(sequence, n))
            &&& required ==> allowed_before(ds, n)
            &&& last_refusal(events) matches Some(detail) && result == Some(audit_error(detail))
        } else {
            match last_refusal(events) {
                Some(detail) => {
                    &&& required ==> allowed_before(ds, n - 1)
                    &&& result == Some(audit_error(detail))
                },
                None => if required {
                    &&& allowed_before(ds, n - 1)
                    &&& match result {
                        Some(e) => n > 0 && decision_error(ds.last()) == Some(e),
                        None => n == hooks.len() && ds.last() is Allowed,
                    }
                } else {
                    n == hooks.len() && result is None
                },
            }
        }
    }
}

/// The hooks of a loop: which there are at each point, and which points need one.
#[verifier::ext_equal]
pub struct HookRules {
    pub present: bool,
    pub hooks: Map<HookPoint, Seq<HookEntry>>,
    pub required: Set<HookPoint>,
}

#[verifier::opaque]
pub open spec fn hook_rules(hooks: Option<HookRegistry>) -> HookRules {
    match hooks {
        None => HookRules { present: false, hooks: Map::empty(), required: Set::empty() },
        Some(h) => HookRules {
            present: true,
            hooks: Map::new(|p: HookPoint| true, |p: HookPoint| h.hooks_at(p)),
            required: Set::new(|p: HookPoint| h.requires_point(p)),
        },
    }
}

/// What a point of the loop does where there may be hooks: a round of them, whatever
/// they decide.
pub open spec fn ran_hooks(
    rules: HookRules,
    context: ContextView,
    sequence: u64,
    events: Seq<Handed>,
    failure: Option<ErrorView>,
) -> bool {
    if rules.present {
        exists|ds: Seq<Decision>| #[trigger]
            hook_round(
                rules.hooks[context.point],
                rules.required.contains(context.point),
                context,
                sequence,
                ds,
                events,
                failure,
            )
    } else {
        events.len() == 0 && failure is None
    }
}

/// No round of hooks is under way.
pub open spec fn hooks_idle(hooks: Option<HookRegistry>) -> bool {
    hooks matches Some(h) ==> !h.in_round()
}

/// The number of the next recorded run of a hook.
pub open spec fn sequence_of(hooks: Option<HookRegistry>) -> u64 {
    match hooks {
        Some(h) => h.next_sequence(),
        None => 0,
    }
}

pub open spec fn recursive_error() -> ErrorView {
    error(ErrorCode::Internal, "recursive hook execution rejected"@)
}

fn append<S: SessionStore>(session: &mut S, event: Event) -> (r: Result<(), ErrorEnvelope>)
    ensures
        final(session).intact() ==> old(session).intact(),
        final(session).intact() ==> r is Ok,
        r is Ok ==> final(session).events() == old(session).events().push(event),
        r is Err ==> final(session).events() == old(session).events(),
        match r {
            Ok(()) => final(session).handed() == old(session).handed().push(took(event)),
            Err(e) => {
                let last = final(session).handed().last();
                &&& final(session).handed() == old(session).handed().push(last)
                &&& last.event == event
                &&& last.refused matches Some(detail) && e@ == audit_error(detail)
            },
        },
{
    match session.append(event) {
        Ok(_) => Ok(()),
        Err(e) => Err(
            ErrorEnvelope::new(
                ErrorCode::Internal,
                concat2("failed to append hook audit event: ", &e),
            ),
        ),
    }
}

impl HookRegistry {
    /// The hooks of a point, in the order in which they run.
    pub closed spec fn hooks_at(&self, point: HookPoint) -> Seq<HookEntry> {
        entries_in(self.hooks@, point)
    }

    pub closed spec fn requires_point(&self, point: HookPoint) -> bool {
        self.required@.contains(point)
    }

    /// The number of the next recorded call.
    pub closed spec fn next_sequence(&self) -> u64 {
        self.next_call_id
    }

    /// A round of hooks is under way.
    pub closed spec fn in_round(&self) -> bool {
        self.running
    }

    /// Marks a round of hooks as begun; false when one is under way already.
    pub fn begin_round(&mut self) -> (r: bool)
        ensures
            r == !old(self).in_round(),
            final(self).in_round(),
            !r ==> *final(self) == *old(self),
            final(self).next_sequence() == old(self).next_sequence(),
            forall|p: HookPoint| final(self).hooks_at(p) == old(self).hooks_at(p),
            forall|p: HookPoint| final(self).requires_point(p) == old(self).requires_point(p),
    {
        let idle = !self.running;
        self.running = true;
        idle
    }

    pub fn new(required: Vec<HookPoint>) -> (r: HookRegistry)
        ensures
            !r.in_round(),
            r.next_sequence() == 0,
            forall|p: HookPoint| r.requires_point(p) <==> required@.contains(p),
            forall|p: HookPoint| #[trigger] r.hooks_at(p) == Seq::<HookEntry>::empty(),
    {
        HookRegistry { hooks: Vec::new(), required, running: false, next_call_id: 0 }
    }

    fn has(&self, point: HookPoint, name: &str) -> (r: bool)
        ensures
            r == names_of(self.hooks_at(point)).contains(name@),
    {
        let ghost all = self.hooks@;
        let mut i: usize = 0;
        assert(all.take(0) =~= Seq::<RegisteredHook>::empty());
        while i < self.hooks.len()
            invariant
                i <= self.hooks@.len(),
                all == self.hooks@,
                !names_of(entries_in(all.take(i as int), point)).contains(name@),
            decreases self.hooks@.len() - i,
        {
            let ghost head = all.take(i as int);
            let ghost next = all.take(i + 1);
            proof {
                assert(next.drop_last() =~= head);
                assert(next.last() == all[i as int]);
            }
            if self.hooks[i].point == point && same_text(&self.hooks[i].name, name) {
                proof {
                    let ns = entries_in(next, point);
                    assert(ns[ns.len() - 1].name == name@);
                    lemma_entries_prefix(all, point, i + 1);
                    let whole = entries_in(all, point);
                    assert(whole.subrange(0, ns.len() as int)[ns.len() - 1].name == name@);
                    assert(names_of(whole)[ns.len() - 1] == name@);
                }
                return true;
            }
            proof {
                let ns = names_of(entries_in(next, point));
                if ns.contains(name@) {
                    let k = choose|k: int| 0 <= k < ns.len() && ns[k] == name@;
                    if all[i as int].point == point {
                        if k < ns.len() - 1 {
                            assert(names_of(entries_in(head, point))[k] == name@);
                        }
                    }
                }
            }
            i = i + 1;
        }
        assert(all.take(i as int) =~= all);
        false
    }

    /// Adds a hook. A blank name, or one that the point has already, is refused.
    pub fn register(&mut self, point: HookPoint, name: String, handler: Box<dyn Hook>) -> (r: Result<
        (),
        ErrorEnvelope,
    >)
        ensures
            final(self).in_round() == old(self).in_round(),
            final(self).next_sequence() == old(self).next_sequence(),
            forall|p: HookPoint| final(self).requires_point(p) == old(self).requires_point(p),
            match r {
                Ok(()) => {
                    &&& !blank(name@)
                    &&& !names_of(old(self).hooks_at(point)).contains(name@)
                    &&& final(self).hooks_at(point) == old(self).hooks_at(point).push(
                        HookEntry { name: name@, decides: decisions_of(&*handler) },
                    )
                    &&& forall|p: HookPoint|
                        p != point ==> #[trigger] final(self).hooks_at(p) == old(self).hooks_at(p)
                },
                Err(e) => {
                    &&& *final(self) == *old(self)
                    &&& e@ == (if blank(name@) {
                        error(ErrorCode::ToolArgsInvalid, "hook name must not be blank"@)
                    } else {
                        error(
                            ErrorCode::ToolArgsInvalid,
                            "duplicate "@ + point_name(point) + " hook: "@ + name@,
                        )
                    })
                    &&& blank(name@) || names_of(old(self).hooks_at(point)).contains(name@)
                },
            },
    {
        if is_blank(&name) {
            return Err(
                ErrorEnvelope::of(ErrorCode::ToolArgsInvalid, "hook name must not be blank"),
            );
        }
        if self.has(point, &name) {
            return Err(
                ErrorEnvelope::new(
                    ErrorCode::ToolArgsInvalid,
                    concat4("duplicate ", point.as_str(), " hook: ", &name),
                ),
            );
        }
        let ghost before = self.hooks@;
        let held = Held { it: handler };
        self.hooks.push(RegisteredHook::new(point, name, held));
        assert(self.hooks@.drop_last() =~= before);
        Ok(())
    }

    fn is_required(&self, point: HookPoint) -> (r: bool)
        ensures
            r == self.requires_point(point),
    {
        let mut i: usize = 0;
        while i < self.required.len()
            invariant
                i <= self.required@.len(),
                forall|j: int| 0 <= j < i ==> self.required@[j] != point,
            decreases self.required@.len() - i,
        {
            if self.required[i] == point {
                assert(self.required@[i as int] == point);
                return true;
            }
            i = i + 1;
        }
        false
    }

    fn call_id(&mut self, point: HookPoint, name: &str) -> (r: String)
        ensures
            r@ == hook_call_id(point, name@, old(self).next_call_id),
            *final(self) == (HookRegistry {
                next_call_id: bumped(old(self).next_call_id, 1),
                ..*old(self)
            }),
    {
        let sequence: u64 = self.next_call_id;
        self.next_call_id = sequence.saturating_add(1);
        let mut id = concat5("hook:", point.as_str(), ":", name, ":");
        id.push_str(&decimal_of(sequence));
        id
    }

    /// Runs the hooks of the context's point. Each run leaves a call and its result,
    /// whatever the hooks decide; a record that the session does not take ends the round
    /// with an error, so that nothing goes through that was not recorded.
    pub fn execute<S: SessionStore>(&mut self, context: &HookContext, session: &mut S) -> (r: Result<
        (),
        ErrorEnvelope,
    >)
        ensures
            final(session).intact() ==> old(session).intact(),
            kept(old(session).events(), final(session).events()),
            adds_only_calls(old(session).events(), final(session).events()),
            forall|p: HookPoint| final(self).hooks_at(p) == old(self).hooks_at(p),
            forall|p: HookPoint| final(self).requires_point(p) == old(self).requires_point(p),
            final(self).in_round() == old(self).in_round(),
            old(self).in_round() ==> r is Err && r->Err_0@ == recursive_error(),
            old(self).in_round() ==> *final(self) == *old(self) && *final(session) == *old(session),
            extends(old(session).handed(), final(session).handed()),
            !old(self).in_round() ==> final(self).next_sequence() == bumped(
                old(self).next_sequence(),
                rounds_in(added(old(session).handed(), final(session).handed())),
            ),
            final(session).intact() ==> calls_kept(
                old(session).events(),
                final(session).events(),
            ),
            !old(self).in_round() ==> exists|ds: Seq<Decision>|
                hook_round(
                    old(self).hooks_at(context@.point),
                    old(self).requires_point(context@.point),
                    context@,
                    old(self).next_sequence(),
                    ds,
                    added(old(session).handed(), final(session).handed()),
                    failure_of(r),
                ),
    {
        if !self.begin_round() {
            proof {
                lemma_extends_refl(session.events());
                lemma_extends_refl(session.handed());
            }
            return Err(
                ErrorEnvelope::of(ErrorCode::Internal, "recursive hook execution rejected"),
            );
        }
        let result = self.execute_inner(context, session);
        self.running = false;
        result
    }

    fn execute_inner<S: SessionStore>(&mut self, context: &HookContext, session: &mut S) -> (r: Result<
        (),
        ErrorEnvelope,
    >)
        ensures
            final(session).intact() ==> old(session).intact(),
            kept(old(session).events(), final(session).events()),
            adds_only_calls(old(session).events(), final(session).events()),
            final(self).hooks == old(self).hooks,
            final(self).required == old(self).required,
            extends(old(session).handed(), final(session).handed()),
            final(self).next_sequence() == bumped(
                old(self).next_sequence(),
                rounds_in(added(old(session).handed(), final(session).handed())),
            ),
            final(session).intact() ==> calls_kept(
                old(session).events(),
                final(session).events(),
            ),
            exists|ds: Seq<Decision>|
                hook_round(
                    old(self).hooks_at(context@.point),
                    old(self).requires_point(context@.point),
                    context@,
                    old(self).next_sequence(),
                    ds,
                    added(old(session).handed(), final(session).handed()),
                    failure_of(r),
                ),
    {
        let ghost start = session.events();
        let ghost start_h = session.handed();
        let ghost seq0 = self.next_call_id;
        let ghost entries = self.hooks_at(context@.point);
        let required = self.is_required(context.point);
        proof {
            lemma_extends_refl(start);
            lemma_extends_refl(start_h);
        }
        let mut ran = false;
        let mut i: usize = 0;
        let ghost mut ds: Seq<Decision> = Seq::empty();
        let ghost all = self.hooks@;
        assert(all.take(0) =~= Seq::<RegisteredHook>::empty());
        while i < self.hooks.len()
            invariant
                i <= self.hooks@.len(),
                all == self.hooks@,
                self.hooks == old(self).hooks,
                self.required == old(self).required,
                required == old(self).requires_point(context@.point),
                entries == entries_in(all, context@.point),
                session.intact() ==> old(session).intact(),
                start == old(session).events(),
                kept(start, session.events()),
                adds_only_calls(start, session.events()),
                ds.len() == entries_in(all.take(i as int), context@.point).len(),
                ran == (ds.len() > 0),
                session.intact() ==> calls_kept(start, session.events()),
                start_h == old(session).handed(),
                extends(start_h, session.handed()),
                all_taken(added(start_h, session.handed())),
                added(start_h, session.handed()).len() == 2 * ds.len(),
                self.next_call_id == bumped(seq0, ds.len() as int),
                forall|k: int|
                    0 <= k < ds.len() ==> hook_pair(
                        added(start_h, session.handed())[2 * k].event,
                        added(start_h, session.handed())[2 * k + 1].event,
                        context@,
                        entries[k].name,
                        bumped(seq0, k),
                        decision_outcome(#[trigger] ds[k]),
                    ) && (entries[k].decides)(context@, ds[k]),
                required ==> allowed_before(ds, ds.len() as int),
                seq0 == old(self).next_call_id,
            decreases self.hooks@.len() - i,
        {
            let ghost head = all.take(i as int);
            let ghost next = all.take(i + 1);
            proof {
                assert(next.drop_last() =~= head);
                assert(next.last() == all[i as int]);
                lemma_entries_prefix(all, context@.point, i as int);
                lemma_entries_prefix(all, context@.point, i + 1);
            }
            if self.hooks[i].point == context.point {
                ran = true;
                let ghost log0 = session.events();
                let ghost name = all[i as int].name@;
                proof {
                    let ns = entries_in(next, context@.point);
                    let entry = entry_of(all[i as int]);
                    assert(ns[ns.len() - 1] == entry);
                    assert(entries.subrange(0, ns.len() as int)[ns.len() - 1] == entry);
                    assert(entries[ds.len() as int] == entry);
                }
                let hook_name = self.hooks[i].name.clone();
                let call_id = self.call_id(context.point, &hook_name);
                let tool = concat4("hook:", context.point.as_str(), ":", &hook_name);
                let request = Event::ToolCallRequested {
                    call_id: call_id.clone(),
                    tool,
                    args: context.event_args(),
                };
                let ghost handed0 = session.handed();
                match append(session, request) {
                    Ok(()) => {},
                    Err(e) => {
                        proof {
                            lemma_next_handed(
                                start_h,
                                handed0,
                                session.handed().last(),
                            );
                            assert(hook_round(
                                old(self).hooks_at(context@.point),
                                old(self).requires_point(context@.point),
                                context@,
                                old(self).next_sequence(),
                                ds,
                                added(start_h, session.handed()),
                                Some(e@),
                            ));
                        }
                        return Err(e);
                    },
                }
                let ghost log1 = session.events();
                let ghost handed1 = session.handed();
                proof {
                    lemma_next_handed(start_h, handed0, session.handed().last());
                }
                let decision = self.hooks[i].handler.it.run(context);
                let ghost d = decision_of(decision);
                assert(hook_said(&*all[i as int].handler.it, context, decision));
                assert((entries[ds.len() as int].decides)(context@, d));
                let (outcome, failure) = project_decision(decision);
                let answer = Event::ToolResultAdded { call_id, outcome };
                proof {
                    lemma_kept_push(start, log0, request);
                    lemma_kept_push(start, log1, answer);
                    lemma_extends_refl(log1);
                    lemma_pair_kept(log0, request, log1, answer);
                }
                let appended = append(session, answer);
                proof {
                    let before = added(start_h, handed0);
                    let last = session.handed().last();
                    lemma_next_handed(start_h, handed1, last);
                    let after = added(start_h, session.handed());
                    assert(after =~= before.push(took(request)).push(last));
                    let ds1 = ds.push(d);
                    assert forall|k: int| 0 <= k < ds1.len() implies hook_pair(
                        after[2 * k].event,
                        after[2 * k + 1].event,
                        context@,
                        entries[k].name,
                        bumped(seq0, k),
                        decision_outcome(#[trigger] ds1[k]),
                    ) && (entries[k].decides)(context@, ds1[k]) by {
                        if k < ds.len() {
                            assert(ds1[k] == ds[k]);
                            assert(after[2 * k] == before[2 * k]);
                            assert(after[2 * k + 1] == before[2 * k + 1]);
                        } else {
                            assert(after[2 * k].event == request);
                            assert(after[2 * k + 1].event == answer);
                        }
                    }
                    assert forall|k: int| 0 <= k < ds.len() && required implies (
                    #[trigger] ds1[k]) is Allowed by {
                        assert(ds1[k] == ds[k]);
                    }
                    ds = ds1;
                }
                match appended {
                    Ok(()) => {},
                    Err(e) => {
                        assert(hook_round(
                            old(self).hooks_at(context@.point),
                            old(self).requires_point(context@.point),
                            context@,
                            old(self).next_sequence(),
                            ds,
                            added(start_h, session.handed()),
                            Some(e@),
                        ));
                        return Err(e);
                    },
                }
                if required {
                    match failure {
                        Some(e) => {
                            let result: Result<(), ErrorEnvelope> = Err(e);
                            assert(hook_round(
                                old(self).hooks_at(context@.point),
                                old(self).requires_point(context@.point),
                                context@,
                                old(self).next_sequence(),
                                ds,
                                added(start_h, session.handed()),
                                failure_of(result),
                            ));
                            return result;
                        },
                        None => {},
                    }
                }
            }
            i = i + 1;
        }
        assert(all.take(i as int) =~= all);
        if !ran && required {
            let e = ErrorEnvelope::new(
                ErrorCode::ApprovalRejected,
                concat3("required ", context.point.as_str(), " hook is missing"),
            );
            let ghost log0 = session.events();
            let call_id = self.call_id(context.point, "missing");
            let tool = concat3("hook:", context.point.as_str(), ":missing");
            proof {
                reveal_strlit(":missing");
                reveal_strlit(":");
                reveal_strlit("missing");
                assert(":missing"@ =~= ":"@ + "missing"@);
                assert(tool@ =~= hook_tool(context@.point, "missing"@));
            }
            let request = Event::ToolCallRequested {
                call_id: call_id.clone(),
                tool,
                args: context.event_args(),
            };
            let ghost handed0 = session.handed();
            match append(session, request) {
                Ok(()) => {},
                Err(e) => {
                    proof {
                        lemma_next_handed(start_h, handed0, session.handed().last());
                        assert(hook_round(
                            old(self).hooks_at(context@.point),
                            old(self).requires_point(context@.point),
                            context@,
                            old(self).next_sequence(),
                            ds,
                            added(start_h, session.handed()),
                            Some(e@),
                        ));
                    }
                    return Err(e);
                },
            }
            let ghost log1 = session.events();
            let ghost handed1 = session.handed();
            proof {
                lemma_next_handed(start_h, handed0, session.handed().last());
            }
            let answer = Event::ToolResultAdded {
                call_id,
                outcome: ToolOutcome::Failure { error: e.clone() },
            };
            proof {
                lemma_kept_push(start, log0, request);
                lemma_kept_push(start, log1, answer);
                lemma_extends_refl(log1);
                lemma_pair_kept(log0, request, log1, answer);
            }
            let result: Result<(), ErrorEnvelope> = match append(session, answer) {
                Ok(()) => Err(e),
                Err(failure) => Err(failure),
            };
            proof {
                let last = session.handed().last();
                lemma_next_handed(start_h, handed1, last);
                let after = added(start_h, session.handed());
                assert(after =~= added(start_h, handed0).push(took(request)).push(last));
                assert(hook_round(
                    old(self).hooks_at(context@.point),
                    old(self).requires_point(context@.point),
                    context@,
                    old(self).next_sequence(),
                    ds,
                    after,
                    failure_of(result),
                ));
            }
            return result;
        }
        let result: Result<(), ErrorEnvelope> = Ok(());
        proof {
            assert(last_refusal(added(start_h, session.handed())) is None);
            assert(hook_round(
                old(self).hooks_at(context@.point),
                old(self).requires_point(context@.point),
                context@,
                old(self).next_sequence(),
                ds,
                added(start_h, session.handed()),
                failure_of(result),
            ));
        }
        result
    }
}

impl Default for HookRegistry {
    fn default() -> (r: HookRegistry)
        ensures
            !r.in_round(),
            r.next_sequence() == 0,
            forall|p: HookPoint| !r.requires_point(p),
            forall|p: HookPoint| #[trigger] r.hooks_at(p) == Seq::<HookEntry>::empty(),
    {
        HookRegistry::new(Vec::new())
    }
}

proof fn lemma_entries_prefix(hooks: Seq<RegisteredHook>, point: HookPoint, k: int)
    requires
        0 <= k <= hooks.len(),
    ensures
        entries_in(hooks.take(k), point).len() <= entries_in(hooks, point).len(),
        entries_in(hooks, point).subrange(0, entries_in(hooks.take(k), point).len() as int)
            == entries_in(hooks.take(k), point),
    decreases hooks.len() - k,
{
    if k < hooks.len() {
        let shorter = hooks.drop_last();
        lemma_entries_prefix(shorter, point, k);
        assert(shorter.take(k) =~= hooks.take(k));
        let n = entries_in(hooks.take(k), point).len() as int;
        assert(entries_in(hooks, point).subrange(0, n) =~= entries_in(shorter, point).subrange(0, n));
    } else {
        assert(hooks.take(k) =~= hooks);
        assert(entries_in(hooks, point).subrange(0, entries_in(hooks, point).len() as int) =~= entries_in(
            hooks,
            point,
        ));
    }
}

// ---------------------------------------------------------------------------
// Laws
// ---------------------------------------------------------------------------

/// A required point lets nothing through unless every one of its hooks ran, allowed it and
/// is on record with it, and there is at least one.
pub proof fn required_point_is_closed_by_default(
    hooks: Seq<HookEntry>,
    context: ContextView,
    sequence: u64,
    ds: Seq<Decision>,
    events: Seq<Handed>,
)
    requires
        hook_round(hooks, true, context, sequence, ds, events, None),
    ensures
        hooks.len() > 0,
        ds.len() == hooks.len(),
        forall|i: int|
            0 <= i < ds.len() ==> (#[trigger] ds[i]) is Allowed && (hooks[i].decides)(
                context,
                ds[i],
            ),
        all_taken(events),
        events.len() == 2 * ds.len(),
{
    assert forall|i: int| 0 <= i < events.len() implies (#[trigger] events[i]).refused is None by {
        if i == events.len() - 1 {
            assert(events.last() == events[i]);
        }
    }
}

/// A point that is not required never stops the loop, as long as its runs are recorded.
pub proof fn optional_point_never_refuses(
    hooks: Seq<HookEntry>,
    context: ContextView,
    sequence: u64,
    ds: Seq<Decision>,
    events: Seq<Handed>,
    result: Option<ErrorView>,
)
    requires
        hook_round(hooks, false, context, sequence, ds, events, result),
        all_taken(events),
    ensures
        result is None,
{
}

/// A point is shown by its own name, and by no other's.
pub proof fn a_point_has_one_name(a: HookPoint, b: HookPoint)
    ensures
        point_name(HookPoint::PreToolUse) == "pre_tool_use"@,
        point_name(HookPoint::PostToolUse) == "post_tool_use"@,
        point_name(HookPoint::TurnCompleted) == "turn_completed"@,
        point_name(HookPoint::TurnFailed) == "turn_failed"@,
        point_name(HookPoint::TurnInterrupted) == "turn_interrupted"@,
        point_name(HookPoint::SubagentStopped) == "subagent_stopped"@,
        point_name(a) == point_name(b) <==> a == b,
{
    reveal_strlit("pre_tool_use");
    reveal_strlit("post_tool_use");
    reveal_strlit("turn_completed");
    reveal_strlit("turn_failed");
    reveal_strlit("turn_interrupted");
    reveal_strlit("subagent_stopped");
    assert("pre_tool_use"@.len() == 12);
    assert("post_tool_use"@.len() == 13);
    assert("turn_completed"@.len() == 14);
    assert("turn_failed"@.len() == 11);
    assert("turn_interrupted"@.len() == 16);
    assert("subagent_stopped"@.len() == 16);
    assert("turn_interrupted"@[0] != "subagent_stopped"@[0]);
}

/// A hook is told its point, the turn, the call, the tool, the detail and the outcome, each
/// under its name, and nothing in place of what there is not.
pub proof fn a_hook_is_told_everything(c: ContextView)
    ensures
        ({
            let told = context_json(c);
            &&& member_of(told, "point"@) == Some(JsonView::Text(point_name(c.point)))
            &&& member_of(told, "call_id"@) == Some(
                match c.call_id {
                    Some(t) => JsonView::Text(t),
                    None => JsonView::Null,
                },
            )
            &&& member_of(told, "tool"@) == Some(
                match c.tool {
                    Some(t) => JsonView::Text(t),
                    None => JsonView::Null,
                },
            )
            &&& member_of(told, "detail"@) == Some(
                match c.detail {
                    Some(t) => JsonView::Text(t),
                    None => JsonView::Null,
                },
            )
            &&& member_of(told, "outcome"@) == Some(
                match c.outcome {
                    Some(o) => outcome_json(o),
                    None => JsonView::Null,
                },
            )
            &&& member_of(told, "turn_id"@) is Some
            &&& c.turn_id is Some ==> uint_of(member_of(told, "turn_id"@)->0) == Some(
                c.turn_id->0 as nat,
            )
            &&& c.turn_id is None ==> member_of(told, "turn_id"@) == Some(JsonView::Null)
        }),
{
    reveal_strlit("call_id");
    reveal_strlit("detail");
    reveal_strlit("outcome");
    reveal_strlit("point");
    reveal_strlit("tool");
    reveal_strlit("turn_id");
    assert("call_id"@.len() == 7);
    assert("detail"@.len() == 6);
    assert("outcome"@.len() == 7);
    assert("point"@.len() == 5);
    assert("tool"@.len() == 4);
    assert("turn_id"@.len() == 7);
    assert("call_id"@[0] != "outcome"@[0]);
    assert("call_id"@[0] != "turn_id"@[0]);
    assert("outcome"@[0] != "turn_id"@[0]);
    let members = context_json(c)->Object_0;
    lemma_member_at(members, 0);
    lemma_member_at(members, 1);
    lemma_member_at(members, 2);
    lemma_member_at(members, 3);
    lemma_member_at(members, 4);
    lemma_member_at(members, 5);
    if let Some(n) = c.turn_id {
        a_written_number_is_read_back(n as nat);
    }
}

/// What a hook decides: it lets pass with a note, it refuses for its note, or it fails with its
/// own error.
pub proof fn what_a_hook_decides(r: HookResult, e: ErrorEnvelope)
    ensures
        r.allowed ==> decision_error(decision_of(Ok(r))) is None,
        !r.allowed ==> decision_error(decision_of(Ok(r))) == Some(
            ErrorView { code: ErrorCode::ApprovalRejected, message: r.note@ },
        ),
        decision_error(decision_of(Err(e))) == Some(e@),
        r.allowed ==> {
            &&& decision_outcome(decision_of(Ok(r))) is Success
            &&& member_of(decision_outcome(decision_of(Ok(r)))->value, "allowed"@) == Some(
                JsonView::Bool(true),
            )
            &&& member_of(decision_outcome(decision_of(Ok(r)))->value, "note"@) == Some(
                JsonView::Text(r.note@),
            )
        },
        !r.allowed ==> (decision_outcome(decision_of(Ok(r))) matches OutcomeView::Failure {
            error: shown,
        } && shown.code == ErrorCode::ApprovalRejected && shown.message == r.note@),
        decision_outcome(decision_of(Err(e))) matches OutcomeView::Failure { error: shown } && shown
            == e@,
{
    reveal_strlit("allowed");
    reveal_strlit("note");
    assert("allowed"@.len() == 7);
    assert("note"@.len() == 4);
    if r.allowed {
        let members = decision_outcome(decision_of(Ok(r)))->value->Object_0;
        lemma_member_at(members, 0);
        lemma_member_at(members, 1);
    }
}

/// A hook's call is recorded under a name made of its point, its own name and a number, and
/// its tool under the first two.
pub proof fn how_a_hook_is_recorded(point: HookPoint, name: Seq<char>, sequence: u64)
    ensures
        hook_tool(point, name) == "hook:"@ + point_name(point) + ":"@ + name,
        hook_call_id(point, name, sequence) == hook_tool(point, name) + ":"@ + decimal(
            sequence as nat,
        ),
{
}

/// The numbers of a round go up by one and stop at the last there is.
pub proof fn numbers_go_up(n: u64, k: int)
    requires
        k >= 0,
    ensures
        n + k <= u64::MAX ==> bumped(n, k) == n + k,
        n + k > u64::MAX ==> bumped(n, k) == u64::MAX,
        bumped(n, k) >= n,
{
}

/// Where every hook's record was taken, a round that nothing refused has asked every hook, in
/// the order of their names, and each answer is on record behind its question.
pub proof fn a_round_asks_every_hook(
    hooks: Seq<HookEntry>,
    context: ContextView,
    sequence: u64,
    ds: Seq<Decision>,
    events: Seq<Handed>,
    i: int,
)
    requires
        hook_round(hooks, true, context, sequence, ds, events, None),
        hooks.len() > 0,
        0 <= i < hooks.len(),
    ensures
        events.len() == 2 * hooks.len(),
        ds.len() == hooks.len(),
        ds[i] is Allowed,
        (hooks[i].decides)(context, ds[i]),
        events[2 * i].event matches Event::ToolCallRequested { call_id, tool, args } && call_id@
            == hook_call_id(context.point, hooks[i].name, bumped(sequence, i)) && tool@ == hook_tool(
            context.point,
            hooks[i].name,
        ) && args@ == context_json(context),
        events[2 * i + 1].event matches Event::ToolResultAdded { call_id, outcome } && call_id@
            == hook_call_id(context.point, hooks[i].name, bumped(sequence, i)) && outcome@ is Success,
{
    let d = ds[i];
}

/// Without a hook nothing is recorded, and a point that must have one is refused.
pub proof fn a_missing_hook_is_refused(
    context: ContextView,
    sequence: u64,
    ds: Seq<Decision>,
    events: Seq<Handed>,
    required: bool,
    result: Option<ErrorView>,
)
    requires
        hook_round(Seq::empty(), required, context, sequence, ds, events, result),
    ensures
        !required ==> events.len() == 0 && result is None,
        required ==> result is Some && events.len() > 0,
        required && last_refusal(events) is None ==> {
            &&& result->0.code == ErrorCode::ApprovalRejected
            &&& result->0.message == "required "@ + point_name(context.point) + " hook is missing"@
            &&& events.len() == 2
        },
{
}

/// Without a registry nothing runs and nothing is refused; otherwise the hooks of the point
/// run, and it is required where the registry says so.
pub proof fn which_hooks_run(h: HookRegistry, point: HookPoint)
    ensures
        !hook_rules(None).present,
        sequence_of(None) == 0,
        hook_rules(Some(h)).present,
        hook_rules(Some(h)).hooks[point] == h.hooks_at(point),
        hook_rules(Some(h)).required.contains(point) <==> h.requires_point(point),
        sequence_of(Some(h)) == h.next_sequence(),
{
    reveal(hook_rules);
}

/// Two records make a round of a hook; one without its answer counts too.
pub proof fn how_rounds_are_counted(events: Seq<Handed>, a: Handed, b: Handed)
    ensures
        rounds_in(Seq::empty()) == 0,
        events.len() % 2 == 0 ==> rounds_in(events.push(a)) == rounds_in(events) + 1,
        rounds_in(events.push(a).push(b)) == rounds_in(events) + 1,
        audit_error(Seq::empty()).code == ErrorCode::Internal,
        recursive_error().code == ErrorCode::Internal,
{
}

/// A point that may be passed asks every hook in its order, whatever each says, and each answer
/// is on record behind its question.
pub proof fn a_point_that_may_be_passed_asks_every_hook(
    hooks: Seq<HookEntry>,
    context: ContextView,
    sequence: u64,
    ds: Seq<Decision>,
    events: Seq<Handed>,
    result: Option<ErrorView>,
    i: int,
)
    requires
        hook_round(hooks, false, context, sequence, ds, events, result),
        all_taken(events),
        0 <= i < hooks.len(),
    ensures
        result is None,
        events.len() == 2 * hooks.len(),
        ds.len() == hooks.len(),
        (hooks[i].decides)(context, ds[i]),
        events[2 * i].event matches Event::ToolCallRequested { call_id, tool, args } && call_id@
            == hook_call_id(context.point, hooks[i].name, bumped(sequence, i)) && tool@ == hook_tool(
            context.point,
            hooks[i].name,
        ) && args@ == context_json(context),
        events[2 * i + 1].event matches Event::ToolResultAdded { call_id, outcome } && call_id@
            == hook_call_id(context.point, hooks[i].name, bumped(sequence, i)) && outcome@
            == decision_outcome(ds[i]),
{
    if events.len() > 0 {
        assert(events[events.len() - 1].refused is None);
    }
    let d = ds[i];
}

/// A point that must be passed stops at the first hook that refuses or fails: its error is the
/// round's, and no later hook is asked.
pub proof fn a_point_that_must_be_passed_stops_at_the_first_refusal(
    hooks: Seq<HookEntry>,
    context: ContextView,
    sequence: u64,
    ds: Seq<Decision>,
    events: Seq<Handed>,
    e: ErrorView,
    i: int,
)
    requires
        hook_round(hooks, true, context, sequence, ds, events, Some(e)),
        all_taken(events),
        hooks.len() > 0,
    ensures
        0 < ds.len() <= hooks.len(),
        events.len() == 2 * ds.len(),
        0 <= i < ds.len() - 1 ==> ds[i] is Allowed,
        ds.last() matches Decision::Denied(note) ==> e.code == ErrorCode::ApprovalRejected
            && e.message == note,
        ds.last() matches Decision::Failed(failure) ==> e == failure,
        !(ds.last() is Allowed),
{
    if events.len() > 0 {
        assert(events[events.len() - 1].refused is None);
    }
    if 0 <= i < ds.len() - 1 {
        let d = ds[i];
    }
}

} // verus!
