//! The life of a subagent in its parent's event stream: call, start, cancellation,
//! report, stop and result.
use vstd::prelude::*;
use vstd::rwlock::{ReadHandle, RwLock, RwLockPredicate, WriteHandle};
use crate::hooks::{ran_hooks, ContextView, HookPoint, HookRules};
use crate::json::{
    a_written_number_is_read_back, items_view, lemma_array_view, lemma_member_at,
    lemma_object_view, member_of, members_view, uint_of, Json, JsonView,
};
use crate::protocol::{
    error, ErrorCode, ErrorEnvelope, ErrorView, Event, OutcomeView, SubagentOutcome,
    SubagentReportDelivery, ToolOutcome,
};
use crate::session::{
    added, all_taken, calls_kept, extends, kept, last_refusal, lemma_extends_refl,
    lemma_extends_trans, lemma_kept_push, lemma_kept_trans, lemma_next_handed, lemma_pair_kept,
    lemma_taken_extends, lemma_taken_of, offered, taken, taken_so_far, Handed, SessionStore,
    StoredEvents,
};
use crate::subagent::{
    ran_task, run_task, SubagentReport, SubagentRunner, SubagentTask, SubagentTrace, TaskView,
};
use crate::subagent_policy::{
    delegation_error, validate_delegation, PolicyView, RequestView, SubagentPolicy, SubagentRequest,
};
use crate::text::{blank, concat2, decimal, decimal_of, is_blank, views};
use crate::usage::{lemma_ledger_push, lemma_step_refl, steady, step_ok};

verus! {

broadcast use vstd::string::group_string_axioms;

// ---------------------------------------------------------------------------
// Cancellation
// ---------------------------------------------------------------------------

/// A reason for a cancellation is never blank.
pub struct ReasonNotBlank;

impl RwLockPredicate<Option<String>> for ReasonNotBlank {
    open spec fn inv(self, reason: Option<String>) -> bool {
        reason matches Some(text) ==> !blank(text@)
    }
}

/// A signal from a parent to its subagent, which both hold.
pub struct SubagentCancellation {
    reason: std::sync::Arc<RwLock<Option<String>, ReasonNotBlank>>,
}

pub open spec fn blank_reason_error() -> ErrorView {
    error(ErrorCode::ToolArgsInvalid, "subagent cancellation reason must not be blank"@)
}

/// The reason that a signal holds after one more: the first one stays.
pub open spec fn kept_reason(held: Option<Seq<char>>, reason: Seq<char>) -> Option<Seq<char>> {
    match held {
        Some(first) => Some(first),
        None => Some(reason),
    }
}

pub open spec fn reason_view(reason: Option<String>) -> Option<Seq<char>> {
    match reason {
        Some(text) => Some(text@),
        None => None,
    }
}

/// Keeps the first reason.
pub fn keep_first_reason(held: Option<String>, reason: String) -> (r: Option<String>)
    ensures
        reason_view(r) == kept_reason(reason_view(held), reason@),
{
    match held {
        Some(first) => Some(first),
        None => Some(reason),
    }
}

/// The signal was made with no reason in it.
pub open spec fn made_without_reason(signal: &SubagentCancellation) -> bool {
    call_ensures(
        RwLock::<Option<String>, ReasonNotBlank>::new,
        (None::<String>, Ghost(ReasonNotBlank)),
        signal.cell(),
    )
}

/// The signal was read, and held `found` then. Other holders may change it before the
/// next time, from nothing to a reason.
pub open spec fn was_read(signal: &SubagentCancellation, found: Option<Seq<char>>) -> bool {
    exists|handle: ReadHandle<Option<String>, ReasonNotBlank>|
        reason_view(handle.view()) == found && #[trigger] call_ensures(
            RwLock::<Option<String>, ReasonNotBlank>::acquire_read,
            (&signal.cell(),),
            handle,
        )
}

/// The signal held `held` when it was taken for writing, and holds `next` since it was
/// given back.
pub open spec fn was_changed(
    signal: &SubagentCancellation,
    held: Option<String>,
    next: Option<String>,
) -> bool {
    exists|handle: WriteHandle<Option<String>, ReasonNotBlank>|
        #[trigger] call_ensures(
            RwLock::<Option<String>, ReasonNotBlank>::acquire_write,
            (&signal.cell(),),
            (held, handle),
        ) && call_ensures(
            WriteHandle::<Option<String>, ReasonNotBlank>::release_write,
            (handle, next),
            (),
        )
}

impl Clone for SubagentCancellation {
    fn clone(&self) -> (r: SubagentCancellation)
        ensures
            r == *self,
    {
        self.share()
    }
}

impl Default for SubagentCancellation {
    fn default() -> (r: SubagentCancellation)
        ensures
            made_without_reason(&r),
    {
        SubagentCancellation::new()
    }
}

impl SubagentCancellation {
    /// The lock that all holders of the signal share.
    pub closed spec fn cell(&self) -> RwLock<Option<String>, ReasonNotBlank> {
        *self.reason
    }

    pub fn new() -> (r: SubagentCancellation)
        ensures
            made_without_reason(&r),
    {
        let lock = RwLock::new(None, Ghost(ReasonNotBlank));
        assert(call_ensures(
            RwLock::<Option<String>, ReasonNotBlank>::new,
            (None::<String>, Ghost(ReasonNotBlank)),
            lock,
        ));
        SubagentCancellation { reason: std::sync::Arc::new(lock) }
    }

    /// Another holder of the same signal.
    pub fn share(&self) -> (r: SubagentCancellation)
        ensures
            r == *self,
    {
        SubagentCancellation { reason: self.reason.clone() }
    }

    /// Cancels. A blank reason is refused and cancels nothing; a later reason does
    /// not replace an earlier one.
    pub fn cancel(&self, reason: String) -> (r: Result<(), ErrorEnvelope>)
        ensures
            r is Ok <==> !blank(reason@),
            r matches Err(e) ==> e@ == blank_reason_error(),
            r is Ok ==> exists|held: Option<String>, next: Option<String>| #[trigger]
                was_changed(self, held, next) && reason_view(next) == kept_reason(
                    reason_view(held),
                    reason@,
                ),
    {
        if is_blank(&reason) {
            return Err(
                ErrorEnvelope::of(
                    ErrorCode::ToolArgsInvalid,
                    "subagent cancellation reason must not be blank",
                ),
            );
        }
        let (held, handle) = self.reason.acquire_write();
        let ghost before = held;
        assert(call_ensures(
            RwLock::<Option<String>, ReasonNotBlank>::acquire_write,
            (&self.cell(),),
            (before, handle),
        ));
        let next = keep_first_reason(held, reason);
        let ghost after = next;
        let ghost taken = handle;
        handle.release_write(next);
        assert(call_ensures(
            WriteHandle::<Option<String>, ReasonNotBlank>::release_write,
            (taken, after),
            (),
        ));
        assert(was_changed(self, before, after));
        Ok(())
    }

    pub fn is_cancelled(&self) -> (r: Result<bool, ErrorEnvelope>)
        ensures
            exists|found: Option<Seq<char>>| #[trigger]
                was_read(self, found) && r == Ok::<bool, ErrorEnvelope>(found is Some),
    {
        let found = self.reason();
        assert(was_read(self, reason_view(found)));
        Ok(found.is_some())
    }

    /// The reason, once there is one.
    pub fn reason(&self) -> (r: Option<String>)
        ensures
            was_read(self, reason_view(r)),
            r matches Some(text) ==> !blank(text@),
    {
        let handle = self.reason.acquire_read();
        assert(call_ensures(
            RwLock::<Option<String>, ReasonNotBlank>::acquire_read,
            (&self.cell(),),
            handle,
        ));
        let copy = match handle.borrow() {
            Some(text) => Some(text.clone()),
            None => None,
        };
        assert(reason_view(copy) == reason_view(handle.view()));
        handle.release_read();
        copy
    }
}

// ---------------------------------------------------------------------------
// Delegations
// ---------------------------------------------------------------------------

/// One task handed to a subagent: what it asks for, what it may, how it reports.
pub struct SubagentDelegation<'a> {
    pub request: &'a SubagentRequest,
    pub parent_policy: &'a SubagentPolicy,
    pub child_policy: &'a SubagentPolicy,
    pub delivery: SubagentReportDelivery,
    pub cancellation: &'a SubagentCancellation,
}

impl<'a> SubagentDelegation<'a> {
    pub fn new(
        request: &'a SubagentRequest,
        parent_policy: &'a SubagentPolicy,
        child_policy: &'a SubagentPolicy,
        delivery: SubagentReportDelivery,
        cancellation: &'a SubagentCancellation,
    ) -> (r: SubagentDelegation<'a>)
        ensures
            r.request == request,
            r.parent_policy == parent_policy,
            r.child_policy == child_policy,
            r.delivery == delivery,
            r.cancellation == cancellation,
    {
        SubagentDelegation { request, parent_policy, child_policy, delivery, cancellation }
    }

    pub fn delivery(&self) -> (r: SubagentReportDelivery)
        ensures
            r == self.delivery,
    {
        self.delivery
    }
}

// ---------------------------------------------------------------------------
// The events of a life
// ---------------------------------------------------------------------------

pub open spec fn number(n: nat) -> JsonView {
    JsonView::Number(decimal(n))
}

pub open spec fn texts_json(texts: Seq<Seq<char>>) -> JsonView {
    JsonView::Array(texts.map_values(|t: Seq<char>| JsonView::Text(t)))
}

/// The arguments of the recorded call.
pub open spec fn call_args(t: TaskView, q: RequestView, tools: Seq<Seq<char>>) -> JsonView {
    JsonView::Object(
        seq![
            ("active_children"@, number(q.active_children as nat)),
            ("child_id"@, JsonView::Text(t.child_id)),
            ("depth"@, number(q.depth as nat)),
            (
                "model"@,
                match q.model {
                    Some(m) => JsonView::Text(m),
                    None => JsonView::Null,
                },
            ),
            ("parent_id"@, JsonView::Text(t.parent_id)),
            ("prompt"@, JsonView::Text(t.prompt)),
            ("token_budget"@, number(q.token_budget as nat)),
            ("tools"@, texts_json(tools)),
            ("turn_budget"@, number(q.turn_budget as nat)),
        ],
    )
}

fn tools_json(names: &Vec<String>) -> (r: Json)
    ensures
        r@ == texts_json(views(names@)),
{
    let mut items: Vec<Json> = Vec::new();
    let mut i: usize = 0;
    let ghost target = views(names@).map_values(|t: Seq<char>| JsonView::Text(t));
    while i < names.len()
        invariant
            i <= names@.len(),
            target == views(names@).map_values(|t: Seq<char>| JsonView::Text(t)),
            items_view(items@) == target.take(i as int),
        decreases names@.len() - i,
    {
        let ghost before = items@;
        let item = Json::Text(names[i].clone());
        items.push(item);
        proof {
            assert(items_view(items@) =~= items_view(before).push(item@));
            assert(target[i as int] == item@);
            assert(target.take(i + 1) =~= target.take(i as int).push(item@));
        }
        i = i + 1;
    }
    proof {
        lemma_array_view(items);
        assert(target.take(i as int) =~= target);
    }
    Json::Array(items)
}

fn call_arguments(task: &SubagentTask, request: &SubagentRequest) -> (r: Json)
    ensures
        r@ == call_args(task@, request@, request.tools_listed()),
{
    let mut members: Vec<(String, Json)> = Vec::new();
    members.push(
        ("active_children".to_string(), Json::Number(decimal_of(request.active_children() as u64))),
    );
    members.push(("child_id".to_string(), Json::Text(task.child_id().clone())));
    members.push(("depth".to_string(), Json::Number(decimal_of(request.depth() as u64))));
    let model = match request.model() {
        Some(m) => Json::Text(m.clone()),
        None => Json::Null,
    };
    members.push(("model".to_string(), model));
    members.push(("parent_id".to_string(), Json::Text(task.parent_id().clone())));
    members.push(("prompt".to_string(), Json::Text(task.prompt().clone())));
    members.push(("token_budget".to_string(), Json::Number(decimal_of(request.token_budget()))));
    members.push(("tools".to_string(), tools_json(request.tools().names())));
    members.push(
        ("turn_budget".to_string(), Json::Number(decimal_of(request.turn_budget() as u64))),
    );
    proof {
        lemma_object_view(members);
        assert(members_view(members@) =~= call_args(
            task@,
            request@,
            request.tools_listed(),
        )->Object_0);
    }
    Json::Object(members)
}

/// The recorded result of a task that succeeded.
pub open spec fn report_outcome(task_id: Seq<char>, text: Seq<char>, count: nat) -> OutcomeView {
    OutcomeView::Success {
        value: JsonView::Object(
            seq![
                ("child_event_count"@, number(count)),
                ("kind"@, JsonView::Text("subagent_report"@)),
                ("task_id"@, JsonView::Text(task_id)),
                ("text"@, JsonView::Text(text)),
            ],
        ),
    }
}

fn report_json(report: &SubagentReport) -> (r: ToolOutcome)
    ensures
        r@ == report_outcome(report.task_id@, report.text@, report.child_event_count as nat),
{
    let mut members: Vec<(String, Json)> = Vec::new();
    members.push(
        (
            "child_event_count".to_string(),
            Json::Number(decimal_of(report.child_event_count as u64)),
        ),
    );
    members.push(("kind".to_string(), Json::Text("subagent_report".to_string())));
    members.push(("task_id".to_string(), Json::Text(report.task_id.clone())));
    members.push(("text".to_string(), Json::Text(report.text.clone())));
    proof {
        lemma_object_view(members);
        assert(members_view(members@) =~= seq![
            ("child_event_count"@, number(report.child_event_count as nat)),
            ("kind"@, JsonView::Text("subagent_report"@)),
            ("task_id"@, JsonView::Text(report.task_id@)),
            ("text"@, JsonView::Text(report.text@)),
        ]);
    }
    ToolOutcome::Success { value: Json::Object(members) }
}

pub open spec fn cancelled_error() -> ErrorView {
    error(ErrorCode::SubagentCancelled, "subagent cancelled by parent"@)
}

pub open spec fn is_call(e: Event, t: TaskView, q: RequestView, tools: Seq<Seq<char>>) -> bool {
    e matches Event::ToolCallRequested { call_id, tool, args } && call_id@ == t.id && tool@
        == "subagent"@ && args@ == call_args(t, q, tools)
}

pub open spec fn is_started(e: Event, t: TaskView) -> bool {
    e matches Event::SubagentStarted { task_id, parent_id, child_id } && task_id@ == t.id
        && parent_id@ == t.parent_id && child_id@ == t.child_id
}

pub open spec fn is_stopped(e: Event, t: TaskView, outcome: SubagentOutcome) -> bool {
    e matches Event::SubagentStopped { task_id, child_id, outcome: o } && task_id@ == t.id
        && child_id@ == t.child_id && o == outcome
}

pub open spec fn is_result(e: Event, t: TaskView, o: OutcomeView) -> bool {
    e matches Event::ToolResultAdded { call_id, outcome } && call_id@ == t.id && outcome@ == o
}

pub open spec fn is_cancellation(e: Event, t: TaskView, reason: Seq<char>) -> bool {
    e matches Event::SubagentCancellationRequested { task_id, child_id, reason: why } && task_id@
        == t.id && child_id@ == t.child_id && why@ == reason
}

pub open spec fn is_report(
    e: Event,
    t: TaskView,
    delivery: SubagentReportDelivery,
    text: Seq<char>,
) -> bool {
    e matches Event::SubagentReportDelivered { task_id, child_id, delivery: d, text: said }
        && task_id@ == t.id && child_id@ == t.child_id && d == delivery && said@ == text
}

/// What came of a run: the text or the error, and the cancellation that was there
/// after it.
pub enum RunEnd {
    Cancelled(Seq<char>),
    Succeeded(Seq<char>, nat),
    Failed(ErrorView),
}

/// The error of an event that the parent's session did not take.
pub open spec fn life_error(detail: Seq<char>) -> ErrorView {
    error(ErrorCode::Internal, "failed to append subagent lifecycle event: "@ + detail)
}

/// The events after the start of a subagent whose run came to `end`, as many as were handed
/// to the session.
pub open spec fn end_events(
    events: Seq<Handed>,
    t: TaskView,
    delivery: SubagentReportDelivery,
    end: RunEnd,
) -> bool {
    match end {
        RunEnd::Cancelled(reason) => {
            &&& 0 < events.len() <= 3
            &&& is_cancellation(events[0].event, t, reason)
            &&& events.len() > 1 ==> is_stopped(events[1].event, t, SubagentOutcome::Cancelled)
            &&& events.len() > 2 ==> is_result(
                events[2].event,
                t,
                OutcomeView::Failure { error: cancelled_error() },
            )
        },
        RunEnd::Succeeded(text, count) => {
            &&& 0 < events.len() <= 3
            &&& is_report(events[0].event, t, delivery, text)
            &&& events.len() > 1 ==> is_stopped(events[1].event, t, SubagentOutcome::Succeeded)
            &&& events.len() > 2 ==> is_result(
                events[2].event,
                t,
                report_outcome(t.id, text, count),
            )
        },
        RunEnd::Failed(e) => {
            &&& 0 < events.len() <= 2
            &&& is_stopped(events[0].event, t, SubagentOutcome::Failed)
            &&& events.len() > 1 ==> is_result(
                events[1].event,
                t,
                OutcomeView::Failure { error: e },
            )
        },
    }
}

/// The result for the parent of a run that came to `end` and is all on record.
pub open spec fn end_result(
    t: TaskView,
    end: RunEnd,
    r: Result<SubagentReport, ErrorEnvelope>,
) -> bool {
    match end {
        RunEnd::Cancelled(_) => r is Err && r->Err_0@ == cancelled_error(),
        RunEnd::Succeeded(text, count) => r is Ok && r->Ok_0.task_id@ == t.id && r->Ok_0.text@
            == text && r->Ok_0.child_event_count == count,
        RunEnd::Failed(e) => r is Err && r->Err_0@ == e,
    }
}

/// The events after the start of a subagent whose run came to `end`, and the result
/// for the parent. An event that the session does not take is the last one, and the result
/// is its error.
pub open spec fn ends_with(
    events: Seq<Handed>,
    t: TaskView,
    delivery: SubagentReportDelivery,
    end: RunEnd,
    r: Result<SubagentReport, ErrorEnvelope>,
) -> bool {
    &&& taken_so_far(events)
    &&& end_events(events, t, delivery, end)
    &&& match last_refusal(events) {
        Some(detail) => r is Err && r->Err_0@ == life_error(detail),
        None => {
            &&& events.len() == (if end is Failed {
                2int
            } else {
                3int
            })
            &&& end_result(t, end, r)
        },
    }
}

/// The events of a whole life: refused by the policy, or started and ended once. An event
/// that the session does not take is the last one, and the result is its error.
pub open spec fn life(
    events: Seq<Handed>,
    t: TaskView,
    q: RequestView,
    tools: Seq<Seq<char>>,
    parent: PolicyView,
    child: PolicyView,
    delivery: SubagentReportDelivery,
    end: RunEnd,
    r: Result<SubagentReport, ErrorEnvelope>,
) -> bool {
    &&& events.len() > 0
    &&& taken_so_far(events)
    &&& is_call(events[0].event, t, q, tools)
    &&& last_refusal(events) matches Some(detail) ==> r is Err && r->Err_0@ == life_error(detail)
    &&& match delegation_error(parent, child, q) {
        Some(e) => {
            &&& events.len() <= 2
            &&& events.len() == 2 ==> is_result(
                events[1].event,
                t,
                OutcomeView::Failure { error: e },
            )
            &&& last_refusal(events) is None ==> events.len() == 2 && r is Err && r->Err_0@ == e
        },
        None => {
            &&& events.len() >= 2 ==> is_started(events[1].event, t)
            &&& events.len() <= 2 ==> last_refusal(events) is Some
            &&& events.len() > 2 ==> ends_with(
                events.subrange(2, events.len() as int),
                t,
                delivery,
                end,
                r,
            )
        },
    }
}

/// The subagent of a life was run: its policies allowed it, and its start is on record.
pub open spec fn was_run(
    events: Seq<Handed>,
    parent: PolicyView,
    child: PolicyView,
    q: RequestView,
) -> bool {
    delegation_error(parent, child, q) is None && events.len() > 2
}

/// What the hooks of a stopped subagent are told of its run.
pub open spec fn stop_outcome(result: Result<SubagentReport, ErrorEnvelope>) -> OutcomeView {
    match result {
        Ok(report) => OutcomeView::Success {
            value: JsonView::Object(
                seq![
                    ("child_event_count"@, number(report.child_event_count as nat)),
                    ("task_id"@, JsonView::Text(report.task_id@)),
                ],
            ),
        },
        Err(e) => OutcomeView::Failure { error: e@ },
    }
}

pub(crate) fn stop_report(result: &Result<SubagentReport, ErrorEnvelope>) -> (r: ToolOutcome)
    ensures
        r@ == stop_outcome(*result),
{
    match result {
        Ok(report) => {
            let mut members: Vec<(String, Json)> = Vec::new();
            members.push(
                (
                    "child_event_count".to_string(),
                    Json::Number(decimal_of(report.child_event_count as u64)),
                ),
            );
            members.push(("task_id".to_string(), Json::Text(report.task_id.clone())));
            proof {
                lemma_object_view(members);
                assert(members_view(members@) =~= seq![
                    ("child_event_count"@, number(report.child_event_count as nat)),
                    ("task_id"@, JsonView::Text(report.task_id@)),
                ]);
            }
            ToolOutcome::Success { value: Json::Object(members) }
        },
        Err(e) => ToolOutcome::Failure { error: e.clone() },
    }
}

/// A life and the hooks after it: how it ended, what came of it, what it recorded, and
/// what the hooks recorded and why they refused.
pub struct HookedLife {
    pub end: RunEnd,
    pub result: Result<SubagentReport, ErrorEnvelope>,
    pub events: Seq<Handed>,
    pub after: Seq<Handed>,
    pub refused: Option<ErrorView>,
}

/// A whole life followed by the hooks of a stopped subagent: they may turn a success
/// into their error, and leave a failure as it is.
pub open spec fn is_hooked_life(
    run: HookedLife,
    hooks: HookRules,
    sequence: u64,
    t: TaskView,
    q: RequestView,
    tools: Seq<Seq<char>>,
    parent: PolicyView,
    child: PolicyView,
    delivery: SubagentReportDelivery,
    events: Seq<Handed>,
    r: Result<SubagentReport, ErrorEnvelope>,
) -> bool {
    &&& events == run.events + run.after
    &&& life(run.events, t, q, tools, parent, child, delivery, run.end, run.result)
    &&& ran_hooks(
        hooks,
        ContextView {
            point: HookPoint::SubagentStopped,
            turn_id: None,
            call_id: Some(t.id),
            tool: Some("subagent"@),
            detail: None,
            outcome: Some(stop_outcome(run.result)),
        },
        sequence,
        run.after,
        run.refused,
    )
    &&& match (run.result, run.refused) {
        (Ok(report), None) => r == Ok::<SubagentReport, ErrorEnvelope>(report),
        (Ok(report), Some(e)) => r is Err && r->Err_0@ == e,
        (Err(e), _) => r is Err && r->Err_0@ == e@,
    }
}

/// The reports that wait for the next step: that of a success joins them where it is
/// delivered so.
pub open spec fn reports_after(
    reports: Seq<Seq<char>>,
    delivery: SubagentReportDelivery,
    result: Result<SubagentReport, ErrorEnvelope>,
) -> Seq<Seq<char>> {
    match result {
        Ok(report) => if delivery == SubagentReportDelivery::NextStep {
            reports.push(report.text@)
        } else {
            reports
        },
        Err(_) => reports,
    }
}

fn append_parent_event<S: SessionStore>(parent: &mut S, event: Event) -> (r: Result<
    (),
    ErrorEnvelope,
>)
    ensures
        final(parent).intact() ==> old(parent).intact(),
        final(parent).intact() ==> r is Ok,
        r is Ok ==> final(parent).events() == old(parent).events().push(event),
        r is Err ==> final(parent).events() == old(parent).events(),
        final(parent).handed() == old(parent).handed().push(final(parent).handed().last()),
        final(parent).handed().last().event == event,
        match final(parent).handed().last().refused {
            None => r is Ok,
            Some(detail) => r is Err && r->Err_0@ == life_error(detail),
        },
{
    match parent.append(event) {
        Ok(_) => Ok(()),
        Err(e) => Err(
            ErrorEnvelope::new(
                ErrorCode::Internal,
                concat2("failed to append subagent lifecycle event: ", &e),
            ),
        ),
    }
}

/// A step of a life adds events and touches neither turns nor the budget.
proof fn lemma_inside_push(start: Seq<Event>, log: Seq<Event>, e: Event)
    requires
        steady(start, log),
        !crate::session::is_turn_event(e),
        !crate::usage::is_budget_event(e),
    ensures
        steady(start, log.push(e)),
        added(start, log.push(e)) == added(start, log).push(e),
        crate::session::open_calls(log.push(e)) == crate::session::call_step(
            crate::session::open_calls(log),
            e,
        ),
{
    lemma_kept_push(start, log, e);
    lemma_ledger_push(log, e);
}

/// Ends a started subagent: `reason` is the cancellation that is there after the
/// run, `result` what the run gave.
pub fn finish_run<S: SessionStore>(
    parent: &mut S,
    task: &SubagentTask,
    child_event_count: usize,
    result: Result<String, ErrorEnvelope>,
    reason: Option<String>,
    delivery: SubagentReportDelivery,
) -> (r: Result<SubagentReport, ErrorEnvelope>)
    ensures
        final(parent).intact() ==> old(parent).intact(),
        steady(old(parent).events(), final(parent).events()),
        r matches Ok(report) ==> report.task_id@ == task@.id,
        extends(old(parent).handed(), final(parent).handed()),
        ends_with(
            added(old(parent).handed(), final(parent).handed()),
            task@,
            delivery,
            run_end(result, reason, child_event_count),
            r,
        ),
{
    let ghost start = parent.events();
    let ghost start_h = parent.handed();
    proof {
        lemma_extends_refl(start);
        lemma_extends_refl(start_h);
    }
    match reason {
        Some(why) => {
            let event = Event::SubagentCancellationRequested {
                task_id: task.id().clone(),
                child_id: task.child_id().clone(),
                reason: why,
            };
            proof {
                lemma_inside_push(start, start, event);
            }
            let ghost log = parent.handed();
            let appended = append_parent_event(parent, event);
            proof {
                lemma_next_handed(start_h, log, parent.handed().last());
            }
            match appended {
                Ok(()) => {},
                Err(e) => {
                    return Err(e);
                },
            }
            let stopped = Event::SubagentStopped {
                task_id: task.id().clone(),
                child_id: task.child_id().clone(),
                outcome: SubagentOutcome::Cancelled,
            };
            proof {
                lemma_inside_push(start, parent.events(), stopped);
            }
            let ghost log = parent.handed();
            let appended = append_parent_event(parent, stopped);
            proof {
                lemma_next_handed(start_h, log, parent.handed().last());
            }
            match appended {
                Ok(()) => {},
                Err(e) => {
                    return Err(e);
                },
            }
            let e = ErrorEnvelope::of(
                ErrorCode::SubagentCancelled,
                "subagent cancelled by parent",
            );
            let answer = Event::ToolResultAdded {
                call_id: task.id().clone(),
                outcome: ToolOutcome::Failure { error: e.clone() },
            };
            proof {
                lemma_inside_push(start, parent.events(), answer);
            }
            let ghost log = parent.handed();
            let appended = append_parent_event(parent, answer);
            proof {
                lemma_next_handed(start_h, log, parent.handed().last());
            }
            match appended {
                Ok(()) => Err(e),
                Err(failure) => Err(failure),
            }
        },
        None => match result {
            Ok(text) => {
                let report = SubagentReport { task_id: task.id().clone(), text, child_event_count };
                let delivered = Event::SubagentReportDelivered {
                    task_id: task.id().clone(),
                    child_id: task.child_id().clone(),
                    delivery,
                    text: report.text.clone(),
                };
                proof {
                    lemma_inside_push(start, start, delivered);
                }
                let ghost log = parent.handed();
                let appended = append_parent_event(parent, delivered);
                proof {
                    lemma_next_handed(start_h, log, parent.handed().last());
                }
                match appended {
                    Ok(()) => {},
                    Err(e) => {
                        return Err(e);
                    },
                }
                let stopped = Event::SubagentStopped {
                    task_id: task.id().clone(),
                    child_id: task.child_id().clone(),
                    outcome: SubagentOutcome::Succeeded,
                };
                proof {
                    lemma_inside_push(start, parent.events(), stopped);
                }
                let ghost log = parent.handed();
                let appended = append_parent_event(parent, stopped);
                proof {
                    lemma_next_handed(start_h, log, parent.handed().last());
                }
                match appended {
                    Ok(()) => {},
                    Err(e) => {
                        return Err(e);
                    },
                }
                let answer = Event::ToolResultAdded {
                    call_id: task.id().clone(),
                    outcome: report_json(&report),
                };
                proof {
                    lemma_inside_push(start, parent.events(), answer);
                }
                let ghost log = parent.handed();
                let appended = append_parent_event(parent, answer);
                proof {
                    lemma_next_handed(start_h, log, parent.handed().last());
                }
                match appended {
                    Ok(()) => Ok(report),
                    Err(e) => Err(e),
                }
            },
            Err(e) => {
                let stopped = Event::SubagentStopped {
                    task_id: task.id().clone(),
                    child_id: task.child_id().clone(),
                    outcome: SubagentOutcome::Failed,
                };
                proof {
                    lemma_inside_push(start, start, stopped);
                }
                let ghost log = parent.handed();
                let appended = append_parent_event(parent, stopped);
                proof {
                    lemma_next_handed(start_h, log, parent.handed().last());
                }
                match appended {
                    Ok(()) => {},
                    Err(failure) => {
                        return Err(failure);
                    },
                }
                let answer = Event::ToolResultAdded {
                    call_id: task.id().clone(),
                    outcome: ToolOutcome::Failure { error: e.clone() },
                };
                proof {
                    lemma_inside_push(start, parent.events(), answer);
                }
                let ghost log = parent.handed();
                let appended = append_parent_event(parent, answer);
                proof {
                    lemma_next_handed(start_h, log, parent.handed().last());
                }
                match appended {
                    Ok(()) => Err(e),
                    Err(failure) => Err(failure),
                }
            },
        },
    }
}

/// A cancellation wins over whatever the run gave.
pub open spec fn run_end(
    result: Result<String, ErrorEnvelope>,
    reason: Option<String>,
    count: usize,
) -> RunEnd {
    match reason {
        Some(why) => RunEnd::Cancelled(why@),
        None => match result {
            Ok(text) => RunEnd::Succeeded(text@, count as nat),
            Err(e) => RunEnd::Failed(e@),
        },
    }
}

/// The runner was given the task with a trace that holds nothing yet, and left `count`
/// events in it.
pub open spec fn gave<R: SubagentRunner + ?Sized>(
    runner: &R,
    task: &SubagentTask,
    cancellation: &SubagentCancellation,
    count: nat,
    r: Result<String, ErrorEnvelope>,
) -> bool {
    exists|before: SubagentTrace, after: SubagentTrace| #[trigger]
        ran_task(runner, task, before, cancellation, after, r) && before@.len() == 0
            && after@.len() == count
}

/// A run came to `end`: the signal held a reason before it or after it, or it held none
/// and the runner gave what the run ended with.
pub open spec fn came_to<R: SubagentRunner + ?Sized>(
    runner: &R,
    task: &SubagentTask,
    cancellation: &SubagentCancellation,
    end: RunEnd,
) -> bool {
    match end {
        RunEnd::Cancelled(reason) => !blank(reason) && was_read(cancellation, Some(reason)),
        RunEnd::Succeeded(text, count) => was_read(cancellation, None) && exists|t: String|
            #[trigger]
            gave(runner, task, cancellation, count, Ok(t)) && t@ == text,
        RunEnd::Failed(error) => was_read(cancellation, None) && exists|
            count: nat,
            e: ErrorEnvelope,
        |
            #[trigger] gave(runner, task, cancellation, count, Err(e)) && e@ == error,
    }
}

/// The same, under a cancellation that the run has for itself.
pub open spec fn came_to_freely<R: SubagentRunner + ?Sized>(
    runner: &R,
    task: &SubagentTask,
    end: RunEnd,
) -> bool {
    exists|cancellation: SubagentCancellation| #[trigger]
        came_to(runner, task, &cancellation, end) && made_without_reason(&cancellation)
}

/// Runs a subagent and records its life. A delegation that the policies refuse is
/// never started, and a task that is cancelled already is never run.
pub fn run<S: SessionStore, R: SubagentRunner + ?Sized>(
    parent: &mut S,
    task: &SubagentTask,
    delegation: &SubagentDelegation,
    runner: &R,
) -> (r: Result<SubagentReport, ErrorEnvelope>)
    ensures
        final(parent).intact() ==> old(parent).intact(),
        step_ok(true, final(parent).intact(), old(parent).events(), final(parent).events()),
        delegation_error(
            delegation.parent_policy@,
            delegation.child_policy@,
            delegation.request@,
        ) is Some ==> r is Err,
        r matches Ok(report) ==> report.task_id@ == task@.id,
        extends(old(parent).handed(), final(parent).handed()),
        exists|end: RunEnd| #[trigger]
            life(
                added(old(parent).handed(), final(parent).handed()),
                task@,
                delegation.request@,
                delegation.request.tools_listed(),
                delegation.parent_policy@,
                delegation.child_policy@,
                delegation.delivery,
                end,
                r,
            ) && (was_run(
                added(old(parent).handed(), final(parent).handed()),
                delegation.parent_policy@,
                delegation.child_policy@,
                delegation.request@,
            ) ==> came_to(runner, task, delegation.cancellation, end)),
{
    let ghost start = parent.events();
    let ghost start_h = parent.handed();
    let ghost none = RunEnd::Cancelled(Seq::empty());
    proof {
        lemma_extends_refl(start);
        lemma_extends_refl(start_h);
        lemma_step_refl(true, parent.intact(), start);
    }
    let call = Event::ToolCallRequested {
        call_id: task.id().clone(),
        tool: "subagent".to_string(),
        args: call_arguments(task, delegation.request),
    };
    proof {
        lemma_inside_push(start, start, call);
    }
    let called = append_parent_event(parent, call);
    let ghost handed1 = parent.handed();
    proof {
        lemma_next_handed(start_h, start_h, handed1.last());
    }
    match called {
        Ok(()) => {},
        Err(e) => {
            assert(life(
                added(start_h, parent.handed()),
                task@,
                delegation.request@,
                delegation.request.tools_listed(),
                delegation.parent_policy@,
                delegation.child_policy@,
                delegation.delivery,
                none,
                Err(e),
            ));
            return Err(e);
        },
    }
    let ghost log1 = parent.events();
    match validate_delegation(
        delegation.parent_policy,
        delegation.child_policy,
        delegation.request,
    ) {
        Ok(()) => {},
        Err(e) => {
            let answer = Event::ToolResultAdded {
                call_id: task.id().clone(),
                outcome: ToolOutcome::Failure { error: e.clone() },
            };
            proof {
                lemma_inside_push(start, log1, answer);
                lemma_pair_kept(start, call, log1, answer);
            }
            let result: Result<SubagentReport, ErrorEnvelope> = match append_parent_event(
                parent,
                answer,
            ) {
                Ok(()) => Err(e),
                Err(failure) => Err(failure),
            };
            proof {
                lemma_next_handed(start_h, handed1, parent.handed().last());
            }
            assert(life(
                added(start_h, parent.handed()),
                task@,
                delegation.request@,
                delegation.request.tools_listed(),
                delegation.parent_policy@,
                delegation.child_policy@,
                delegation.delivery,
                none,
                result,
            ));
            return result;
        },
    }
    let started = Event::SubagentStarted {
        task_id: task.id().clone(),
        parent_id: task.parent_id().clone(),
        child_id: task.child_id().clone(),
    };
    proof {
        lemma_inside_push(start, log1, started);
    }
    let begun = append_parent_event(parent, started);
    let ghost handed2 = parent.handed();
    proof {
        lemma_next_handed(start_h, handed1, handed2.last());
    }
    match begun {
        Ok(()) => {},
        Err(e) => {
            assert(life(
                added(start_h, parent.handed()),
                task@,
                delegation.request@,
                delegation.request.tools_listed(),
                delegation.parent_policy@,
                delegation.child_policy@,
                delegation.delivery,
                none,
                Err(e),
            ));
            return Err(e);
        },
    }
    let ghost log2 = parent.events();
    let trace = SubagentTrace::default();
    let (count, given, reason): (usize, Result<String, ErrorEnvelope>, Option<String>) =
        match delegation.cancellation.reason() {
        Some(why) => (
            0,
            Err(ErrorEnvelope::of(ErrorCode::SubagentCancelled, "subagent cancelled by parent")),
            Some(why),
        ),
        None => {
            let ghost before = trace;
            let (after, given) = run_task(runner, task, trace, delegation.cancellation);
            let count: usize = after.len();
            assert(ran_task(runner, task, before, delegation.cancellation, after, given));
            assert(gave(runner, task, delegation.cancellation, count as nat, given));
            (count, given, delegation.cancellation.reason())
        },
    };
    let ghost end = run_end(given, reason, count);
    let result = finish_run(parent, task, count, given, reason, delegation.delivery);
    proof {
        let log3 = parent.events();
        lemma_kept_trans(start, log2, log3);
        let handed3 = parent.handed();
        lemma_extends_trans(start_h, handed2, handed3);
        let events = added(start_h, handed3);
        let tail = added(handed2, handed3);
        assert(events =~= added(start_h, handed2) + tail);
        assert(events.subrange(2, events.len() as int) =~= tail);
        assert forall|i: int| 0 <= i < events.len() - 1 implies (
        #[trigger] events[i]).refused is None by {
            if i >= 2 {
                assert(events[i] == tail[i - 2]);
            } else {
                assert(events[i] == added(start_h, handed2)[i]);
            }
        }
        assert(life(
            events,
            task@,
            delegation.request@,
            delegation.request.tools_listed(),
            delegation.parent_policy@,
            delegation.child_policy@,
            delegation.delivery,
            end,
            result,
        ));
        if parent.intact() {
            assert forall|i: int| 0 <= i < tail.len() implies (#[trigger] tail[i]).refused is None by {
                assert(tail[i] == handed3[handed2.len() + i]);
            }
            lemma_taken_extends(handed2, handed3);
            lemma_taken_of(tail);
            lemma_ended_call(
                start,
                log2,
                log3,
                tail,
                call,
                task@,
                delegation.delivery,
                end,
                result,
            );
        }
    }
    result
}

proof fn lemma_ended_call(
    start: Seq<Event>,
    log2: Seq<Event>,
    log3: Seq<Event>,
    ended: Seq<Handed>,
    call: Event,
    t: TaskView,
    delivery: SubagentReportDelivery,
    end: RunEnd,
    r: Result<SubagentReport, ErrorEnvelope>,
)
    requires
        kept(log2, log3),
        log2 == start.push(call).push(log2.last()),
        log2.last() is SubagentStarted,
        call matches Event::ToolCallRequested { call_id, .. } && call_id@ == t.id,
        added(log2, log3) == offered(ended),
        all_taken(ended),
        ends_with(ended, t, delivery, end, r),
    ensures
        calls_kept(start, log3),
{
    let tail = added(log2, log3);
    let n = tail.len() as int;
    let answer = tail[n - 1];
    assert(ended[n - 1].refused is None);
    let before = log3.drop_last();
    assert(log3 =~= log2 + tail) by {
        assert(log3.subrange(0, log2.len() as int) =~= log2);
    }
    assert(before.push(answer) =~= log3);
    assert(crate::session::open_calls(before) == crate::session::open_calls(start.push(call))) by {
        crate::session::lemma_open_calls_push(start.push(call), log2.last());
        crate::session::lemma_open_calls_push(log2, tail[0]);
        if n == 3 {
            assert(before =~= log2.push(tail[0]).push(tail[1]));
            crate::session::lemma_open_calls_push(log2.push(tail[0]), tail[1]);
        } else {
            assert(before =~= log2.push(tail[0]));
        }
    }
    lemma_pair_kept(start, call, before, answer);
}

// ---------------------------------------------------------------------------
// Laws
// ---------------------------------------------------------------------------

pub open spec fn starts_in(events: Seq<Event>) -> nat
    decreases events.len(),
{
    if events.len() == 0 {
        0
    } else {
        starts_in(events.drop_last()) + (if events.last() is SubagentStarted {
            1nat
        } else {
            0nat
        })
    }
}

pub open spec fn stops_in(events: Seq<Event>) -> nat
    decreases events.len(),
{
    if events.len() == 0 {
        0
    } else {
        stops_in(events.drop_last()) + (if events.last() is SubagentStopped {
            1nat
        } else {
            0nat
        })
    }
}

/// Every start has exactly one stop: a life that is all on record holds one of each, or
/// none of either where the policy refused it.
pub proof fn every_start_has_one_stop(
    events: Seq<Handed>,
    t: TaskView,
    q: RequestView,
    tools: Seq<Seq<char>>,
    parent: PolicyView,
    child: PolicyView,
    delivery: SubagentReportDelivery,
    end: RunEnd,
    r: Result<SubagentReport, ErrorEnvelope>,
)
    requires
        life(events, t, q, tools, parent, child, delivery, end, r),
        all_taken(events),
    ensures
        starts_in(taken(events)) == stops_in(taken(events)),
        starts_in(taken(events)) == (if delegation_error(parent, child, q) is None {
            1nat
        } else {
            0nat
        }),
{
    reveal_with_fuel(starts_in, 6);
    reveal_with_fuel(stops_in, 6);
    let n = events.len() as int;
    lemma_taken_of(events);
    let records = offered(events);
    assert(events[n - 1].refused is None);
    assert(records[0] == events[0].event);
    assert(records[n - 1] == events[n - 1].event);
    if delegation_error(parent, child, q) is None {
        let tail = events.subrange(2, n);
        assert(tail.last() == events[n - 1]);
        assert(records[1] == events[1].event);
        assert(tail[0] == events[2] && records[2] == events[2].event);
        assert(tail[1] == events[3] && records[3] == events[3].event);
        if tail.len() == 3 {
            assert(tail[2] == events[4] && records[4] == events[4].event);
        }
    }
}

/// A report counts only where the whole life is on record: the call, the start, the report,
/// the stop and the result.
pub proof fn a_report_is_all_on_record(
    events: Seq<Handed>,
    t: TaskView,
    q: RequestView,
    tools: Seq<Seq<char>>,
    parent: PolicyView,
    child: PolicyView,
    delivery: SubagentReportDelivery,
    end: RunEnd,
    r: Result<SubagentReport, ErrorEnvelope>,
)
    requires
        life(events, t, q, tools, parent, child, delivery, end, r),
        r is Ok,
    ensures
        all_taken(events),
        events.len() == 5,
        end == RunEnd::Succeeded(r->Ok_0.text@, r->Ok_0.child_event_count as nat),
        is_report(events[2].event, t, delivery, r->Ok_0.text@),
        is_result(
            events[4].event,
            t,
            report_outcome(t.id, r->Ok_0.text@, r->Ok_0.child_event_count as nat),
        ),
{
    let n = events.len() as int;
    let tail = events.subrange(2, n);
    assert(tail.last() == events[n - 1]);
    assert(tail[0] == events[2]);
    if n > 4 {
        assert(tail[2] == events[4]);
    }
    assert forall|i: int| 0 <= i < n implies (#[trigger] events[i]).refused is None by {
        if i == n - 1 {
            assert(events[i] == events.last());
        }
    }
}

/// Reasons do not replace each other: after any number of them, a signal holds the
/// first.
pub proof fn first_reason_wins(first: Seq<char>, later: Seq<char>)
    ensures
        kept_reason(kept_reason(None, first), later) == Some(first),
{
}

/// A call for a child says everything that it was asked: the task, who asks whom, the budgets,
/// the model and the tools.
pub proof fn a_call_says_what_was_asked(t: TaskView, q: RequestView, tools: Seq<Seq<char>>, i: int)
    ensures
        ({
            let said = call_args(t, q, tools);
            &&& member_of(said, "prompt"@) == Some(JsonView::Text(t.prompt))
            &&& member_of(said, "parent_id"@) == Some(JsonView::Text(t.parent_id))
            &&& member_of(said, "child_id"@) == Some(JsonView::Text(t.child_id))
            &&& member_of(said, "model"@) == Some(
                match q.model {
                    Some(m) => JsonView::Text(m),
                    None => JsonView::Null,
                },
            )
            &&& member_of(said, "depth"@) is Some && uint_of(member_of(said, "depth"@)->0) == Some(
                q.depth as nat,
            )
            &&& member_of(said, "active_children"@) is Some && uint_of(
                member_of(said, "active_children"@)->0,
            ) == Some(q.active_children as nat)
            &&& member_of(said, "token_budget"@) is Some && uint_of(
                member_of(said, "token_budget"@)->0,
            ) == Some(q.token_budget as nat)
            &&& member_of(said, "turn_budget"@) is Some && uint_of(
                member_of(said, "turn_budget"@)->0,
            ) == Some(q.turn_budget as nat)
            &&& member_of(said, "tools"@) matches Some(JsonView::Array(listed)) && listed.len()
                == tools.len() && (0 <= i < tools.len() ==> listed[i] == JsonView::Text(tools[i]))
        }),
{
    reveal_strlit("active_children");
    reveal_strlit("child_id");
    reveal_strlit("depth");
    reveal_strlit("model");
    reveal_strlit("parent_id");
    reveal_strlit("prompt");
    reveal_strlit("token_budget");
    reveal_strlit("tools");
    reveal_strlit("turn_budget");
    assert("active_children"@.len() == 15);
    assert("child_id"@.len() == 8);
    assert("depth"@.len() == 5);
    assert("model"@.len() == 5);
    assert("parent_id"@.len() == 9);
    assert("prompt"@.len() == 6);
    assert("token_budget"@.len() == 12);
    assert("tools"@.len() == 5);
    assert("turn_budget"@.len() == 11);
    assert("depth"@[0] != "model"@[0]);
    assert("depth"@[0] != "tools"@[0]);
    assert("model"@[0] != "tools"@[0]);
    let members = call_args(t, q, tools)->Object_0;
    lemma_member_at(members, 0);
    lemma_member_at(members, 1);
    lemma_member_at(members, 2);
    lemma_member_at(members, 3);
    lemma_member_at(members, 4);
    lemma_member_at(members, 5);
    lemma_member_at(members, 6);
    lemma_member_at(members, 7);
    lemma_member_at(members, 8);
    a_written_number_is_read_back(q.active_children as nat);
    a_written_number_is_read_back(q.depth as nat);
    a_written_number_is_read_back(q.token_budget as nat);
    a_written_number_is_read_back(q.turn_budget as nat);
}

/// A report says the task, the whole text and how many events the child has.
pub proof fn a_report_says_everything(task_id: Seq<char>, text: Seq<char>, count: nat)
    requires
        count <= u64::MAX,
    ensures
        ({
            let o = report_outcome(task_id, text, count);
            &&& o is Success
            &&& member_of(o->value, "kind"@) == Some(JsonView::Text("subagent_report"@))
            &&& member_of(o->value, "task_id"@) == Some(JsonView::Text(task_id))
            &&& member_of(o->value, "text"@) == Some(JsonView::Text(text))
            &&& member_of(o->value, "child_event_count"@) is Some
            &&& uint_of(member_of(o->value, "child_event_count"@)->0) == Some(count)
        }),
{
    reveal_strlit("child_event_count");
    reveal_strlit("kind");
    reveal_strlit("task_id");
    reveal_strlit("text");
    assert("child_event_count"@.len() == 17);
    assert("kind"@.len() == 4);
    assert("task_id"@.len() == 7);
    assert("text"@.len() == 4);
    assert("kind"@[0] != "text"@[0]);
    let members = report_outcome(task_id, text, count)->value->Object_0;
    lemma_member_at(members, 0);
    lemma_member_at(members, 1);
    lemma_member_at(members, 2);
    lemma_member_at(members, 3);
    a_written_number_is_read_back(count);
}

/// What the hooks behind a child are told: the task and how many events the child has, or the
/// error.
pub proof fn what_a_stop_says(report: SubagentReport, e: ErrorEnvelope)
    ensures
        ({
            let o = stop_outcome(Ok(report));
            &&& o is Success
            &&& member_of(o->value, "task_id"@) == Some(JsonView::Text(report.task_id@))
            &&& member_of(o->value, "child_event_count"@) is Some
            &&& uint_of(member_of(o->value, "child_event_count"@)->0) == Some(
                report.child_event_count as nat,
            )
        }),
        stop_outcome(Err(e)) == (OutcomeView::Failure { error: e@ }),
{
    reveal_strlit("child_event_count");
    reveal_strlit("task_id");
    assert("child_event_count"@.len() == 17);
    assert("task_id"@.len() == 7);
    let members = stop_outcome(Ok(report))->value->Object_0;
    lemma_member_at(members, 0);
    lemma_member_at(members, 1);
    a_written_number_is_read_back(report.child_event_count as nat);
}

/// How a run ends: a reason to stop counts before anything the child said; otherwise its text
/// is a success and its error a failure.
pub proof fn how_a_run_ends(
    result: Result<String, ErrorEnvelope>,
    reason: Option<String>,
    count: usize,
)
    ensures
        reason is Some ==> run_end(result, reason, count) == RunEnd::Cancelled(reason->0@),
        reason is None && result is Ok ==> run_end(result, reason, count) == RunEnd::Succeeded(
            result->Ok_0@,
            count as nat,
        ),
        reason is None && result is Err ==> run_end(result, reason, count) == RunEnd::Failed(
            result->Err_0@,
        ),
{
}

/// What is returned of a run whose records were all taken: the report, with the text and the
/// number of events, the error, or that it was cancelled.
pub proof fn what_is_returned_of_a_run(
    events: Seq<Handed>,
    t: TaskView,
    delivery: SubagentReportDelivery,
    end: RunEnd,
    r: Result<SubagentReport, ErrorEnvelope>,
)
    requires
        ends_with(events, t, delivery, end, r),
        last_refusal(events) is None,
    ensures
        end matches RunEnd::Succeeded(text, count) ==> {
            &&& r is Ok && r->Ok_0.text@ == text && r->Ok_0.task_id@ == t.id
            &&& r->Ok_0.child_event_count == count
            &&& events.len() == 3
            &&& events[0].event is SubagentReportDelivered
            &&& events[0].event->SubagentReportDelivered_text@ == text
            &&& events[0].event->delivery == delivery
            &&& events[1].event is SubagentStopped
            &&& events[1].event->SubagentStopped_outcome == SubagentOutcome::Succeeded
        },
        end matches RunEnd::Failed(e) ==> {
            &&& r is Err && r->Err_0@ == e
            &&& events.len() == 2
            &&& events[0].event is SubagentStopped
            &&& events[0].event->SubagentStopped_outcome == SubagentOutcome::Failed
        },
        end matches RunEnd::Cancelled(reason) ==> {
            &&& r is Err && r->Err_0@.code == ErrorCode::SubagentCancelled
            &&& events.len() == 3
            &&& events[0].event is SubagentCancellationRequested
            &&& events[0].event->SubagentCancellationRequested_reason@ == reason
            &&& events[1].event is SubagentStopped
            &&& events[1].event->SubagentStopped_outcome == SubagentOutcome::Cancelled
        },
        events.last().event is ToolResultAdded,
        events.last().event->ToolResultAdded_call_id@ == t.id,
{
}

/// A child begins with the call and its start, under the names of the task; one that may not
/// be delegated is answered at once with the error.
pub proof fn how_a_child_begins(
    events: Seq<Handed>,
    t: TaskView,
    q: RequestView,
    tools: Seq<Seq<char>>,
    parent: PolicyView,
    child: PolicyView,
    delivery: SubagentReportDelivery,
    end: RunEnd,
    r: Result<SubagentReport, ErrorEnvelope>,
)
    requires
        life(events, t, q, tools, parent, child, delivery, end, r),
        last_refusal(events) is None,
    ensures
        events[0].event is ToolCallRequested,
        events[0].event->ToolCallRequested_call_id@ == t.id,
        events[0].event->ToolCallRequested_tool@ == "subagent"@,
        events[0].event->args@ == call_args(t, q, tools),
        delegation_error(parent, child, q) is None ==> {
            &&& events.len() > 2
            &&& events[1].event is SubagentStarted
            &&& events[1].event->SubagentStarted_task_id@ == t.id
            &&& events[1].event->SubagentStarted_parent_id@ == t.parent_id
            &&& events[1].event->SubagentStarted_child_id@ == t.child_id
        },
        delegation_error(parent, child, q) is Some ==> {
            &&& events.len() == 2
            &&& r is Err && r->Err_0@ == delegation_error(parent, child, q)->0
            &&& events[1].event is ToolResultAdded
            &&& events[1].event->ToolResultAdded_outcome@ == (OutcomeView::Failure {
                error: delegation_error(parent, child, q)->0,
            })
        },
{
}

/// A report goes to the next step where it is to be delivered there, and nowhere else.
pub proof fn where_a_report_goes(
    reports: Seq<Seq<char>>,
    delivery: SubagentReportDelivery,
    result: Result<SubagentReport, ErrorEnvelope>,
)
    ensures
        result is Ok && delivery == SubagentReportDelivery::NextStep ==> reports_after(
            reports,
            delivery,
            result,
        ) == reports.push(result->Ok_0.text@),
        result is Err || delivery != SubagentReportDelivery::NextStep ==> reports_after(
            reports,
            delivery,
            result,
        ) == reports,
{
}

/// What is returned behind the hooks: the report, where no hook refused it; the error of the
/// run counts before that of a hook.
pub proof fn what_is_returned_behind_the_hooks(
    run: HookedLife,
    hooks: HookRules,
    sequence: u64,
    t: TaskView,
    q: RequestView,
    tools: Seq<Seq<char>>,
    parent: PolicyView,
    child: PolicyView,
    delivery: SubagentReportDelivery,
    events: Seq<Handed>,
    r: Result<SubagentReport, ErrorEnvelope>,
)
    requires
        is_hooked_life(
            run,
            hooks,
            sequence,
            t,
            q,
            tools,
            parent,
            child,
            delivery,
            events,
            r,
        ),
    ensures
        r is Ok <==> run.result is Ok && run.refused is None,
        r is Ok ==> r->Ok_0 == run.result->Ok_0,
        run.result is Err ==> r->Err_0@ == run.result->Err_0@,
        run.result is Ok && run.refused is Some ==> r->Err_0@ == run.refused->0,
        events.len() == run.events.len() + run.after.len(),
{
}

/// What a run came to: a reason that was read stops it; otherwise none was, and the text or the
/// error is the runner's own, on a record that was empty.
pub proof fn what_a_run_came_to<R: SubagentRunner + ?Sized>(
    runner: &R,
    task: &SubagentTask,
    cancellation: &SubagentCancellation,
    end: RunEnd,
)
    requires
        came_to(runner, task, cancellation, end),
    ensures
        end matches RunEnd::Cancelled(reason) ==> !blank(reason) && was_read(
            cancellation,
            Some(reason),
        ),
        !(end is Cancelled) ==> was_read(cancellation, None),
        end matches RunEnd::Succeeded(text, count) ==> exists|t: String| #[trigger]
            gave(runner, task, cancellation, count, Ok(t)) && t@ == text,
        end matches RunEnd::Failed(e) ==> exists|count: nat, failure: ErrorEnvelope| #[trigger]
            gave(runner, task, cancellation, count, Err(failure)) && failure@ == e,
{
}

/// The first reason counts, and a later one does not take its place.
pub proof fn which_reason_counts(held: Option<Seq<char>>, reason: Seq<char>)
    ensures
        held is None ==> kept_reason(held, reason) == Some(reason),
        held is Some ==> kept_reason(held, reason) == held,
        blank_reason_error().code == ErrorCode::ToolArgsInvalid,
{
}

} // verus!
