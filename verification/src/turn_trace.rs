//! What a turn writes to the session, event by event, given what the model, the tools
//! and the hooks did.
use vstd::prelude::*;
use crate::chat_turn::{
    executed, not_executed, outcome_message, queued_texts, recorded_args, rounds_error,
    settled_outcome, unknown_tool, user_messages,
};
use crate::hooks::{bumped, ran_hooks, rounds_in, ContextView, HookPoint, HookRules};
use crate::json::{json_text, JsonView};
use crate::loop_guard::{counted, loop_verdict, LoopGuard, TrackerView};
use crate::model_provider::{calls_message, calls_view, plain_message, CallView, ChatReply, MessageView};
use crate::protocol::{
    error, outcome_json, ErrorCode, ErrorEnvelope, ErrorView, Event, ModelToolCall, OutcomeView,
    TokenUsageSource,
};
use crate::result_guard::{
    answered_on, guarded_outcome, ToolResultDecision, ToolResultMiddleware,
};
use crate::sampling::{a_reply_is_what_the_model_gave, is_sampling, ModelRules, Sampling};
use crate::session::{added, extends, taken, took, Handed};
use crate::text::{decimal, views};
use crate::token_meter::estimated;
use crate::tools::{says_plugin, ToolAudit, ToolDispatcher, ToolExecution};
use crate::usage::{lost, sample_error, usage_error};
use crate::usage_id::{plain_usage_id, usage_id_of};

verus! {

broadcast use vstd::string::group_string_axioms;

// ---------------------------------------------------------------------------
// Events by what they say
// ---------------------------------------------------------------------------

/// What an event of a turn says.
pub enum Mark {
    Said { text: Seq<char> },
    Used { usage_id: Seq<char>, path: Seq<Seq<char>>, total: int, source: TokenUsageSource },
    Chunk { call_id: Seq<char>, text: Seq<char> },
    Answered { text: Seq<char> },
    Batch { request_id: Seq<char>, calls: Seq<CallView> },
    Requested { call_id: Seq<char>, tool: Seq<char>, args: JsonView },
    Returned { call_id: Seq<char>, outcome: OutcomeView },
    Decided { call_id: Seq<char>, approved: bool },
    Remembered { memory_id: Seq<char>, text: Seq<char>, tags: Seq<Seq<char>> },
    Else { event: Event },
}

pub open spec fn batch_view(calls: Seq<ModelToolCall>) -> Seq<CallView> {
    calls.map_values(
        |c: ModelToolCall| CallView { id: c.id@, name: c.name@, arguments: c.arguments@ },
    )
}

pub open spec fn mark(e: Event) -> Mark {
    match e {
        Event::UserMessage { text } => Mark::Said { text: text@ },
        Event::TokenUsageRecorded { usage_id, agent_path, total_tokens, source } => Mark::Used {
            usage_id: usage_id@,
            path: views(agent_path@),
            total: total_tokens as int,
            source,
        },
        Event::ModelChunkReceived { call_id, delta_text } => Mark::Chunk {
            call_id: call_id@,
            text: delta_text@,
        },
        Event::AssistantMessage { text } => Mark::Answered { text: text@ },
        Event::ModelToolCallsRequested { request_id, calls } => Mark::Batch {
            request_id: request_id@,
            calls: batch_view(calls@),
        },
        Event::ToolCallRequested { call_id, tool, args } => Mark::Requested {
            call_id: call_id@,
            tool: tool@,
            args: args@,
        },
        Event::ToolResultAdded { call_id, outcome } => Mark::Returned {
            call_id: call_id@,
            outcome: outcome@,
        },
        Event::ApprovalDecided { call_id, approved, authorization: None } => Mark::Decided {
            call_id: call_id@,
            approved,
        },
        Event::MemoryRecorded { memory_id, text, tags } => Mark::Remembered {
            memory_id: memory_id@,
            text: text@,
            tags: views(tags@),
        },
        _ => Mark::Else { event: e },
    }
}

/// What the events say that were handed to a session.
pub open spec fn marks(events: Seq<Handed>) -> Seq<Mark> {
    events.map_values(|h: Handed| mark(h.event))
}

/// What was handed to a session after `before` says `said`.
pub open spec fn wrote(before: Seq<Handed>, after: Seq<Handed>, said: Seq<Mark>) -> bool {
    extends(before, after) && marks(added(before, after)) == said
}

pub proof fn lemma_wrote_nothing(log: Seq<Handed>)
    ensures
        wrote(log, log, Seq::empty()),
{
    assert(log.subrange(0, log.len() as int) =~= log);
    assert(marks(added(log, log)) =~= Seq::<Mark>::empty());
}

pub proof fn lemma_wrote_push(start: Seq<Handed>, log: Seq<Handed>, said: Seq<Mark>, next: Handed)
    requires
        wrote(start, log, said),
    ensures
        wrote(start, log.push(next), said.push(mark(next.event))),
{
    crate::session::lemma_extends_push(start, log, next);
    assert(marks(added(start, log).push(next)) =~= marks(added(start, log)).push(
        mark(next.event),
    ));
}

pub proof fn lemma_wrote_both(
    a: Seq<Handed>,
    b: Seq<Handed>,
    c: Seq<Handed>,
    first: Seq<Mark>,
    second: Seq<Mark>,
)
    requires
        wrote(a, b, first),
        wrote(b, c, second),
    ensures
        wrote(a, c, first + second),
{
    crate::session::lemma_extends_trans(a, b, c);
    assert(marks(added(a, c)) =~= marks(added(a, b)) + marks(added(b, c)));
}

// ---------------------------------------------------------------------------
// One tool call
// ---------------------------------------------------------------------------

/// What a call came to: how the tool ran, if it was run at all, and the outcome that
/// is recorded and shown to the model.
pub struct ToolRun {
    /// The record of the hooks before the run, and why they refused it.
    pub before: Seq<Handed>,
    pub denied: Option<ErrorView>,
    pub execution: Option<Option<ToolExecution>>,
    pub shown: OutcomeView,
    /// The record of the hooks after the run, and why they refused to go on.
    pub after: Seq<Handed>,
    pub stopped: Option<ErrorView>,
}

/// Why the loop does not go on after a run.
pub open spec fn run_failure(run: ToolRun) -> Option<ErrorView> {
    match run.denied {
        Some(e) => Some(e),
        None => run.stopped,
    }
}

/// What the hooks of a call are told.
pub open spec fn tool_context(
    point: HookPoint,
    turn_id: u64,
    call: CallView,
    outcome: Option<OutcomeView>,
) -> ContextView {
    ContextView {
        point,
        turn_id: Some(turn_id),
        call_id: Some(call.id),
        tool: Some(call.name),
        detail: None,
        outcome,
    }
}

/// What the hooks of a turn are told.
pub open spec fn turn_context(
    point: HookPoint,
    turn_id: u64,
    detail: Option<Seq<char>>,
) -> ContextView {
    ContextView {
        point,
        turn_id: Some(turn_id),
        call_id: None,
        tool: None,
        detail,
        outcome: None,
    }
}

/// Whether `shown` is what becomes of `outcome`, as the middleware decided on it.
pub open spec fn passes_as<D: ToolDispatcher + ?Sized>(
    middleware: Option<&dyn ToolResultMiddleware>,
    tools: &D,
    call: CallView,
    outcome: OutcomeView,
    shown: OutcomeView,
) -> bool {
    exists|answer: Option<Result<ToolResultDecision, ErrorEnvelope>>, plugin: bool|
        answered_on(middleware, call.id, call.name, outcome, answer) && says_plugin(
            tools,
            call.name,
            plugin,
        ) && shown == #[trigger] guarded_outcome(answer, plugin, call.name, outcome)
}

/// What the outcome of a call is shown as.
pub open spec fn passes_of<D: ToolDispatcher + ?Sized>(
    middleware: Option<&dyn ToolResultMiddleware>,
    tools: &D,
) -> spec_fn(CallView, OutcomeView, OutcomeView) -> bool {
    |call: CallView, outcome: OutcomeView, shown: OutcomeView|
        passes_as(middleware, tools, call, outcome, shown)
}

/// A run as the call, the guards and the tool make it. A call that is settled
/// beforehand runs no tool.
pub open spec fn tool_fits(rules: TurnRules, call: CallView, count: int, run: ToolRun) -> bool {
    match settled_outcome(call, rules.guard, count) {
        Some(known) => run.execution is None && run.shown == known,
        None => match run.execution {
            None => false,
            Some(ran) => {
                &&& (rules.runs)(call.name, recorded_args(call.arguments), ran)
                &&& match ran {
                    None => run.shown == unknown_tool(call.name),
                    Some(x) => (rules.passes)(
                        call,
                        executed(call.name, ran, loop_verdict(rules.guard, count), count),
                        run.shown,
                    ),
                }
            },
        },
    }
}

/// A run with its hooks. `sequence` is the number of the first run of a hook. Where the
/// hooks refuse the call, no tool is run, and their error is the result.
#[verifier::opaque]
pub open spec fn run_fits(
    rules: TurnRules,
    call: CallView,
    count: int,
    sequence: u64,
    run: ToolRun,
) -> bool {
    &&& ran_hooks(
        rules.hooks,
        tool_context(HookPoint::PreToolUse, rules.turn_id, call, None),
        sequence,
        run.before,
        run.denied,
    )
    &&& match run.denied {
        Some(e) => {
            &&& run.execution is None
            &&& run.shown == (OutcomeView::Failure { error: e })
            &&& run.after.len() == 0
            &&& run.stopped is None
        },
        None => {
            &&& tool_fits(rules, call, count, run)
            &&& ran_hooks(
                rules.hooks,
                tool_context(HookPoint::PostToolUse, rules.turn_id, call, Some(run.shown)),
                bumped(sequence, rounds_in(run.before)),
                run.after,
                run.stopped,
            )
        },
    }
}

/// The number of the next run of a hook after a call.
pub open spec fn next_sequence(sequence: u64, run: ToolRun) -> u64 {
    bumped(bumped(sequence, rounds_in(run.before)), rounds_in(run.after))
}

/// What one audit of a run leaves in the session.
pub open spec fn audit_mark(call_id: Seq<char>, audit: ToolAudit, i: int) -> Mark {
    match audit {
        ToolAudit::ApprovalDecided { approved } => Mark::Decided { call_id, approved },
        ToolAudit::MemoryRecorded { text, tags, .. } => Mark::Remembered {
            memory_id: call_id + "-memory-"@ + decimal(i as nat),
            text: text@,
            tags: views(tags@),
        },
    }
}

pub open spec fn audit_marks(call_id: Seq<char>, audits: Seq<ToolAudit>) -> Seq<Mark> {
    Seq::new(audits.len(), |i: int| audit_mark(call_id, audits[i], i))
}

pub open spec fn audits_of(run: ToolRun) -> Seq<ToolAudit> {
    match run.execution {
        Some(Some(x)) => x.audits@,
        _ => Seq::empty(),
    }
}

/// A call in the session: the request, what its run left, and the result, with what the
/// hooks left before and after it.
pub open spec fn call_marks(call: CallView, run: ToolRun) -> Seq<Mark> {
    seq![
        Mark::Requested {
            call_id: call.id,
            tool: call.name,
            args: recorded_args(call.arguments),
        },
    ] + marks(run.before) + audit_marks(call.id, audits_of(run)) + seq![
        Mark::Returned { call_id: call.id, outcome: run.shown },
    ] + marks(run.after)
}

// ---------------------------------------------------------------------------
// The calls of one reply
// ---------------------------------------------------------------------------

/// The repetitions after the first `n` calls.
pub open spec fn tracker_after(t: TrackerView, calls: Seq<CallView>, n: nat) -> TrackerView
    decreases n,
{
    if n == 0 {
        t
    } else {
        let call = calls[n - 1];
        counted(
            tracker_after(t, calls, (n - 1) as nat),
            call.name,
            json_text(recorded_args(call.arguments)),
        )
    }
}

/// The number of the next run of a hook after the first `n` runs.
pub open spec fn sequence_after(sequence: u64, runs: Seq<ToolRun>, n: nat) -> u64
    decreases n,
{
    if n == 0 {
        sequence
    } else {
        next_sequence(sequence_after(sequence, runs, (n - 1) as nat), runs[n - 1])
    }
}

/// The first runs fit their calls, each with the repetitions that came before it. Every
/// one but the last let the loop go on.
#[verifier::opaque]
pub open spec fn runs_fit(
    rules: TurnRules,
    calls: Seq<CallView>,
    t: TrackerView,
    sequence: u64,
    runs: Seq<ToolRun>,
) -> bool {
    &&& runs.len() <= calls.len()
    &&& forall|i: int|
        0 <= i < runs.len() ==> run_fits(
            rules,
            calls[i],
            tracker_after(t, calls, (i + 1) as nat).count as int,
            sequence_after(sequence, runs, i as nat),
            #[trigger] runs[i],
        )
    &&& forall|i: int| 0 <= i < runs.len() - 1 ==> run_failure(#[trigger] runs[i]) is None
}

/// Every run let the loop go on.
pub open spec fn all_passed(runs: Seq<ToolRun>) -> bool {
    forall|i: int| 0 <= i < runs.len() ==> run_failure(#[trigger] runs[i]) is None
}

pub proof fn lemma_sequence_prefix(
    sequence: u64,
    runs: Seq<ToolRun>,
    more: Seq<ToolRun>,
    n: nat,
)
    requires
        n <= runs.len() <= more.len(),
        forall|i: int| 0 <= i < runs.len() ==> more[i] == #[trigger] runs[i],
    ensures
        sequence_after(sequence, more, n) == sequence_after(sequence, runs, n),
    decreases n,
{
    if n > 0 {
        lemma_sequence_prefix(sequence, runs, more, (n - 1) as nat);
        assert(more[n - 1] == runs[n - 1]);
    }
}

/// No runs fit any calls.
pub proof fn lemma_no_runs(
    rules: TurnRules,
    calls: Seq<CallView>,
    t: TrackerView,
    sequence: u64,
)
    ensures
        runs_fit(rules, calls, t, sequence, Seq::empty()),
{
    reveal(runs_fit);
}

/// One more run fits.
pub proof fn lemma_next_run(
    rules: TurnRules,
    calls: Seq<CallView>,
    t: TrackerView,
    sequence: u64,
    runs: Seq<ToolRun>,
    run: ToolRun,
)
    requires
        runs_fit(rules, calls, t, sequence, runs),
        all_passed(runs),
        runs.len() < calls.len(),
        run_fits(
            rules,
            calls[runs.len() as int],
            tracker_after(t, calls, (runs.len() + 1) as nat).count as int,
            sequence_after(sequence, runs, runs.len()),
            run,
        ),
    ensures
        runs_fit(rules, calls, t, sequence, runs.push(run)),
        run_failure(run) is None ==> all_passed(runs.push(run)),
        sequence_after(sequence, runs.push(run), runs.len() + 1) == next_sequence(
            sequence_after(sequence, runs, runs.len()),
            run,
        ),
        runs_marks(calls, runs.push(run)) == runs_marks(calls, runs) + call_marks(
            calls[runs.len() as int],
            run,
        ),
        runs_messages(calls, runs.push(run)) == runs_messages(calls, runs).push(
            outcome_message(calls[runs.len() as int].id, run.shown),
        ),
{
    reveal(runs_fit);
    let more = runs.push(run);
    assert forall|i: int| 0 <= i < more.len() implies run_fits(
        rules,
        calls[i],
        tracker_after(t, calls, (i + 1) as nat).count as int,
        sequence_after(sequence, more, i as nat),
        #[trigger] more[i],
    ) by {
        lemma_sequence_prefix(sequence, runs, more, i as nat);
        if i < runs.len() {
            assert(more[i] == runs[i]);
        }
    }
    assert forall|i: int| 0 <= i < more.len() - 1 implies run_failure(#[trigger] more[i]) is None by {
        assert(more[i] == runs[i]);
    }
    lemma_sequence_prefix(sequence, runs, more, runs.len());
    assert(more.drop_last() =~= runs);
    assert(runs_messages(calls, more) =~= runs_messages(calls, runs).push(
        outcome_message(calls[runs.len() as int].id, run.shown),
    ));
    if run_failure(run) is None {
        assert forall|i: int| 0 <= i < more.len() implies run_failure(#[trigger] more[i]) is None by {
            if i < runs.len() {
                assert(more[i] == runs[i]);
            }
        }
    }
}

pub open spec fn runs_marks(calls: Seq<CallView>, runs: Seq<ToolRun>) -> Seq<Mark>
    decreases runs.len(),
{
    if runs.len() == 0 {
        Seq::empty()
    } else {
        runs_marks(calls, runs.drop_last()) + call_marks(calls[runs.len() - 1], runs.last())
    }
}

/// What the model is shown of the runs.
pub open spec fn runs_messages(calls: Seq<CallView>, runs: Seq<ToolRun>) -> Seq<MessageView> {
    Seq::new(runs.len(), |i: int| outcome_message(calls[i].id, runs[i].shown))
}

/// What is recorded of the calls from `from` up to `n` where an earlier one stopped the
/// loop: each is answered without a run.
pub open spec fn closed_marks(calls: Seq<CallView>, from: nat, n: nat, code: ErrorCode) -> Seq<Mark>
    decreases n,
{
    if n <= from {
        Seq::empty()
    } else {
        closed_marks(calls, from, (n - 1) as nat, code) + seq![
            Mark::Requested {
                call_id: calls[n - 1].id,
                tool: calls[n - 1].name,
                args: recorded_args(calls[n - 1].arguments),
            },
            Mark::Returned { call_id: calls[n - 1].id, outcome: not_executed(code) },
        ]
    }
}

/// What the model is shown of them.
pub open spec fn closed_messages(
    calls: Seq<CallView>,
    from: nat,
    code: ErrorCode,
) -> Seq<MessageView> {
    Seq::new(
        (calls.len() - from) as nat,
        |i: int| outcome_message(calls[from + i].id, not_executed(code)),
    )
}

// ---------------------------------------------------------------------------
// One reply
// ---------------------------------------------------------------------------

/// A reply of the model.
pub struct ReplyView {
    pub text: Seq<char>,
    pub calls: Seq<CallView>,
    pub total: Option<u64>,
}

pub open spec fn reply_view(reply: ChatReply) -> ReplyView {
    ReplyView {
        text: reply.text@,
        calls: calls_view(reply.tool_calls@),
        total: crate::chat_turn::provider_total(reply),
    }
}

/// The number of characters of the first `n` messages.
pub open spec fn content_chars(h: Seq<MessageView>, n: nat) -> nat
    decreases n,
{
    if n == 0 {
        0
    } else {
        content_chars(h, (n - 1) as nat) + h[n - 1].content.len()
    }
}

/// The number of characters of the arguments of the first `n` calls.
pub open spec fn argument_chars(calls: Seq<CallView>, n: nat) -> nat
    decreases n,
{
    if n == 0 {
        0
    } else {
        argument_chars(calls, (n - 1) as nat) + calls[n - 1].arguments.len()
    }
}

/// The tokens that a sample counts for: what the provider said, or an estimate over
/// the conversation, the reply and the arguments of its calls.
pub open spec fn reply_tokens(h: Seq<MessageView>, reply: ReplyView) -> int {
    match reply.total {
        Some(total) => total as int,
        None => estimated(
            content_chars(h, h.len()) + reply.text.len() + argument_chars(
                reply.calls,
                reply.calls.len(),
            ),
            4,
        ),
    }
}

/// Who and what a turn is.
pub struct TurnRules {
    pub turn_id: u64,
    /// The position of the message in its turn.
    pub message: nat,
    /// How often the model is sampled at most.
    pub limit: nat,
    pub path: Seq<Seq<char>>,
    pub guard: Option<LoopGuard>,
    /// What the tools give for a name and arguments.
    pub runs: spec_fn(Seq<char>, JsonView, Option<ToolExecution>) -> bool,
    /// What the outcome of a call is shown as.
    pub passes: spec_fn(CallView, OutcomeView, OutcomeView) -> bool,
    pub hooks: HookRules,
}

/// Where a session stands between two messages.
pub struct Standing {
    pub log: Seq<Handed>,
    pub history: Seq<MessageView>,
    /// From where on queued input is not yet in the conversation.
    pub cursor: int,
    /// The number of the next run of a hook.
    pub sequence: u64,
}

/// Where a turn stands between two samples.
pub struct TurnPoint {
    pub log: Seq<Handed>,
    pub history: Seq<MessageView>,
    pub tracker: TrackerView,
    /// From where on queued input is not yet in the conversation.
    pub cursor: int,
    /// The number of the next run of a hook.
    pub sequence: u64,
}

/// The record of the use of a sample.
pub open spec fn used_mark(
    rules: TurnRules,
    round: nat,
    h: Seq<MessageView>,
    reply: ReplyView,
) -> Mark {
    Mark::Used {
        usage_id: usage_id_of(rules.turn_id, rules.message, round as u32),
        path: rules.path,
        total: reply_tokens(h, reply),
        source: if reply.total is Some {
            TokenUsageSource::Provider
        } else {
            TokenUsageSource::Heuristic
        },
    }
}

/// The record of a sample, and the text that came with it.
pub open spec fn sample_marks(
    rules: TurnRules,
    round: nat,
    h: Seq<MessageView>,
    reply: ReplyView,
) -> Seq<Mark> {
    let used = seq![used_mark(rules, round, h, reply)];
    if reply.text.len() > 0 {
        used.push(
            Mark::Chunk { call_id: "turn-"@ + decimal(rules.turn_id as nat), text: reply.text },
        )
    } else {
        used
    }
}

/// Why the use of a sample cannot be recorded in a session that stands at `log`.
pub open spec fn use_error(
    rules: TurnRules,
    round: nat,
    log: Seq<Handed>,
    h: Seq<MessageView>,
    reply: ReplyView,
) -> Option<ErrorView> {
    usage_error(
        taken(log),
        usage_id_of(rules.turn_id, rules.message, round as u32),
        rules.path,
        reply_tokens(h, reply),
    )
}

/// Why the use of a sample is not on record: it cannot be recorded, or the session, which
/// stands at `after` by now, did not take the record.
pub open spec fn use_failure(
    rules: TurnRules,
    round: nat,
    log: Seq<Handed>,
    after: Seq<Handed>,
    h: Seq<MessageView>,
    reply: ReplyView,
) -> Option<ErrorView> {
    match use_error(rules, round, log, h, reply) {
        Some(e) => Some(e),
        None => lost(after[log.len() as int].refused),
    }
}

/// What is handed to a session for a sample whose use is not on record in the end.
pub open spec fn unrecorded_marks(
    rules: TurnRules,
    round: nat,
    log: Seq<Handed>,
    h: Seq<MessageView>,
    reply: ReplyView,
) -> Seq<Mark> {
    match use_error(rules, round, log, h, reply) {
        Some(_) => Seq::empty(),
        None => seq![used_mark(rules, round, h, reply)],
    }
}

/// The batch of calls of a reply.
pub open spec fn batch_mark(rules: TurnRules, round: nat, calls: Seq<CallView>) -> Mark {
    Mark::Batch {
        request_id: "turn-"@ + decimal(rules.turn_id as nat) + "-round-"@ + decimal(round),
        calls,
    }
}

/// From `p` to `q` the calls of one reply were run.
pub open spec fn is_batch(
    rules: TurnRules,
    round: nat,
    calls: Seq<CallView>,
    runs: Seq<ToolRun>,
    p: TurnPoint,
    q: TurnPoint,
) -> bool {
    &&& runs.len() == calls.len()
    &&& runs_fit(rules, calls, p.tracker, p.sequence, runs)
    &&& all_passed(runs)
    &&& wrote(p.log, q.log, seq![batch_mark(rules, round, calls)] + runs_marks(calls, runs))
    &&& q.history == p.history.push(calls_message(calls)) + runs_messages(calls, runs)
    &&& q.tracker == tracker_after(p.tracker, calls, calls.len())
    &&& q.sequence == sequence_after(p.sequence, runs, runs.len())
}

/// From `p` to `q` the calls of one reply were run up to one whose hooks refused it with
/// `e`; the others are answered without a run.
pub open spec fn is_broken_batch(
    rules: TurnRules,
    round: nat,
    calls: Seq<CallView>,
    runs: Seq<ToolRun>,
    p: TurnPoint,
    q: TurnPoint,
    e: ErrorView,
) -> bool {
    &&& 0 < runs.len() <= calls.len()
    &&& runs_fit(rules, calls, p.tracker, p.sequence, runs)
    &&& run_failure(runs.last()) == Some(e)
    &&& wrote(
        p.log,
        q.log,
        seq![batch_mark(rules, round, calls)] + runs_marks(calls, runs) + closed_marks(
            calls,
            runs.len(),
            calls.len(),
            e.code,
        ),
    )
    &&& q.history == p.history.push(calls_message(calls)) + runs_messages(calls, runs)
        + closed_messages(calls, runs.len(), e.code)
    &&& q.sequence == sequence_after(p.sequence, runs, runs.len())
}

/// The calls of one reply were run, for some runs of the tools.
pub open spec fn batch_as(
    rules: TurnRules,
    round: nat,
    calls: Seq<CallView>,
    p: TurnPoint,
    q: TurnPoint,
    failure: Option<ErrorView>,
) -> bool {
    match failure {
        None => exists|runs: Seq<ToolRun>| is_batch(rules, round, calls, runs, p, q),
        Some(e) => exists|runs: Seq<ToolRun>| is_broken_batch(rules, round, calls, runs, p, q, e),
    }
}

/// A reply with calls in the session: its record, the batch, and the calls.
pub open spec fn reply_marks(
    rules: TurnRules,
    round: nat,
    h: Seq<MessageView>,
    reply: ReplyView,
    runs: Seq<ToolRun>,
) -> Seq<Mark> {
    sample_marks(rules, round, h, reply).push(batch_mark(rules, round, reply.calls)) + runs_marks(
        reply.calls,
        runs,
    )
}

/// From `p` to `q` a reply with calls was taken in.
pub open spec fn is_taken(
    rules: TurnRules,
    round: nat,
    reply: ReplyView,
    runs: Seq<ToolRun>,
    p: TurnPoint,
    q: TurnPoint,
) -> bool {
    &&& use_failure(rules, round, p.log, q.log, p.history, reply) is None
    &&& runs.len() == reply.calls.len()
    &&& runs_fit(rules, reply.calls, p.tracker, p.sequence, runs)
    &&& all_passed(runs)
    &&& wrote(p.log, q.log, reply_marks(rules, round, p.history, reply, runs))
    &&& q.history == p.history.push(calls_message(reply.calls)) + runs_messages(reply.calls, runs)
    &&& q.tracker == tracker_after(p.tracker, reply.calls, reply.calls.len())
    &&& q.sequence == sequence_after(p.sequence, runs, runs.len())
}

/// From `p` to `q` a reply with calls was taken in up to a call that the hooks refused
/// with `e`.
pub open spec fn is_broken(
    rules: TurnRules,
    round: nat,
    reply: ReplyView,
    runs: Seq<ToolRun>,
    p: TurnPoint,
    q: TurnPoint,
    e: ErrorView,
) -> bool {
    &&& use_failure(rules, round, p.log, q.log, p.history, reply) is None
    &&& 0 < runs.len() <= reply.calls.len()
    &&& runs_fit(rules, reply.calls, p.tracker, p.sequence, runs)
    &&& run_failure(runs.last()) == Some(e)
    &&& wrote(
        p.log,
        q.log,
        reply_marks(rules, round, p.history, reply, runs) + closed_marks(
            reply.calls,
            runs.len(),
            reply.calls.len(),
            e.code,
        ),
    )
    &&& q.history == p.history.push(calls_message(reply.calls)) + runs_messages(reply.calls, runs)
        + closed_messages(reply.calls, runs.len(), e.code)
    &&& q.sequence == sequence_after(p.sequence, runs, runs.len())
}

/// A reply with calls was taken in, for some runs of the tools.
pub open spec fn taken_as(
    rules: TurnRules,
    round: nat,
    reply: ReplyView,
    p: TurnPoint,
    q: TurnPoint,
) -> bool {
    exists|runs: Seq<ToolRun>| is_taken(rules, round, reply, runs, p, q)
}

/// A reply was refused with `e`: its use is not on record, which leaves the conversation as
/// it was, or the hooks refused one of its calls.
pub open spec fn refused_as(
    rules: TurnRules,
    round: nat,
    reply: ReplyView,
    p: TurnPoint,
    q: TurnPoint,
    e: ErrorView,
) -> bool {
    ||| {
        &&& use_failure(rules, round, p.log, q.log, p.history, reply) == Some(e)
        &&& wrote(
            p.log,
            q.log,
            unrecorded_marks(rules, round, p.log, p.history, reply),
        )
        &&& q.history == p.history
        &&& q.sequence == p.sequence
    }
    ||| exists|runs: Seq<ToolRun>| is_broken(rules, round, reply, runs, p, q, e)
}

/// A reply in text in the session.
pub open spec fn answer_marks(
    rules: TurnRules,
    round: nat,
    h: Seq<MessageView>,
    reply: ReplyView,
) -> Seq<Mark> {
    sample_marks(rules, round, h, reply).push(Mark::Answered { text: reply.text })
}

// ---------------------------------------------------------------------------
// One message
// ---------------------------------------------------------------------------

/// Who takes part in the answer to a message.
pub struct ChatRules {
    pub turn: TurnRules,
    pub model: ModelRules,
}

/// The conversation with the input that was queued meanwhile.
pub open spec fn heard(p: TurnPoint) -> Seq<MessageView> {
    p.history + user_messages(queued_texts(taken(p.log), p.cursor))
}

/// The model was sampled at `p`.
pub open spec fn sampled(rules: ChatRules, p: TurnPoint, s: Sampling) -> bool {
    is_sampling(rules.model, p.log, heard(p), s)
}

/// The reply of a sample that has one.
pub open spec fn reply_of(s: Sampling) -> ReplyView {
    reply_view(s.result->Ok_0)
}

/// Where a turn that stood at `p` stands after the sample.
pub open spec fn after_sample(p: TurnPoint, s: Sampling) -> TurnPoint {
    TurnPoint { log: s.log, history: s.history, ..p }
}

/// From `p` to `q` the model was sampled once, and its calls were run.
pub open spec fn is_round(
    rules: ChatRules,
    round: nat,
    p: TurnPoint,
    q: TurnPoint,
    s: Sampling,
    runs: Seq<ToolRun>,
) -> bool {
    &&& sampled(rules, p, s)
    &&& s.result is Ok
    &&& reply_of(s).calls.len() > 0
    &&& is_taken(rules.turn, round, reply_of(s), runs, after_sample(p, s), q)
    &&& q.cursor == taken(p.log).len()
}

/// How the answer to a message ends.
pub enum TurnEnd {
    /// The model asked for tools too often.
    Exhausted,
    /// The model gave no reply, or the budget allowed no further sample.
    Failed { sample: Sampling },
    /// The use of the sample is not on record.
    Unrecorded { sample: Sampling },
    /// The hooks refused a call of the reply.
    Broken { sample: Sampling, runs: Seq<ToolRun> },
    Answered { sample: Sampling },
}

/// What the end of a message adds after `p`. `failure` is why it was not answered.
pub open spec fn is_end(
    rules: ChatRules,
    round: nat,
    p: TurnPoint,
    end: TurnEnd,
    to: Standing,
    failure: Option<ErrorView>,
) -> bool {
    match end {
        TurnEnd::Exhausted => {
            &&& round == rules.turn.limit
            &&& to.log == p.log
            &&& to.history == p.history
            &&& to.cursor == p.cursor
            &&& to.sequence == p.sequence
            &&& failure == Some(rounds_error(rules.turn.limit as u32))
        },
        TurnEnd::Failed { sample } => {
            &&& round < rules.turn.limit
            &&& sampled(rules, p, sample)
            &&& sample.result is Err
            &&& to.log == sample.log
            &&& to.history == sample.history
            &&& to.cursor == taken(p.log).len()
            &&& to.sequence == p.sequence
            &&& failure == Some(sample.result->Err_0@)
        },
        TurnEnd::Unrecorded { sample } => {
            let reply = reply_of(sample);
            let unrecorded = use_failure(
                rules.turn,
                round,
                sample.log,
                to.log,
                sample.history,
                reply,
            );
            &&& round < rules.turn.limit
            &&& sampled(rules, p, sample)
            &&& sample.result is Ok
            &&& wrote(
                sample.log,
                to.log,
                unrecorded_marks(rules.turn, round, sample.log, sample.history, reply),
            )
            &&& to.history == sample.history
            &&& to.cursor == taken(p.log).len()
            &&& to.sequence == p.sequence
            &&& unrecorded is Some
            &&& failure == unrecorded
        },
        TurnEnd::Broken { sample, runs } => {
            let stopped = TurnPoint {
                log: to.log,
                history: to.history,
                sequence: to.sequence,
                ..p
            };
            &&& round < rules.turn.limit
            &&& sampled(rules, p, sample)
            &&& sample.result is Ok
            &&& failure is Some
            &&& is_broken(
                rules.turn,
                round,
                reply_of(sample),
                runs,
                after_sample(p, sample),
                stopped,
                failure->0,
            )
            &&& to.cursor == taken(p.log).len()
        },
        TurnEnd::Answered { sample } => {
            let reply = reply_of(sample);
            &&& round < rules.turn.limit
            &&& sampled(rules, p, sample)
            &&& sample.result is Ok
            &&& reply.calls.len() == 0
            &&& use_failure(
                rules.turn,
                round,
                sample.log,
                to.log,
                sample.history,
                reply,
            ) is None
            &&& wrote(
                sample.log,
                to.log,
                answer_marks(rules.turn, round, sample.history, reply),
            )
            &&& to.history == sample.history.push(plain_message("assistant"@, reply.text))
            &&& to.cursor == taken(p.log).len()
            &&& to.sequence == p.sequence
            &&& failure is None
        },
    }
}

/// The rounds of a message: each leads from one point to the next.
pub open spec fn are_rounds(
    rules: ChatRules,
    points: Seq<TurnPoint>,
    samples: Seq<Sampling>,
    runs: Seq<Seq<ToolRun>>,
) -> bool {
    &&& points.len() == samples.len() + 1
    &&& runs.len() == samples.len()
    &&& samples.len() <= rules.turn.limit
    &&& forall|i: int|
        0 <= i < samples.len() ==> is_round(
            rules,
            i as nat,
            points[i],
            #[trigger] points[i + 1],
            samples[i],
            runs[i],
        )
}

/// No calls were seen yet.
pub open spec fn fresh_tracker() -> TrackerView {
    TrackerView { tool: Seq::empty(), args: Seq::empty(), count: 0 }
}

/// A message was said, and the rounds so far followed it.
pub open spec fn begins_turn(
    rules: ChatRules,
    text: Seq<char>,
    from: Standing,
    points: Seq<TurnPoint>,
    samples: Seq<Sampling>,
    runs: Seq<Seq<ToolRun>>,
) -> bool {
    &&& are_rounds(rules, points, samples, runs)
    &&& wrote(from.log, points[0].log, seq![Mark::Said { text }])
    &&& points[0].history == from.history.push(plain_message("user"@, text))
    &&& points[0].tracker == fresh_tracker()
    &&& points[0].cursor == from.cursor
    &&& points[0].sequence == from.sequence
}

pub proof fn lemma_next_round(
    rules: ChatRules,
    text: Seq<char>,
    from: Standing,
    points: Seq<TurnPoint>,
    samples: Seq<Sampling>,
    runs: Seq<Seq<ToolRun>>,
    next: TurnPoint,
    sample: Sampling,
    ran: Seq<ToolRun>,
)
    requires
        begins_turn(rules, text, from, points, samples, runs),
        samples.len() < rules.turn.limit,
        is_round(rules, samples.len(), points.last(), next, sample, ran),
    ensures
        begins_turn(rules, text, from, points.push(next), samples.push(sample), runs.push(ran)),
{
    let ps = points.push(next);
    let ss = samples.push(sample);
    let rs = runs.push(ran);
    assert forall|i: int| 0 <= i < ss.len() implies is_round(
        rules,
        i as nat,
        ps[i],
        #[trigger] ps[i + 1],
        ss[i],
        rs[i],
    ) by {
        if i < samples.len() {
            assert(ps[i + 1] == points[i + 1]);
            assert(ps[i] == points[i]);
        }
    }
}

/// From one standing to the next a message was answered, or failed for `failure`: it
/// is said, the model is sampled and its calls are run, round after round, until the
/// end.
pub open spec fn is_chat_turn(
    rules: ChatRules,
    text: Seq<char>,
    from: Standing,
    points: Seq<TurnPoint>,
    samples: Seq<Sampling>,
    runs: Seq<Seq<ToolRun>>,
    end: TurnEnd,
    to: Standing,
    failure: Option<ErrorView>,
) -> bool {
    &&& begins_turn(rules, text, from, points, samples, runs)
    &&& is_end(rules, samples.len(), points.last(), end, to, failure)
}

/// The same, for some replies of the model and some runs of the tools.
pub open spec fn answered_as(
    rules: ChatRules,
    text: Seq<char>,
    from: Standing,
    to: Standing,
    failure: Option<ErrorView>,
) -> bool {
    exists|
        points: Seq<TurnPoint>,
        samples: Seq<Sampling>,
        runs: Seq<Seq<ToolRun>>,
        end: TurnEnd,
    |
        is_chat_turn(rules, text, from, points, samples, runs, end, to, failure)
}

/// The answer to a message is a reply that the model gave for the conversation before it, and
/// one without calls, whatever the session took.
pub proof fn an_answer_is_what_the_model_gave(
    rules: ChatRules,
    text: Seq<char>,
    from: Standing,
    to: Standing,
)
    requires
        answered_as(rules, text, from, to, None),
    ensures
        exists|reply: ChatReply|
            {
                &&& #[trigger] (rules.model.replies)(to.history.drop_last(), Ok(reply))
                &&& reply.tool_calls@.len() == 0
                &&& to.history.last() == plain_message("assistant"@, reply.text@)
            },
{
    let (points, samples, runs, end) = choose|
        points: Seq<TurnPoint>,
        samples: Seq<Sampling>,
        runs: Seq<Seq<ToolRun>>,
        end: TurnEnd,
    |
        is_chat_turn(rules, text, from, points, samples, runs, end, to, None);
    let p = points.last();
    let sample = end->Answered_sample;
    a_reply_is_what_the_model_gave(rules.model, p.log, heard(p), sample);
    let reply = sample.result->Ok_0;
    assert(to.history.drop_last() =~= sample.history);
    assert(reply_of(sample).calls.len() == reply.tool_calls@.len());
    assert((rules.model.replies)(to.history.drop_last(), Ok(reply)));
}

// ---------------------------------------------------------------------------
// One message without tools
// ---------------------------------------------------------------------------

/// What a loop whose chat model is not set up fails with.
pub open spec fn no_model_error() -> ErrorView {
    error(ErrorCode::Internal, "chat 路径已启用；legacy ModelProvider 不应被调用"@)
}

/// A message was answered by a model that calls no tools, or failed for `failure`.
/// `said` is what the model made of the message, where there is one.
pub open spec fn is_plain_turn(
    turn_id: u64,
    message: nat,
    path: Seq<Seq<char>>,
    text: Seq<char>,
    said: Option<Result<String, ErrorEnvelope>>,
    before: Seq<Handed>,
    heard: Seq<Handed>,
    after: Seq<Handed>,
    failure: Option<ErrorView>,
) -> bool {
    let usage_id = plain_usage_id(turn_id, message);
    &&& wrote(before, heard, seq![Mark::Said { text }])
    &&& match sample_error(taken(heard)) {
        Some(e) => after == heard && failure == Some(e),
        None => match said {
            None => after == heard && failure == Some(no_model_error()),
            Some(Err(e)) => after == heard && failure == Some(e@),
            Some(Ok(reply)) => {
                let total = estimated(text.len() + reply@.len(), 4);
                let used = Mark::Used {
                    usage_id,
                    path,
                    total,
                    source: TokenUsageSource::Heuristic,
                };
                match usage_error(taken(heard), usage_id, path, total) {
                    Some(e) => after == heard && failure == Some(e),
                    None => match lost(after[heard.len() as int].refused) {
                        Some(e) => wrote(heard, after, seq![used]) && failure == Some(e),
                        None => {
                            &&& wrote(heard, after, seq![used, Mark::Answered { text: reply@ }])
                            &&& failure == lost(after.last().refused)
                        },
                    },
                }
            },
        },
    }
}

/// What a model that calls no tools gives for a text.
pub type Completes = spec_fn(Seq<char>, Result<String, ErrorEnvelope>) -> bool;

/// The same, for an answer of the model. It is asked only where the budget allows it.
pub open spec fn plain_as(
    turn_id: u64,
    message: nat,
    path: Seq<Seq<char>>,
    text: Seq<char>,
    model: Option<Completes>,
    before: Seq<Handed>,
    after: Seq<Handed>,
    failure: Option<ErrorView>,
) -> bool {
    exists|said: Option<Result<String, ErrorEnvelope>>, heard: Seq<Handed>|
        {
            &&& sample_error(taken(heard)) is None ==> match model {
                None => said is None,
                Some(completes) => said is Some && completes(text, said->0),
            }
            &&& #[trigger] is_plain_turn(
                turn_id,
                message,
                path,
                text,
                said,
                before,
                heard,
                after,
                failure,
            )
        }
}

// ---------------------------------------------------------------------------
// One turn
// ---------------------------------------------------------------------------

/// How the messages of a turn are answered: by a chat model that calls tools, or else
/// by one that calls none.
pub struct LoopRules {
    pub turn: TurnRules,
    pub chat: Option<ModelRules>,
    pub plain: Option<Completes>,
}

/// From one standing to the next one message was answered, or failed.
pub open spec fn message_as(
    rules: LoopRules,
    text: Seq<char>,
    from: Standing,
    to: Standing,
    failure: Option<ErrorView>,
) -> bool {
    match rules.chat {
        Some(model) => answered_as(
            ChatRules { turn: rules.turn, model },
            text,
            from,
            to,
            failure,
        ),
        None => {
            &&& plain_as(
                rules.turn.turn_id,
                rules.turn.message,
                rules.turn.path,
                text,
                rules.plain,
                from.log,
                to.log,
                failure,
            )
            &&& to.history == from.history
            &&& to.cursor == from.cursor
            &&& to.sequence == from.sequence
        },
    }
}

/// The same rules, for the message at a position of the turn.
pub open spec fn at_message(rules: LoopRules, message: nat) -> LoopRules {
    LoopRules { turn: TurnRules { message, ..rules.turn }, ..rules }
}

/// The first messages were answered, each from where the one before it left off.
pub open spec fn messages_answered(
    rules: LoopRules,
    texts: Seq<Seq<char>>,
    stands: Seq<Standing>,
) -> bool {
    &&& 0 < stands.len() <= texts.len() + 1
    &&& forall|i: int|
        0 <= i < stands.len() - 1 ==> message_as(
            at_message(rules, i as nat),
            texts[i],
            stands[i],
            #[trigger] stands[i + 1],
            None,
        )
}

pub proof fn lemma_next_message(
    rules: LoopRules,
    texts: Seq<Seq<char>>,
    stands: Seq<Standing>,
    next: Standing,
)
    requires
        messages_answered(rules, texts, stands),
        stands.len() <= texts.len(),
        message_as(
            at_message(rules, (stands.len() - 1) as nat),
            texts[stands.len() - 1],
            stands.last(),
            next,
            None,
        ),
    ensures
        messages_answered(rules, texts, stands.push(next)),
{
    let more = stands.push(next);
    assert forall|i: int| 0 <= i < more.len() - 1 implies message_as(
        at_message(rules, i as nat),
        texts[i],
        more[i],
        #[trigger] more[i + 1],
        None,
    ) by {
        if i < stands.len() - 1 {
            assert(more[i + 1] == stands[i + 1]);
            assert(more[i] == stands[i]);
        }
    }
}

/// The hooks at the end of a turn: what they left, and why they refused it.
pub struct TurnClose {
    pub hooks: Seq<Handed>,
    pub refused: Option<ErrorView>,
}

/// Why a turn is aborted: for a reason, or for the refusal of its hooks.
pub open spec fn end_reason(refused: Option<ErrorView>, reason: Seq<char>) -> Seq<char> {
    match refused {
        None => reason,
        Some(e) => e.message,
    }
}

/// What turn `id` ends with, after its hooks: it is completed, or aborted for a reason.
pub open spec fn closes(
    rules: LoopRules,
    context: ContextView,
    at: Standing,
    close: TurnClose,
    id: u64,
    aborted: Option<Seq<char>>,
    to: Standing,
) -> bool {
    let heard = at.log + close.hooks;
    &&& ran_hooks(rules.turn.hooks, context, at.sequence, close.hooks, close.refused)
    &&& to.log == heard.push(to.log.last())
    &&& match aborted {
        None => to.log.last().event == (Event::TurnCompleted { turn_id: id }),
        Some(why) => to.log.last().event matches Event::TurnAborted { turn_id, reason } && turn_id == id
            && reason@ == why,
    }
    &&& to.history == at.history
    &&& to.cursor == at.cursor
    &&& to.sequence == bumped(at.sequence, rounds_in(close.hooks))
}

/// A turn over `texts`, from where it has begun. The messages are answered one after the
/// other, and the turn is completed after the last one, or aborted for the failure of the
/// first one that was not answered. Hooks have the last word: where they refuse the end
/// of the turn, it is aborted for their error.
pub open spec fn is_turn_from(
    rules: LoopRules,
    texts: Seq<Seq<char>>,
    stands: Seq<Standing>,
    failed: Option<(Standing, ErrorView)>,
    close: TurnClose,
    to: Standing,
) -> bool {
    let id = rules.turn.turn_id;
    &&& stands.len() > 0
    &&& messages_answered(rules, texts, stands)
    &&& match failed {
        None => {
            &&& stands.len() == texts.len() + 1
            &&& closes(
                rules,
                turn_context(HookPoint::TurnCompleted, id, None),
                stands.last(),
                close,
                id,
                match close.refused {
                    None => None,
                    Some(e) => Some(e.message),
                },
                to,
            )
        },
        Some((at, e)) => {
            &&& stands.len() <= texts.len()
            &&& message_as(
                at_message(rules, (stands.len() - 1) as nat),
                texts[stands.len() - 1],
                stands.last(),
                at,
                Some(e),
            )
            &&& closes(
                rules,
                turn_context(HookPoint::TurnFailed, id, Some(e.message)),
                at,
                close,
                id,
                Some(end_reason(close.refused, e.message)),
                to,
            )
        },
    }
}

/// The same, from `begun` and with `answered` messages answered.
pub open spec fn finished_as(
    rules: LoopRules,
    texts: Seq<Seq<char>>,
    begun: Standing,
    to: Standing,
    answered: int,
) -> bool {
    exists|stands: Seq<Standing>, failed: Option<(Standing, ErrorView)>, close: TurnClose|
        #[trigger] is_turn_from(rules, texts, stands, failed, close, to) && stands[0] == begun
            && answered == stands.len() - 1
}

/// Where a turn stands that has begun.
pub open spec fn begun(rules: LoopRules, from: Standing) -> Standing {
    let started = Event::TurnStarted { turn_id: rules.turn.turn_id };
    Standing { log: from.log.push(took(started)), ..from }
}

/// A whole turn over `texts`: it begins, and is finished from there with `answered`
/// messages answered.
pub open spec fn turn_as(
    rules: LoopRules,
    texts: Seq<Seq<char>>,
    from: Standing,
    to: Standing,
    answered: int,
) -> bool {
    finished_as(rules, texts, begun(rules, from), to, answered)
}

// ---------------------------------------------------------------------------
// Laws
// ---------------------------------------------------------------------------

/// A mark says everything that its event does.
pub proof fn what_a_mark_says(e: Event)
    ensures
        e is UserMessage ==> mark(e) == (Mark::Said { text: e->UserMessage_text@ }),
        e is AssistantMessage ==> mark(e) == (Mark::Answered { text: e->AssistantMessage_text@ }),
        e is ToolCallRequested ==> mark(e) == (Mark::Requested {
            call_id: e->ToolCallRequested_call_id@,
            tool: e->ToolCallRequested_tool@,
            args: e->args@,
        }),
        e is ToolResultAdded ==> mark(e) == (Mark::Returned {
            call_id: e->ToolResultAdded_call_id@,
            outcome: e->ToolResultAdded_outcome@,
        }),
        e is TokenUsageRecorded ==> mark(e) == (Mark::Used {
            usage_id: e->usage_id@,
            path: views(e->agent_path@),
            total: e->total_tokens as int,
            source: e->TokenUsageRecorded_source,
        }),
        e is ModelChunkReceived ==> mark(e) == (Mark::Chunk {
            call_id: e->ModelChunkReceived_call_id@,
            text: e->delta_text@,
        }),
{
}

/// What is written is added behind what is there: one event for each mark, in their order.
pub proof fn what_is_written_is_added(
    before: Seq<Handed>,
    after: Seq<Handed>,
    said: Seq<Mark>,
    i: int,
)
    requires
        wrote(before, after, said),
    ensures
        after.len() == before.len() + said.len(),
        0 <= i < before.len() ==> after[i] == before[i],
        0 <= i < said.len() ==> mark(after[before.len() + i].event) == said[i],
{
    let rest = added(before, after);
    assert(marks(rest).len() == rest.len());
    if 0 <= i < before.len() {
        assert(after.subrange(0, before.len() as int)[i] == after[i]);
    }
    if 0 <= i < said.len() {
        assert(rest[i] == after[before.len() + i]);
        assert(marks(rest)[i] == mark(rest[i].event));
    }
}

/// The record of a call begins with its request, with its own id, tool and arguments, and its
/// result answers the id with what is shown.
pub proof fn how_a_call_is_recorded(call: CallView, run: ToolRun)
    ensures
        ({
            let said = call_marks(call, run);
            let n = 1 + run.before.len() + audits_of(run).len();
            &&& said.len() == n + 1 + run.after.len()
            &&& said[0] == (Mark::Requested {
                call_id: call.id,
                tool: call.name,
                args: recorded_args(call.arguments),
            })
            &&& said[n as int] == (Mark::Returned { call_id: call.id, outcome: run.shown })
        }),
{
}

/// What a tool decided or kept is recorded under its call.
pub proof fn how_audits_are_recorded(call_id: Seq<char>, audit: ToolAudit, i: int)
    requires
        i >= 0,
    ensures
        audit is ApprovalDecided ==> audit_mark(call_id, audit, i) == (Mark::Decided {
            call_id,
            approved: audit->approved,
        }),
        audit is MemoryRecorded ==> audit_mark(call_id, audit, i) == (Mark::Remembered {
            memory_id: call_id + "-memory-"@ + decimal(i as nat),
            text: audit->text@,
            tags: views(audit->tags@),
        }),
{
}

/// A reply that was taken leaves the calls in the conversation and behind them the answer to
/// each, in their order: with the outcome that was shown.
pub proof fn every_call_is_answered(
    rules: TurnRules,
    round: nat,
    reply: ReplyView,
    runs: Seq<ToolRun>,
    p: TurnPoint,
    q: TurnPoint,
    i: int,
)
    requires
        is_taken(rules, round, reply, runs, p, q),
        0 <= i < reply.calls.len(),
    ensures
        q.history.len() == p.history.len() + 1 + reply.calls.len(),
        q.history[p.history.len() as int].role == "assistant"@,
        q.history[p.history.len() as int].tool_calls == Some(reply.calls),
        q.history[p.history.len() + 1 + i].role == "tool"@,
        q.history[p.history.len() + 1 + i].tool_call_id == Some(reply.calls[i].id),
        q.history[p.history.len() + 1 + i].content == json_text(outcome_json(runs[i].shown)),
        run_failure(runs[i]) is None,
        forall|k: int| 0 <= k < p.history.len() ==> #[trigger] q.history[k] == p.history[k],
{
}

/// A batch that broke answers every call too: those behind the failure with its code.
pub proof fn every_call_of_a_broken_batch_is_answered(
    rules: TurnRules,
    round: nat,
    reply: ReplyView,
    runs: Seq<ToolRun>,
    p: TurnPoint,
    q: TurnPoint,
    e: ErrorView,
    i: int,
)
    requires
        is_broken(rules, round, reply, runs, p, q, e),
        0 <= i < reply.calls.len(),
    ensures
        q.history.len() == p.history.len() + 1 + reply.calls.len(),
        q.history[p.history.len() as int].tool_calls == Some(reply.calls),
        q.history[p.history.len() + 1 + i].role == "tool"@,
        q.history[p.history.len() + 1 + i].tool_call_id == Some(reply.calls[i].id),
        i < runs.len() ==> q.history[p.history.len() + 1 + i].content == json_text(
            outcome_json(runs[i].shown),
        ),
        i >= runs.len() ==> q.history[p.history.len() + 1 + i].content == json_text(
            outcome_json(not_executed(e.code)),
        ),
        run_failure(runs.last()) == Some(e),
{
}

/// The hooks around a tool are told the turn, the call and the tool, and those behind it the
/// outcome; those around a turn its number and what went wrong.
pub proof fn what_hooks_are_told(
    point: HookPoint,
    turn_id: u64,
    call: CallView,
    outcome: Option<OutcomeView>,
    detail: Option<Seq<char>>,
)
    ensures
        tool_context(point, turn_id, call, outcome) == (ContextView {
            point,
            turn_id: Some(turn_id),
            call_id: Some(call.id),
            tool: Some(call.name),
            detail: None,
            outcome,
        }),
        turn_context(point, turn_id, detail) == (ContextView {
            point,
            turn_id: Some(turn_id),
            call_id: None,
            tool: None,
            detail,
            outcome: None,
        }),
{
}

/// A call that a hook refused does not run and is answered with the refusal.
pub proof fn what_hooks_refuse_does_not_run(
    rules: TurnRules,
    call: CallView,
    count: int,
    sequence: u64,
    run: ToolRun,
)
    requires
        run_fits(rules, call, count, sequence, run),
    ensures
        run.denied is Some ==> run.execution is None && run.shown == (OutcomeView::Failure {
            error: run.denied->0,
        }) && run_failure(run) == run.denied,
        run.denied is None && settled_outcome(call, rules.guard, count) is Some
            ==> run.execution is None && run.shown == settled_outcome(call, rules.guard, count)->0,
        run.denied is None && settled_outcome(call, rules.guard, count) is None ==> {
            &&& run.execution is Some
            &&& (rules.runs)(call.name, recorded_args(call.arguments), run.execution->0)
            &&& run.execution->0 is Some ==> (rules.passes)(
                call,
                executed(
                    call.name,
                    run.execution->0,
                    loop_verdict(rules.guard, count),
                    count,
                ),
                run.shown,
            )
        },
{
    reveal(run_fits);
}

/// The tokens of a reply: those that the provider counted, or otherwise one for every four
/// characters of the conversation, the reply and the arguments of its calls.
pub proof fn the_tokens_of_a_reply(h: Seq<MessageView>, reply: ReplyView, n: nat)
    ensures
        reply.total is Some ==> reply_tokens(h, reply) == reply.total->0,
        reply.total is None && content_chars(h, h.len()) + reply.text.len() + argument_chars(
            reply.calls,
            reply.calls.len(),
        ) <= u64::MAX ==> {
            let chars = content_chars(h, h.len()) + reply.text.len() + argument_chars(
                reply.calls,
                reply.calls.len(),
            );
            &&& 4 * reply_tokens(h, reply) >= chars
            &&& 4 * reply_tokens(h, reply) < chars + 4
        },
        content_chars(h, 0) == 0,
        n < h.len() ==> content_chars(h, n + 1) == content_chars(h, n) + h[n as int].content.len(),
        argument_chars(reply.calls, 0) == 0,
        n < reply.calls.len() ==> argument_chars(reply.calls, n + 1) == argument_chars(
            reply.calls,
            n,
        ) + reply.calls[n as int].arguments.len(),
{
}

/// The record of a sample: its tokens under the id of its turn, message and round, and its
/// text where it has one.
pub proof fn how_a_sample_is_recorded(
    rules: TurnRules,
    round: nat,
    h: Seq<MessageView>,
    reply: ReplyView,
)
    ensures
        sample_marks(rules, round, h, reply)[0] == (Mark::Used {
            usage_id: usage_id_of(rules.turn_id, rules.message, round as u32),
            path: rules.path,
            total: reply_tokens(h, reply),
            source: if reply.total is Some {
                TokenUsageSource::Provider
            } else {
                TokenUsageSource::Heuristic
            },
        }),
        reply.text.len() > 0 ==> sample_marks(rules, round, h, reply).len() == 2 && sample_marks(
            rules,
            round,
            h,
            reply,
        )[1] == (Mark::Chunk {
            call_id: "turn-"@ + decimal(rules.turn_id as nat),
            text: reply.text,
        }),
        reply.text.len() == 0 ==> sample_marks(rules, round, h, reply).len() == 1,
        answer_marks(rules, round, h, reply).last() == (Mark::Answered { text: reply.text }),
        batch_mark(rules, round, reply.calls) == (Mark::Batch {
            request_id: "turn-"@ + decimal(rules.turn_id as nat) + "-round-"@ + decimal(round),
            calls: reply.calls,
        }),
{
}

/// What is heard is the conversation and behind it the input that was queued meanwhile, in its
/// order and as the user's.
pub proof fn queued_input_is_heard_behind_the_conversation(p: TurnPoint, i: int)
    ensures
        ({
            let queued = queued_texts(taken(p.log), p.cursor);
            &&& heard(p).len() == p.history.len() + queued.len()
            &&& 0 <= i < p.history.len() ==> heard(p)[i] == p.history[i]
            &&& 0 <= i < queued.len() ==> heard(p)[p.history.len() + i].role == "user"@ && heard(
                p,
            )[p.history.len() + i].content == queued[i]
        }),
{
}

/// How a turn ends: with an answer, which is the last message of the conversation, or with an
/// error; one without an answer after all its rounds is an error too.
pub proof fn how_a_turn_ends(
    rules: ChatRules,
    round: nat,
    p: TurnPoint,
    end: TurnEnd,
    to: Standing,
    failure: Option<ErrorView>,
)
    requires
        is_end(rules, round, p, end, to, failure),
    ensures
        failure is None <==> end is Answered,
        round <= rules.turn.limit,
        end matches TurnEnd::Answered { sample } ==> {
            &&& sample.result is Ok
            &&& sample.result->Ok_0.tool_calls@.len() == 0
            &&& to.history.len() == sample.history.len() + 1
            &&& to.history.last().role == "assistant"@
            &&& to.history.last().content == sample.result->Ok_0.text@
            &&& mark(to.log.last().event) == (Mark::Answered { text: sample.result->Ok_0.text@ })
        },
        end matches TurnEnd::Failed { sample } ==> sample.result is Err && failure == Some(
            sample.result->Err_0@,
        ),
        end is Exhausted ==> round == rules.turn.limit && to.history == p.history && to.log
            == p.log && failure->0.code == ErrorCode::Internal,
{
    if let TurnEnd::Answered { sample } = end {
        let reply = reply_of(sample);
        let said = answer_marks(rules.turn, round, sample.history, reply);
        what_is_written_is_added(sample.log, to.log, said, said.len() - 1);
    }
}

/// A turn begins with what the user said, on record and at the end of the conversation.
pub proof fn how_a_turn_begins(
    rules: ChatRules,
    text: Seq<char>,
    from: Standing,
    points: Seq<TurnPoint>,
    samples: Seq<Sampling>,
    runs: Seq<Seq<ToolRun>>,
)
    requires
        begins_turn(rules, text, from, points, samples, runs),
    ensures
        points[0].history.len() == from.history.len() + 1,
        points[0].history.last().role == "user"@,
        points[0].history.last().content == text,
        points[0].history.drop_last() == from.history,
        points[0].log.len() == from.log.len() + 1,
        mark(points[0].log.last().event) == (Mark::Said { text }),
        points[0].tracker.count == 0,
        samples.len() <= rules.turn.limit,
{
    what_is_written_is_added(from.log, points[0].log, seq![Mark::Said { text }], 0);
    assert(points[0].history.drop_last() =~= from.history);
}

/// A turn without a chat answers with what the model completed, and records an estimate of its
/// tokens; an error of the model is the turn's.
pub proof fn what_a_plain_turn_answers(
    turn_id: u64,
    message: nat,
    path: Seq<Seq<char>>,
    text: Seq<char>,
    said: Option<Result<String, ErrorEnvelope>>,
    before: Seq<Handed>,
    heard: Seq<Handed>,
    after: Seq<Handed>,
    failure: Option<ErrorView>,
)
    requires
        is_plain_turn(turn_id, message, path, text, said, before, heard, after, failure),
    ensures
        heard.len() == before.len() + 1,
        mark(heard.last().event) == (Mark::Said { text }),
        failure is None ==> {
            &&& said is Some && said->0 is Ok
            &&& after.len() == heard.len() + 2
            &&& mark(after.last().event) == (Mark::Answered { text: said->0->Ok_0@ })
            &&& mark(after[heard.len() as int].event) == (Mark::Used {
                usage_id: plain_usage_id(turn_id, message),
                path,
                total: estimated(text.len() + said->0->Ok_0@.len(), 4),
                source: TokenUsageSource::Heuristic,
            })
        },
        sample_error(taken(heard)) is Some ==> failure == sample_error(taken(heard)) && after
            == heard,
        sample_error(taken(heard)) is None && said is Some && said->0 is Err ==> failure == Some(
            said->0->Err_0@,
        ) && after == heard,
        sample_error(taken(heard)) is None && said is None ==> failure is Some && after == heard,
{
    what_is_written_is_added(before, heard, seq![Mark::Said { text }], 0);
    if failure is None {
        let reply = said->0->Ok_0;
        let used = Mark::Used {
            usage_id: plain_usage_id(turn_id, message),
            path,
            total: estimated(text.len() + reply@.len(), 4),
            source: TokenUsageSource::Heuristic,
        };
        let both = seq![used, Mark::Answered { text: reply@ }];
        what_is_written_is_added(heard, after, both, 0);
        what_is_written_is_added(heard, after, both, 1);
    }
}

/// A turn closes with its completion or its abortion under its own number; why it was aborted
/// is what a hook said, or otherwise what went wrong.
pub proof fn how_a_turn_closes(
    rules: LoopRules,
    context: ContextView,
    at: Standing,
    close: TurnClose,
    id: u64,
    aborted: Option<Seq<char>>,
    to: Standing,
    e: ErrorView,
    reason: Seq<char>,
)
    requires
        closes(rules, context, at, close, id, aborted, to),
    ensures
        to.log.len() == at.log.len() + close.hooks.len() + 1,
        aborted is None ==> to.log.last().event is TurnCompleted
            && to.log.last().event->TurnCompleted_turn_id == id,
        aborted is Some ==> to.log.last().event is TurnAborted
            && to.log.last().event->TurnAborted_turn_id == id
            && to.log.last().event->TurnAborted_reason@ == aborted->0,
        to.history == at.history,
        end_reason(None, reason) == reason,
        end_reason(Some(e), reason) == e.message,
{
}

/// A turn answers its messages in their order. It is completed where each was answered and no
/// hook refused that; otherwise it is aborted.
pub proof fn when_a_turn_is_completed(
    rules: LoopRules,
    texts: Seq<Seq<char>>,
    stands: Seq<Standing>,
    failed: Option<(Standing, ErrorView)>,
    close: TurnClose,
    to: Standing,
)
    requires
        is_turn_from(rules, texts, stands, failed, close, to),
    ensures
        to.log.last().event is TurnCompleted <==> failed is None && close.refused is None,
        to.log.last().event is TurnCompleted || to.log.last().event is TurnAborted,
        failed is None ==> stands.len() == texts.len() + 1,
        failed is Some && close.refused is None ==> to.log.last().event->TurnAborted_reason@
            == (failed->0).1.message,
        close.refused is Some ==> to.log.last().event->TurnAborted_reason@
            == close.refused->0.message,
{
}

/// A turn that begins is on record under its number, and nothing else of it changes.
pub proof fn how_a_turn_is_begun(rules: LoopRules, from: Standing)
    ensures
        begun(rules, from).log.len() == from.log.len() + 1,
        begun(rules, from).log.last().event == (Event::TurnStarted {
            turn_id: rules.turn.turn_id,
        }),
        begun(rules, from).log.last().refused is None,
        begun(rules, from).history == from.history,
        begun(rules, from).cursor == from.cursor,
        begun(rules, from).sequence == from.sequence,
{
}

/// Calls are counted in a row: each with its tool and its arguments as recorded.
pub proof fn how_calls_are_counted(t: TrackerView, calls: Seq<CallView>, n: nat)
    requires
        n < calls.len(),
    ensures
        tracker_after(t, calls, 0) == t,
        tracker_after(t, calls, n + 1).tool == calls[n as int].name,
        tracker_after(t, calls, n + 1).args == json_text(
            recorded_args(calls[n as int].arguments),
        ),
        ({
            let before = tracker_after(t, calls, n);
            let same = before.tool == calls[n as int].name && before.args == json_text(
                recorded_args(calls[n as int].arguments),
            );
            &&& same && 0 < before.count < u64::MAX ==> tracker_after(t, calls, n + 1).count
                == before.count + 1
            &&& !same ==> tracker_after(t, calls, n + 1).count == 1
        }),
{
}

/// The calls behind a failure are recorded and answered with its code, one after another.
pub proof fn how_calls_behind_a_failure_are_recorded(
    calls: Seq<CallView>,
    from: nat,
    n: nat,
    code: ErrorCode,
)
    requires
        from <= n < calls.len(),
    ensures
        closed_marks(calls, from, from, code).len() == 0,
        closed_marks(calls, from, n + 1, code) == closed_marks(calls, from, n, code) + seq![
            Mark::Requested {
                call_id: calls[n as int].id,
                tool: calls[n as int].name,
                args: recorded_args(calls[n as int].arguments),
            },
            Mark::Returned {
                call_id: calls[n as int].id,
                outcome: OutcomeView::Failure {
                    error: ErrorView {
                        code,
                        message: "tool was not executed because an earlier call in the batch failed"@,
                    },
                },
            },
        ],
{
}

/// The runs of a batch are recorded one after another, each as its call.
pub proof fn how_runs_are_recorded(calls: Seq<CallView>, runs: Seq<ToolRun>, run: ToolRun)
    ensures
        runs_marks(calls, Seq::empty()).len() == 0,
        runs_marks(calls, runs.push(run)) == runs_marks(calls, runs) + call_marks(
            calls[runs.len() as int],
            run,
        ),
{
    assert(runs.push(run).drop_last() =~= runs);
}

/// A batch whose runs all passed has a run for each call, in their order, and begins with the
/// record of the batch itself.
pub proof fn what_a_batch_records(
    rules: TurnRules,
    round: nat,
    calls: Seq<CallView>,
    runs: Seq<ToolRun>,
    p: TurnPoint,
    q: TurnPoint,
    i: int,
)
    requires
        is_batch(rules, round, calls, runs, p, q),
        0 <= i < calls.len(),
    ensures
        runs.len() == calls.len(),
        q.history.len() == p.history.len() + 1 + calls.len(),
        q.history[p.history.len() + 1 + i].tool_call_id == Some(calls[i].id),
        q.history[p.history.len() + 1 + i].content == json_text(outcome_json(runs[i].shown)),
        mark(q.log[p.log.len() as int].event) == (Mark::Batch {
            request_id: "turn-"@ + decimal(rules.turn_id as nat) + "-round-"@ + decimal(round),
            calls,
        }),
{
    let said = seq![batch_mark(rules, round, calls)] + runs_marks(calls, runs);
    what_is_written_is_added(p.log, q.log, said, 0);
}

/// Each message of a turn is answered under its own number, and otherwise by the same rules.
pub proof fn each_message_has_its_number(rules: LoopRules, n: nat)
    ensures
        at_message(rules, n).turn.message == n,
        at_message(rules, n).turn.turn_id == rules.turn.turn_id,
        at_message(rules, n).turn.limit == rules.turn.limit,
        at_message(rules, n).turn.path == rules.turn.path,
        at_message(rules, n).turn.guard == rules.turn.guard,
        at_message(rules, n).chat == rules.chat,
        at_message(rules, n).plain == rules.plain,
{
}

/// A round goes on from what was heard: its calls and their results stand behind the
/// conversation as the sample left it.
pub proof fn a_round_goes_on_from_what_was_heard(
    rules: ChatRules,
    round: nat,
    p: TurnPoint,
    q: TurnPoint,
    s: Sampling,
    runs: Seq<ToolRun>,
    i: int,
)
    requires
        is_round(rules, round, p, q, s, runs),
        0 <= i < s.history.len(),
    ensures
        is_sampling(rules.model, p.log, heard(p), s),
        s.result is Ok,
        s.result->Ok_0.tool_calls@.len() > 0,
        q.history.len() == s.history.len() + 1 + s.result->Ok_0.tool_calls@.len(),
        q.history[i] == s.history[i],
        q.history[s.history.len() as int].tool_calls == Some(
            calls_view(s.result->Ok_0.tool_calls@),
        ),
        q.cursor == taken(p.log).len(),
        extends(s.log, q.log),
{
    let from = after_sample(p, s);
    assert(from.history == s.history && from.log == s.log);
}

/// Each run of a batch fits its own call, counted together with the identical ones before it,
/// and no run stands behind one that failed.
pub proof fn each_run_fits_its_call(
    rules: TurnRules,
    calls: Seq<CallView>,
    t: TrackerView,
    sequence: u64,
    runs: Seq<ToolRun>,
    i: int,
)
    requires
        runs_fit(rules, calls, t, sequence, runs),
        0 <= i < runs.len(),
    ensures
        runs.len() <= calls.len(),
        run_fits(
            rules,
            calls[i],
            tracker_after(t, calls, (i + 1) as nat).count as int,
            sequence_after(sequence, runs, i as nat),
            runs[i],
        ),
        i < runs.len() - 1 ==> run_failure(runs[i]) is None,
{
    reveal(runs_fit);
    let run = runs[i];
}

/// The numbers of the hooks go on from run to run.
pub proof fn numbers_go_on_from_run_to_run(sequence: u64, runs: Seq<ToolRun>, n: nat)
    requires
        n < runs.len(),
    ensures
        sequence_after(sequence, runs, 0) == sequence,
        sequence_after(sequence, runs, n + 1) >= sequence_after(sequence, runs, n),
        runs[n as int].before.len() == 0 && runs[n as int].after.len() == 0 ==> sequence_after(
            sequence,
            runs,
            n + 1,
        ) == sequence_after(sequence, runs, n),
{
}

/// A turn that is finished is closed on record, and has answered every message where it is
/// completed.
pub proof fn what_a_finished_turn_has_answered(
    rules: LoopRules,
    texts: Seq<Seq<char>>,
    begun: Standing,
    to: Standing,
    answered: int,
)
    requires
        finished_as(rules, texts, begun, to, answered),
    ensures
        0 <= answered <= texts.len(),
        to.log.last().event is TurnCompleted || to.log.last().event is TurnAborted,
        to.log.last().event is TurnCompleted ==> answered == texts.len()
            && to.log.last().event->TurnCompleted_turn_id == rules.turn.turn_id,
        to.log.last().event is TurnAborted ==> to.log.last().event->TurnAborted_turn_id
            == rules.turn.turn_id,
{
    let (stands, failed, close) = choose|
        stands: Seq<Standing>,
        failed: Option<(Standing, ErrorView)>,
        close: TurnClose,
    |
        #[trigger] is_turn_from(rules, texts, stands, failed, close, to) && stands[0] == begun
            && answered == stands.len() - 1;
    when_a_turn_is_completed(rules, texts, stands, failed, close, to);
}

} // verus!
