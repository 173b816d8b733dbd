//! One user message, answered by a chat model that may call tools: sample, run the
//! calls, give their results back, and sample again until the model answers in
//! text.
use vstd::prelude::*;
use crate::history::{
    entry_of, history_closed, history_entries, ids_of, lemma_closed_push, lemma_owed_push,
    owed_after, OverflowRecovery,
};
use crate::hooks::{
    bumped, hook_round, hook_rules, hooks_idle, ran_hooks, rounds_in, sequence_of, Decision,
    HookContext, HookPoint, HookRegistry, HookRules,
};
use crate::json::{json_document, json_text, member_of, Json, JsonView};
use crate::loop_guard::{
    a_reminder_keeps_the_result, counted, judge, loop_error, loop_verdict, rejected_by_guard,
    reminded, with_reminder, CallTracker, LoopGuard, LoopVerdict,
};
use crate::model_provider::{
    calls_message, calls_view, copy_calls, messages_view, plain_message, result_message, CallView,
    ChatMessage, ChatModel, ChatReply, MessageView, ToolCallRequest,
};
use crate::protocol::{
    copy_texts, error, failure_of, outcome_json, ErrorCode, ErrorEnvelope, ErrorView, Event,
    ModelCallSpec, ModelToolCall, OutcomeView, ToolOutcome,
};
use crate::result_guard::{guard_tool_result, ToolResultMiddleware};
use crate::sampling::{
    a_reply_is_what_the_model_gave, is_sampling, model_rules, replied_to, sample, Sampling,
};
use crate::session::{
    added, extends, lemma_extends_push, lemma_extends_refl, lemma_extends_trans, lemma_kept_push,
    lemma_kept_trans, lemma_pair_kept, recorded, Handed, SessionStore, StoredEvents,
};
use crate::text::{concat2, concat3, concat4, decimal, decimal_of, views};
use crate::token_meter::total_chars;
use crate::tools::{dispatched, runs_of, ToolAudit, ToolDispatcher, ToolExecution};
use crate::turn_trace::{
    all_passed, answer_marks, answered_as, argument_chars, audit_marks, audits_of, batch_as,
    batch_mark, batch_view, begins_turn, call_marks, closed_marks, closed_messages, content_chars,
    fresh_tracker, heard, is_batch, is_broken, is_broken_batch, is_chat_turn, is_round, is_taken,
    lemma_next_round, lemma_next_run, lemma_no_runs, lemma_wrote_both, lemma_wrote_nothing,
    lemma_wrote_push, mark, marks, next_sequence, passes_of, refused_as, reply_marks, reply_of,
    reply_tokens, reply_view, run_failure, run_fits, runs_fit, runs_marks, runs_messages,
    sample_marks, sequence_after, taken_as, tool_fits, tracker_after, unrecorded_marks, use_error,
    use_failure, used_mark, wrote, ChatRules,
    Mark, ReplyView, Standing, ToolRun, TurnEnd, TurnPoint, TurnRules,
};
use crate::usage::{
    is_neutral, lemma_calls_leave_ledger, lemma_ledger_push, lemma_step_push, lemma_step_refl,
    lemma_step_trans, record_usage, sample_tokens, session_replay_error, step_ok, usage_error,
};
use crate::usage_id::{sample_usage_id, usage_id_of};

verus! {

broadcast use vstd::string::group_string_axioms;

/// Events of components beside the loop, which the loop writes to the session.
pub trait EventSource {
    /// The source gives neutral events only: no calls, no results, nothing of a
    /// turn's frame and nothing of the budget.
    spec fn benign(&self) -> bool;

    fn drain_events(&self) -> (r: Vec<Event>)
        ensures
            self.benign() ==> forall|i: int| 0 <= i < r@.len() ==> is_neutral(#[trigger] r@[i]),
    ;
}

/// The source of a loop with nothing beside it.
pub struct NoEvents;

impl EventSource for NoEvents {
    open spec fn benign(&self) -> bool {
        true
    }

    fn drain_events(&self) -> (r: Vec<Event>)
        ensures
            r@.len() == 0,
    {
        Vec::new()
    }
}

pub open spec fn source_benign(source: Option<&dyn EventSource>) -> bool {
    match source {
        None => true,
        Some(s) => s.benign(),
    }
}

/// How a chat turn samples and runs tools.
pub struct ChatTurnConfig<'a> {
    /// The position of the message in its turn.
    pub message: u64,
    pub spec: &'a ModelCallSpec,
    pub tool_definitions: Option<&'a Json>,
    pub max_tool_rounds: u32,
    pub external_events: Option<&'a dyn EventSource>,
    pub overflow_recovery: Option<OverflowRecovery<'a>>,
    pub agent_path: &'a Vec<String>,
    pub loop_guard: Option<LoopGuard>,
    pub result_middleware: Option<&'a dyn ToolResultMiddleware>,
}

/// What a trace needs to know of a turn.
pub open spec fn rules_of<D: ToolDispatcher + ?Sized>(
    cfg: ChatTurnConfig,
    tools: &D,
    turn_id: u64,
    hooks: HookRules,
) -> TurnRules {
    TurnRules {
        turn_id,
        message: cfg.message as nat,
        limit: cfg.max_tool_rounds as nat,
        path: views(cfg.agent_path@),
        guard: cfg.loop_guard,
        runs: runs_of(tools),
        passes: passes_of(cfg.result_middleware, tools),
        hooks,
    }
}

// ---------------------------------------------------------------------------
// Hooks
// ---------------------------------------------------------------------------

/// Runs the hooks of a context, where there are hooks.
pub fn execute_hook<S: SessionStore>(
    hooks: &mut Option<HookRegistry>,
    context: &HookContext,
    session: &mut S,
) -> (r: Result<(), ErrorEnvelope>)
    ensures
        final(session).intact() ==> old(session).intact(),
        step_ok(true, final(session).intact(), old(session).events(), final(session).events()),
        *old(hooks) is None ==> r is Ok && final(session).events() == old(session).events(),
        *final(hooks) is Some <==> *old(hooks) is Some,
        hook_rules(*final(hooks)) == hook_rules(*old(hooks)),
        hooks_idle(*old(hooks)) ==> hooks_idle(*final(hooks)),
        *old(hooks) is None ==> final(session).handed() == old(session).handed(),
        extends(old(session).handed(), final(session).handed()),
        hooks_idle(*old(hooks)) ==> {
            let events = added(old(session).handed(), final(session).handed());
            &&& ran_hooks(
                hook_rules(*old(hooks)),
                context@,
                sequence_of(*old(hooks)),
                events,
                failure_of(r),
            )
            &&& sequence_of(*final(hooks)) == bumped(
                sequence_of(*old(hooks)),
                rounds_in(events),
            )
        },
{
    let ghost start = session.events();
    let ghost start_h = session.handed();
    proof {
        reveal(hook_rules);
        lemma_step_refl(true, session.intact(), start);
        lemma_extends_refl(session.handed());
    }
    match hooks {
        None => Ok(()),
        Some(registry) => {
            let ghost known = *registry;
            let result = registry.execute(context, session);
            proof {
                lemma_calls_leave_ledger(start, session.events());
                reveal(hook_rules);
                assert(hook_rules(Some(*registry)) =~= hook_rules(Some(known)));
                if !known.in_round() {
                    let rules = hook_rules(Some(known));
                    let p = context@.point;
                    let events = added(start_h, session.handed());
                    let failure = failure_of(result);
                    let ds = choose|ds: Seq<Decision>|
                        hook_round(
                            known.hooks_at(p),
                            known.requires_point(p),
                            context@,
                            known.next_sequence(),
                            ds,
                            events,
                            failure,
                        );
                    assert(hook_round(
                        rules.hooks[p],
                        rules.required.contains(p),
                        context@,
                        known.next_sequence(),
                        ds,
                        events,
                        failure,
                    ));
                }
            }
            result
        },
    }
}

// ---------------------------------------------------------------------------
// Input that came while a turn ran
// ---------------------------------------------------------------------------

/// The texts that were queued in `log` from position `from` on.
pub open spec fn queued_texts(log: Seq<Event>, from: int) -> Seq<Seq<char>>
    decreases log.len(),
{
    if log.len() <= from || log.len() == 0 {
        Seq::empty()
    } else {
        let before = queued_texts(log.drop_last(), from);
        match log.last() {
            Event::UserInputQueued { text } => before.push(text@),
            _ => before,
        }
    }
}

/// The messages of a list of user texts.
pub open spec fn user_messages(texts: Seq<Seq<char>>) -> Seq<MessageView> {
    texts.map_values(|t: Seq<char>| plain_message("user"@, t))
}

proof fn lemma_closed_users(h: Seq<MessageView>, texts: Seq<Seq<char>>)
    requires
        history_closed(h),
    ensures
        history_closed(h + user_messages(texts)),
    decreases texts.len(),
{
    if texts.len() == 0 {
        assert(h + user_messages(texts) =~= h);
    } else {
        lemma_closed_users(h, texts.drop_last());
        let before = h + user_messages(texts.drop_last());
        let m = plain_message("user"@, texts.last());
        lemma_closed_push(before, m);
        assert(h + user_messages(texts) =~= before.push(m));
    }
}

/// Puts the input that was queued since `cursor` into the conversation.
pub fn absorb_queued_inputs<S: SessionStore>(
    session: &S,
    cursor: &mut u64,
    history: &mut Vec<ChatMessage>,
) -> (r: Result<(), ErrorEnvelope>)
    ensures
        r is Ok,
        *final(cursor) == session.events().len(),
        messages_view(final(history)@) == messages_view(old(history)@) + user_messages(
            queued_texts(session.events(), *old(cursor) as int),
        ),
        history_closed(messages_view(old(history)@)) ==> history_closed(
            messages_view(final(history)@),
        ),
{
    let records = match session.replay_events() {
        Err(e) => {
            return Err(session_replay_error(&e));
        },
        Ok(records) => records,
    };
    let ghost log = session.events();
    let ghost from = *cursor as int;
    let ghost h0 = messages_view(history@);
    let mut i: usize = 0;
    assert(log.take(0) =~= Seq::<Event>::empty());
    assert(h0 + user_messages(queued_texts(log.take(0), from)) =~= h0);
    while i < records.len()
        invariant
            i <= records@.len(),
            recorded(records@) == log,
            from == *cursor,
            messages_view(history@) == h0 + user_messages(queued_texts(log.take(i as int), from)),
        decreases records@.len() - i,
    {
        let ghost head = log.take(i as int);
        let ghost next = log.take(i + 1);
        proof {
            assert(log.len() == records@.len());
            assert(next.drop_last() =~= head);
            assert(next.last() == records@[i as int].event);
        }
        let ghost before = history@;
        if i as u64 >= *cursor {
            match &records[i].event {
                Event::UserInputQueued { text } => {
                    let message = ChatMessage::user(text.clone());
                    history.push(message);
                    proof {
                        assert(messages_view(history@) =~= messages_view(before).push(message@));
                        let texts = queued_texts(head, from);
                        assert(queued_texts(next, from) == texts.push(text@));
                        assert(user_messages(texts.push(text@)) =~= user_messages(texts).push(
                            message@,
                        ));
                        assert(messages_view(history@) =~= h0 + user_messages(
                            queued_texts(next, from),
                        ));
                    }
                },
                _ => {
                    assert(queued_texts(next, from) == queued_texts(head, from));
                },
            }
        } else {
            proof {
                assert(queued_texts(next, from) =~= Seq::<Seq<char>>::empty());
                assert(queued_texts(head, from) =~= Seq::<Seq<char>>::empty());
            }
        }
        i = i + 1;
    }
    proof {
        assert(log.take(i as int) =~= log);
        if history_closed(h0) {
            lemma_closed_users(h0, queued_texts(log, from));
        }
    }
    *cursor = records.len() as u64;
    Ok(())
}

// ---------------------------------------------------------------------------
// Tool calls
// ---------------------------------------------------------------------------

/// The arguments of a call as they are recorded: the JSON value, or the text where
/// it is no JSON.
pub open spec fn recorded_args(text: Seq<char>) -> JsonView {
    match json_document(text) {
        Ok(j) => j,
        Err(_) => JsonView::Text(text),
    }
}

/// What a model is told of a call whose arguments are no JSON.
pub open spec fn bad_arguments(detail: Seq<char>) -> OutcomeView {
    OutcomeView::Failure {
        error: error(ErrorCode::ToolArgsInvalid, "tool arguments 不是合法 JSON: "@ + detail),
    }
}

pub open spec fn unknown_tool(name: Seq<char>) -> OutcomeView {
    OutcomeView::Failure { error: error(ErrorCode::ToolArgsInvalid, "unknown tool: "@ + name) }
}

/// What a model is told of a call that was not run because an earlier one failed.
pub open spec fn not_executed(code: ErrorCode) -> OutcomeView {
    OutcomeView::Failure {
        error: error(
            code,
            "tool was not executed because an earlier call in the batch failed"@,
        ),
    }
}

/// The message that gives a result to the model.
pub open spec fn outcome_message(call_id: Seq<char>, o: OutcomeView) -> MessageView {
    result_message(call_id, json_text(outcome_json(o)))
}

/// `events` record the result `o` of the call `call_id`.
pub open spec fn records_result(events: Seq<Event>, call_id: Seq<char>, o: OutcomeView) -> bool {
    exists|i: int|
        0 <= i < events.len() && ((#[trigger] events[i]) matches Event::ToolResultAdded {
            call_id: id,
            outcome,
        } && id@ == call_id && outcome@ == o)
}

fn result_text(outcome: &ToolOutcome) -> (r: String)
    ensures
        r@ == json_text(outcome_json(outcome@)),
{
    outcome.to_json().render()
}

/// Records what a run of a tool left to record.
fn record_audits<S: SessionStore>(session: &mut S, call_id: &str, audits: &Vec<ToolAudit>)
    ensures
        final(session).intact() ==> old(session).intact(),
        step_ok(true, final(session).intact(), old(session).events(), final(session).events()),
        wrote(
            old(session).handed(),
            final(session).handed(),
            audit_marks(call_id@, audits@),
        ),
{
    let ghost start = session.events();
    let ghost start_h = session.handed();
    let ghost all = audit_marks(call_id@, audits@);
    proof {
        lemma_step_refl(true, session.intact(), start);
        lemma_wrote_nothing(start_h);
        assert(all.take(0) =~= Seq::<Mark>::empty());
    }
    let mut i: usize = 0;
    while i < audits.len()
        invariant
            i <= audits@.len(),
            session.intact() ==> old(session).intact(),
            step_ok(true, session.intact(), start, session.events()),
            all == audit_marks(call_id@, audits@),
            wrote(start_h, session.handed(), all.take(i as int)),
        decreases audits@.len() - i,
    {
        let event = match &audits[i] {
            ToolAudit::ApprovalDecided { approved } => Event::ApprovalDecided {
                call_id: call_id.to_owned(),
                approved: *approved,
                authorization: None,
            },
            ToolAudit::MemoryRecorded { text, tags, .. } => Event::MemoryRecorded {
                memory_id: concat3(call_id, "-memory-", &decimal_of(i as u64)),
                text: text.clone(),
                tags: copy_texts(tags),
            },
        };
        proof {
            lemma_step_push(true, session.intact(), start, session.events(), event);
            assert(mark(event) == all[i as int]);
            assert(all.take(i + 1) =~= all.take(i as int).push(all[i as int]));
        }
        let ghost log = session.handed();
        let _ = session.append(event);
        proof {
            lemma_wrote_push(start_h, log, all.take(i as int), session.handed().last());
        }
        i = i + 1;
    }
    assert(all.take(i as int) =~= all);
}

/// The outcome that a call has without running a tool, as far as the call and the
/// guard decide it.
pub open spec fn settled_outcome(call: CallView, guard: Option<LoopGuard>, count: int) -> Option<
    OutcomeView,
> {
    match json_document(call.arguments) {
        Err(detail) => Some(bad_arguments(detail)),
        Ok(_) => if loop_verdict(guard, count) == LoopVerdict::Reject {
            Some(OutcomeView::Failure { error: loop_error(count) })
        } else {
            None
        },
    }
}

/// What a model is shown of a run of a tool, before the result guard: the outcome,
/// with a reminder where the loop guard asks for one, or that there is no such
/// tool.
pub open spec fn executed(
    name: Seq<char>,
    execution: Option<ToolExecution>,
    verdict: LoopVerdict,
    count: int,
) -> OutcomeView {
    match execution {
        None => unknown_tool(name),
        Some(x) => if verdict == LoopVerdict::Remind {
            reminded(x.outcome@, count)
        } else {
            x.outcome@
        },
    }
}

pub fn execution_outcome(
    name: &str,
    execution: Option<ToolExecution>,
    verdict: LoopVerdict,
    count: u64,
) -> (r: (ToolOutcome, Vec<ToolAudit>))
    ensures
        r.0@ == executed(name@, execution, verdict, count as int),
        match execution {
            Some(x) => r.1 == x.audits,
            None => r.1@.len() == 0,
        },
{
    match execution {
        None => (
            ToolOutcome::Failure {
                error: ErrorEnvelope::new(
                    ErrorCode::ToolArgsInvalid,
                    concat2("unknown tool: ", name),
                ),
            },
            Vec::new(),
        ),
        Some(x) => {
            if verdict == LoopVerdict::Remind {
                (with_reminder(x.outcome, count), x.audits)
            } else {
                (x.outcome, x.audits)
            }
        },
    }
}

/// Runs one call: the request is recorded first, the result comes last, and the
/// model is told exactly what was recorded.
#[verifier::rlimit(40)]
fn run_call<S: SessionStore, D: ToolDispatcher + ?Sized>(
    session: &mut S,
    registry: &D,
    cfg: &ChatTurnConfig,
    hooks: &mut Option<HookRegistry>,
    guard: &mut CallTracker,
    history: &mut Vec<ChatMessage>,
    turn_id: u64,
    call: &ToolCallRequest,
) -> (r: Result<(), ErrorEnvelope>)
    ensures
        final(session).intact() ==> old(session).intact(),
        step_ok(true, final(session).intact(), old(session).events(), final(session).events()),
        final(history)@.len() == old(history)@.len() + 1,
        messages_view(final(history)@).drop_last() == messages_view(old(history)@),
        exists|o: OutcomeView|
            {
                &&& messages_view(final(history)@).last() == #[trigger] outcome_message(
                    call.id@,
                    o,
                )
                &&& final(session).intact() ==> records_result(
                    added(old(session).events(), final(session).events()),
                    call.id@,
                    o,
                )
                &&& *old(hooks) is None ==> (settled_outcome(
                    call@,
                    cfg.loop_guard,
                    final(guard)@.count as int,
                ) matches Some(known) ==> o == known)
            },
        *old(hooks) is None ==> *final(hooks) is None,
        *old(hooks) is None ==> r is Ok,
        *old(hooks) is None ==> final(guard)@ == counted(
            old(guard)@,
            call.name@,
            json_text(recorded_args(call.arguments@)),
        ),
        hook_rules(*final(hooks)) == hook_rules(*old(hooks)),
        hooks_idle(*old(hooks)) ==> hooks_idle(*final(hooks)),
        hooks_idle(*old(hooks)) ==> exists|run: ToolRun|
            {
                &&& #[trigger] run_fits(
                    rules_of(*cfg, registry, turn_id, hook_rules(*old(hooks))),
                    call@,
                    final(guard)@.count as int,
                    sequence_of(*old(hooks)),
                    run,
                )
                &&& wrote(old(session).handed(), final(session).handed(), call_marks(call@, run))
                &&& messages_view(final(history)@).last() == outcome_message(call.id@, run.shown)
                &&& failure_of(r) == run_failure(run)
                &&& sequence_of(*final(hooks)) == next_sequence(sequence_of(*old(hooks)), run)
                &&& run.denied is None ==> final(guard)@ == counted(
                    old(guard)@,
                    call.name@,
                    json_text(recorded_args(call.arguments@)),
                )
            },
{
    let ghost start = session.events();
    let ghost start_h = session.handed();
    let ghost h0 = messages_view(history@);
    let ghost idle = hooks_idle(*hooks);
    let ghost rules = rules_of(*cfg, registry, turn_id, hook_rules(*hooks));
    let ghost seq0 = sequence_of(*hooks);
    let parsed = Json::parse(&call.arguments);
    let (args, refused): (Json, Option<String>) = match parsed {
        Ok(value) => (value, None),
        Err(e) => (Json::Text(call.arguments.clone()), Some(e)),
    };
    assert(args@ == recorded_args(call.arguments@));
    let request = Event::ToolCallRequested {
        call_id: call.id.clone(),
        tool: call.name.clone(),
        args: args.clone(),
    };
    let _ = session.append(request);
    let ghost log1 = session.events();
    let ghost handed1 = session.handed();
    proof {
        lemma_extends_refl(start);
        lemma_kept_push(start, start, request);
        lemma_ledger_push(start, request);
        lemma_step_refl(true, session.intact(), log1);
        lemma_wrote_nothing(start_h);
        lemma_wrote_push(start_h, start_h, Seq::empty(), handed1.last());
    }
    let ghost first = Seq::<Mark>::empty().push(mark(request));
    let pre = HookContext::tool(HookPoint::PreToolUse, Some(turn_id), &call.id, &call.name, None);
    match execute_hook(hooks, &pre, session) {
        Ok(()) => {},
        Err(e) => {
            let ghost log2 = session.events();
            let ghost handed2 = session.handed();
            let outcome = ToolOutcome::Failure { error: e.clone() };
            let ghost o = outcome@;
            let text = result_text(&outcome);
            let answer = Event::ToolResultAdded { call_id: call.id.clone(), outcome };
            let _ = session.append(answer);
            let message = ChatMessage::tool_result(call.id.clone(), text);
            history.push(message);
            proof {
                lemma_call_done(start, request, log1, log2, answer, session.events(), session.intact());
                assert(messages_view(history@) =~= h0.push(message@));
                assert(messages_view(history@).drop_last() =~= h0);
                assert(messages_view(history@).last() == outcome_message(call.id@, o));
                if session.intact() {
                    lemma_result_recorded(start, log2, answer, call.id@, o);
                }
                if idle {
                    let run = ToolRun {
                        before: added(handed1, handed2),
                        denied: Some(e@),
                        execution: None,
                        shown: o,
                        after: Seq::empty(),
                        stopped: None,
                    };
                    lemma_wrote_both(start_h, handed1, handed2, first, marks(run.before));
                    lemma_wrote_push(
                        start_h,
                        handed2,
                        first + marks(run.before),
                        session.handed().last(),
                    );
                    assert((first + marks(run.before)).push(mark(answer)) =~= call_marks(
                        call@,
                        run,
                    ));
                    reveal(run_fits);
                    assert(run_fits(rules, call@, guard@.count as int, seq0, run));
                }
            }
            return Err(e);
        },
    }
    let ghost log2 = session.events();
    let ghost handed2 = session.handed();
    let args_text = args.render();
    let count: u64 = guard.note(&call.name, &args_text);
    let verdict = judge(cfg.loop_guard, count);
    let ghost mut ran: Option<Option<ToolExecution>> = None;
    let (outcome, audits): (ToolOutcome, Vec<ToolAudit>) = match refused {
        Some(detail) => (
            ToolOutcome::Failure {
                error: ErrorEnvelope::new(
                    ErrorCode::ToolArgsInvalid,
                    concat2("tool arguments 不是合法 JSON: ", &detail),
                ),
            },
            Vec::new(),
        ),
        None => {
            if verdict == LoopVerdict::Reject {
                (rejected_by_guard(count), Vec::new())
            } else {
                let name = call.name.as_str();
                let execution = registry.dispatch_with_audit(name, &args);
                let known = execution.is_some();
                proof {
                    ran = Some(execution);
                    assert(dispatched(registry, name, &args, execution));
                    assert((rules.runs)(call.name@, recorded_args(call.arguments@), execution));
                }
                let (shown, audits) = execution_outcome(&call.name, execution, verdict, count);
                if known {
                    let passed = guard_tool_result(
                        cfg.result_middleware,
                        registry,
                        &call.id,
                        &call.name,
                        shown,
                    );
                    (passed, audits)
                } else {
                    (shown, audits)
                }
            }
        },
    };
    record_audits(session, &call.id, &audits);
    let ghost log3 = session.events();
    let ghost handed3 = session.handed();
    let ghost o = outcome@;
    let ghost draft = ToolRun {
        before: added(handed1, handed2),
        denied: None,
        execution: ran,
        shown: o,
        after: Seq::empty(),
        stopped: None,
    };
    let ghost so_far = first + marks(draft.before) + audit_marks(call.id@, audits@);
    proof {
        lemma_step_trans(true, session.intact(), log1, log2, log3);
        assert(audits@ == audits_of(draft));
        assert(tool_fits(rules, call@, count as int, draft));
        if idle {
            lemma_wrote_both(start_h, handed1, handed2, first, marks(draft.before));
            lemma_wrote_both(
                start_h,
                handed2,
                handed3,
                first + marks(draft.before),
                audit_marks(call.id@, audits@),
            );
        }
    }
    let text = result_text(&outcome);
    let answer = Event::ToolResultAdded { call_id: call.id.clone(), outcome: outcome.clone() };
    let _ = session.append(answer);
    let ghost log4 = session.events();
    let ghost handed4 = session.handed();
    let message = ChatMessage::tool_result(call.id.clone(), text);
    history.push(message);
    proof {
        lemma_call_done(start, request, log1, log3, answer, log4, session.intact());
        assert(messages_view(history@) =~= h0.push(message@));
        assert(messages_view(history@).drop_last() =~= h0);
        assert(messages_view(history@).last() == outcome_message(call.id@, o));
        if session.intact() {
            lemma_result_recorded(start, log3, answer, call.id@, o);
        }
    }
    let post = HookContext::tool(
        HookPoint::PostToolUse,
        Some(turn_id),
        &call.id,
        &call.name,
        Some(outcome),
    );
    let done = execute_hook(hooks, &post, session);
    proof {
        if idle {
            let handed5 = session.handed();
            let run = ToolRun {
                after: added(handed4, handed5),
                stopped: failure_of(done),
                ..draft
            };
            lemma_wrote_push(start_h, handed3, so_far, handed4.last());
            lemma_wrote_both(
                start_h,
                handed4,
                handed5,
                so_far.push(mark(answer)),
                marks(run.after),
            );
            assert(so_far.push(mark(answer)) + marks(run.after) =~= call_marks(call@, run));
            reveal(run_fits);
            assert(run_fits(rules, call@, count as int, seq0, run));
        }
        lemma_step_trans(true, session.intact(), start, log4, session.events());
        if session.intact() {
            lemma_result_stays(start, log4, session.events(), call.id@, o);
        }
    }
    done
}

proof fn lemma_call_done(
    start: Seq<Event>,
    request: Event,
    log1: Seq<Event>,
    log2: Seq<Event>,
    answer: Event,
    log3: Seq<Event>,
    intact: bool,
)
    requires
        request is ToolCallRequested,
        answer is ToolResultAdded,
        request->ToolCallRequested_call_id@ == answer->ToolResultAdded_call_id@,
        log1 == start || log1 == start.push(request),
        intact ==> log1 == start.push(request),
        step_ok(true, intact, log1, log2),
        log3 == log2 || log3 == log2.push(answer),
        intact ==> log3 == log2.push(answer),
    ensures
        step_ok(true, intact, start, log3),
        extends(start, log2),
{
    lemma_extends_refl(start);
    lemma_kept_push(start, start, request);
    lemma_ledger_push(start, request);
    lemma_kept_trans(start, log1, log2);
    lemma_kept_push(start, log2, answer);
    lemma_ledger_push(log2, answer);
    if intact {
        lemma_pair_kept(start, request, log2, answer);
    }
}

proof fn lemma_result_recorded(
    start: Seq<Event>,
    log: Seq<Event>,
    answer: Event,
    call_id: Seq<char>,
    o: OutcomeView,
)
    requires
        extends(start, log),
        answer matches Event::ToolResultAdded { call_id: id, outcome } && id@ == call_id && outcome@
            == o,
    ensures
        records_result(added(start, log.push(answer)), call_id, o),
{
    lemma_extends_push(start, log, answer);
    let events = added(start, log.push(answer));
    assert(events[events.len() - 1] == answer);
}

proof fn lemma_result_stays(
    start: Seq<Event>,
    log: Seq<Event>,
    later: Seq<Event>,
    call_id: Seq<char>,
    o: OutcomeView,
)
    requires
        extends(start, log),
        extends(log, later),
        records_result(added(start, log), call_id, o),
    ensures
        records_result(added(start, later), call_id, o),
{
    lemma_extends_trans(start, log, later);
    let events = added(start, log);
    let i = choose|i: int|
        0 <= i < events.len() && ((#[trigger] events[i]) matches Event::ToolResultAdded {
            call_id: id,
            outcome,
        } && id@ == call_id && outcome@ == o);
    assert(added(start, later)[i] == events[i]);
}

/// `messages` give one result to each of `calls`, in order.
pub open spec fn answers_calls(messages: Seq<MessageView>, calls: Seq<CallView>) -> bool {
    &&& messages.len() == calls.len()
    &&& forall|i: int|
        0 <= i < calls.len() ==> (#[trigger] messages[i]) == result_message(
            calls[i].id,
            messages[i].content,
        )
}

/// Answers the calls from `from` on without running them, and records that.
fn close_unexecuted_model_calls<S: SessionStore>(
    session: &mut S,
    history: &mut Vec<ChatMessage>,
    calls: &Vec<ToolCallRequest>,
    from: usize,
    cause: &ErrorEnvelope,
)
    requires
        from <= calls@.len(),
    ensures
        final(session).intact() ==> old(session).intact(),
        step_ok(true, final(session).intact(), old(session).events(), final(session).events()),
        messages_view(final(history)@) == messages_view(old(history)@) + Seq::new(
            (calls@.len() - from) as nat,
            |i: int| outcome_message(calls@[from + i].id@, not_executed(cause.code)),
        ),
        wrote(
            old(session).handed(),
            final(session).handed(),
            closed_marks(calls_view(calls@), from as nat, calls@.len(), cause.code),
        ),
{
    let ghost start = session.events();
    let ghost start_h = session.handed();
    let ghost h0 = messages_view(history@);
    let ghost target = Seq::new(
        (calls@.len() - from) as nat,
        |i: int| outcome_message(calls@[from + i].id@, not_executed(cause.code)),
    );
    proof {
        lemma_step_refl(true, session.intact(), start);
        assert(h0 + target.take(0) =~= h0);
        lemma_wrote_nothing(start_h);
    }
    let mut i: usize = from;
    while i < calls.len()
        invariant
            from <= i <= calls@.len(),
            session.intact() ==> old(session).intact(),
            step_ok(true, session.intact(), start, session.events()),
            target == Seq::new(
                (calls@.len() - from) as nat,
                |i: int| outcome_message(calls@[from + i].id@, not_executed(cause.code)),
            ),
            messages_view(history@) == h0 + target.take(i - from),
            wrote(
                start_h,
                session.handed(),
                closed_marks(calls_view(calls@), from as nat, i as nat, cause.code),
            ),
        decreases calls@.len() - i,
    {
        let ghost log0 = session.events();
        let ghost handed0 = session.handed();
        let ghost before = history@;
        let args = match Json::parse(&calls[i].arguments) {
            Ok(value) => value,
            Err(_) => Json::Text(calls[i].arguments.clone()),
        };
        let request = Event::ToolCallRequested {
            call_id: calls[i].id.clone(),
            tool: calls[i].name.clone(),
            args,
        };
        let _ = session.append(request);
        let ghost log1 = session.events();
        let ghost handed1 = session.handed();
        let outcome = ToolOutcome::Failure {
            error: ErrorEnvelope::of(
                cause.code,
                "tool was not executed because an earlier call in the batch failed",
            ),
        };
        let text = result_text(&outcome);
        let answer = Event::ToolResultAdded { call_id: calls[i].id.clone(), outcome };
        let _ = session.append(answer);
        let message = ChatMessage::tool_result(calls[i].id.clone(), text);
        history.push(message);
        proof {
            let said = closed_marks(calls_view(calls@), from as nat, i as nat, cause.code);
            lemma_wrote_push(start_h, handed0, said, handed1.last());
            lemma_wrote_push(start_h, handed1, said.push(mark(request)), session.handed().last());
            assert(calls_view(calls@)[i as int] == calls@[i as int]@);
            assert(said.push(mark(request)).push(mark(answer)) =~= closed_marks(
                calls_view(calls@),
                from as nat,
                (i + 1) as nat,
                cause.code,
            ));
            lemma_step_refl(true, session.intact(), log1);
            lemma_call_done(
                log0,
                request,
                log1,
                log1,
                answer,
                session.events(),
                session.intact(),
            );
            lemma_step_trans(true, session.intact(), start, log0, session.events());
            assert(messages_view(history@) =~= messages_view(before).push(message@));
            assert(target[i - from] == message@);
            assert(target.take(i + 1 - from) =~= target.take(i - from).push(message@));
            assert(messages_view(history@) =~= h0 + target.take(i + 1 - from));
        }
        i = i + 1;
    }
    assert(target.take(i - from) =~= target);
}

fn batch_of(calls: &Vec<ToolCallRequest>) -> (r: Vec<ModelToolCall>)
    ensures
        r@.len() == calls@.len(),
        forall|i: int|
            0 <= i < calls@.len() ==> (#[trigger] r@[i]).id == calls@[i].id && r@[i].name
                == calls@[i].name && r@[i].arguments == calls@[i].arguments,
{
    let mut r: Vec<ModelToolCall> = Vec::new();
    let mut i: usize = 0;
    while i < calls.len()
        invariant
            i <= calls@.len(),
            r@.len() == i,
            forall|k: int|
                0 <= k < i ==> (#[trigger] r@[k]).id == calls@[k].id && r@[k].name
                    == calls@[k].name && r@[k].arguments == calls@[k].arguments,
        decreases calls@.len() - i,
    {
        r.push(
            ModelToolCall {
                id: calls[i].id.clone(),
                name: calls[i].name.clone(),
                arguments: calls[i].arguments.clone(),
            },
        );
        i = i + 1;
    }
    r
}

/// Runs the calls of one reply. Whatever happens, the conversation gets the calls
/// and then one result for each of them.
fn run_batch<S: SessionStore, D: ToolDispatcher + ?Sized>(
    session: &mut S,
    registry: &D,
    cfg: &ChatTurnConfig,
    hooks: &mut Option<HookRegistry>,
    guard: &mut CallTracker,
    history: &mut Vec<ChatMessage>,
    turn_id: u64,
    round: u32,
    calls: &Vec<ToolCallRequest>,
) -> (r: Result<(), ErrorEnvelope>)
    ensures
        final(session).intact() ==> old(session).intact(),
        step_ok(true, final(session).intact(), old(session).events(), final(session).events()),
        *old(hooks) is None ==> *final(hooks) is None && r is Ok,
        exists|results: Seq<MessageView>|
            {
                &&& #[trigger] answers_calls(results, calls_view(calls@))
                &&& messages_view(final(history)@) == messages_view(old(history)@).push(
                    calls_message(calls_view(calls@)),
                ) + results
            },
        history_closed(messages_view(old(history)@)) ==> history_closed(
            messages_view(final(history)@),
        ),
        hook_rules(*final(hooks)) == hook_rules(*old(hooks)),
        hooks_idle(*old(hooks)) ==> hooks_idle(*final(hooks)),
        hooks_idle(*old(hooks)) ==> {
            let rules = rules_of(*cfg, registry, turn_id, hook_rules(*old(hooks)));
            let p = TurnPoint {
                log: old(session).handed(),
                history: messages_view(old(history)@),
                tracker: old(guard)@,
                cursor: 0,
                sequence: sequence_of(*old(hooks)),
            };
            let q = TurnPoint {
                log: final(session).handed(),
                history: messages_view(final(history)@),
                tracker: final(guard)@,
                cursor: 0,
                sequence: sequence_of(*final(hooks)),
            };
            batch_as(
                rules,
                round as nat,
                calls_view(calls@),
                p,
                q,
                failure_of(r),
            )
        },
{
    let ghost start = session.events();
    let ghost start_h = session.handed();
    let ghost h0 = messages_view(history@);
    let ghost cs = calls_view(calls@);
    let ghost idle = hooks_idle(*hooks);
    let ghost rules = rules_of(*cfg, registry, turn_id, hook_rules(*hooks));
    let ghost seq0 = sequence_of(*hooks);
    let ghost t0 = guard@;
    let ghost p = TurnPoint { log: start_h, history: h0, tracker: t0, cursor: 0, sequence: seq0 };
    let ghost head = seq![batch_mark(rules, round as nat, cs)];
    let ghost mut runs: Seq<ToolRun> = Seq::empty();
    let request_id = concat4("turn-", &decimal_of(turn_id), "-round-", &decimal_of(round as u64));
    let batch = Event::ModelToolCallsRequested { request_id, calls: batch_of(calls) };
    proof {
        lemma_step_refl(true, session.intact(), start);
        lemma_step_push(true, session.intact(), start, start, batch);
    }
    let _ = session.append(batch);
    let first = ChatMessage::assistant_with_tool_calls(copy_calls(calls));
    history.push(first);
    let ghost h1 = messages_view(history@);
    assert(h1 =~= h0.push(calls_message(cs)));
    proof {
        assert(batch_view(batch->ModelToolCallsRequested_calls@) =~= cs);
        lemma_wrote_nothing(start_h);
        lemma_wrote_push(start_h, start_h, Seq::empty(), session.handed().last());
        lemma_no_runs(rules, cs, t0, seq0);
        assert(Seq::<Mark>::empty().push(mark(batch)) =~= head + runs_marks(cs, runs));
        assert(h1 + runs_messages(cs, runs) =~= h1);
    }
    let ghost mut results: Seq<MessageView> = Seq::empty();
    assert(h1 + results =~= h1);
    let mut i: usize = 0;
    while i < calls.len()
        invariant
            i <= calls@.len(),
            session.intact() ==> old(session).intact(),
            step_ok(true, session.intact(), start, session.events()),
            cs == calls_view(calls@),
            h1 == h0.push(calls_message(cs)),
            messages_view(history@) == h1 + results,
            results.len() == i,
            forall|k: int|
                0 <= k < i ==> (#[trigger] results[k]) == result_message(
                    cs[k].id,
                    results[k].content,
                ),
            start == old(session).events(),
            start_h == old(session).handed(),
            h0 == messages_view(old(history)@),
            *old(hooks) is None ==> *hooks is None,
            idle == hooks_idle(*old(hooks)),
            hooks_idle(*old(hooks)) ==> hooks_idle(*hooks),
            hook_rules(*hooks) == hook_rules(*old(hooks)),
            rules == rules_of(*cfg, registry, turn_id, hook_rules(*old(hooks))),
            seq0 == sequence_of(*old(hooks)),
            t0 == old(guard)@,
            p == (TurnPoint { log: start_h, history: h0, tracker: t0, cursor: 0, sequence: seq0 }),
            head == seq![batch_mark(rules, round as nat, cs)],
            idle ==> {
                &&& runs.len() == i
                &&& runs_fit(rules, cs, t0, seq0, runs)
                &&& all_passed(runs)
                &&& sequence_of(*hooks) == sequence_after(seq0, runs, i as nat)
                &&& wrote(start_h, session.handed(), head + runs_marks(cs, runs))
                &&& messages_view(history@) == h1 + runs_messages(cs, runs)
                &&& guard@ == tracker_after(t0, cs, i as nat)
            },
        decreases calls@.len() - i,
    {
        let ghost log0 = session.events();
        let ghost handed0 = session.handed();
        let ghost hist0 = messages_view(history@);
        let done = run_call(session, registry, cfg, hooks, guard, history, turn_id, &calls[i]);
        proof {
            lemma_step_trans(true, session.intact(), start, log0, session.events());
            let hist1 = messages_view(history@);
            assert(cs[i as int].id == calls@[i as int].id@);
            assert(hist1 =~= hist0.push(hist1.last()));
            if idle {
                let call = cs[i as int];
                assert(call == calls@[i as int]@);
                let run = choose|run: ToolRun|
                    {
                        &&& #[trigger] run_fits(
                            rules,
                            call,
                            guard@.count as int,
                            sequence_after(seq0, runs, i as nat),
                            run,
                        )
                        &&& wrote(handed0, session.handed(), call_marks(call, run))
                        &&& hist1.last() == outcome_message(call.id, run.shown)
                        &&& failure_of(done) == run_failure(run)
                        &&& sequence_of(*hooks) == next_sequence(
                            sequence_after(seq0, runs, i as nat),
                            run,
                        )
                        &&& run.denied is None ==> guard@ == counted(
                            tracker_after(t0, cs, i as nat),
                            call.name,
                            json_text(recorded_args(call.arguments)),
                        )
                    };
                assert(run_fits(
                    rules,
                    call,
                    tracker_after(t0, cs, (i + 1) as nat).count as int,
                    sequence_after(seq0, runs, i as nat),
                    run,
                )) by {
                    reveal(run_fits);
                }
                lemma_next_run(rules, cs, t0, seq0, runs, run);
                lemma_wrote_both(
                    start_h,
                    handed0,
                    session.handed(),
                    head + runs_marks(cs, runs),
                    call_marks(call, run),
                );
                let more = runs.push(run);
                assert(head + runs_marks(cs, more) =~= head + runs_marks(cs, runs) + call_marks(
                    call,
                    run,
                ));
                assert(h1 + runs_messages(cs, more) =~= hist1);
                runs = more;
            }
            let next = results.push(hist1.last());
            assert(h1 + next =~= hist1);
            assert forall|k: int| 0 <= k < next.len() implies (#[trigger] next[k])
                == result_message(cs[k].id, next[k].content) by {
                if k < results.len() {
                    assert(next[k] == results[k]);
                }
            }
            results = next;
        }
        match done {
            Ok(()) => {},
            Err(e) => {
                let ghost log1 = session.events();
                let ghost handed1 = session.handed();
                close_unexecuted_model_calls(session, history, calls, i + 1, &e);
                proof {
                    lemma_step_trans(true, session.intact(), start, log1, session.events());
                    let rest = Seq::new(
                        (calls@.len() - (i + 1)) as nat,
                        |k: int| outcome_message(calls@[i + 1 + k].id@, not_executed(e.code)),
                    );
                    let all = results + rest;
                    assert(messages_view(history@) =~= h1 + all);
                    assert forall|k: int| 0 <= k < all.len() implies (#[trigger] all[k])
                        == result_message(cs[k].id, all[k].content) by {
                        if k < results.len() {
                            assert(all[k] == results[k]);
                        } else {
                            assert(cs[k].id == calls@[k].id@);
                            assert(all[k] == rest[k - results.len()]);
                        }
                    }
                    assert(answers_calls(all, cs));
                    if history_closed(h0) {
                        lemma_batch_closed(h0, cs, all);
                    }
                    if idle {
                        let n = runs.len();
                        let closed = closed_marks(cs, n, cs.len(), e.code);
                        lemma_wrote_both(
                            start_h,
                            handed1,
                            session.handed(),
                            head + runs_marks(cs, runs),
                            closed,
                        );
                        assert(rest =~= closed_messages(cs, n, e.code));
                        let q = TurnPoint {
                            log: session.handed(),
                            history: messages_view(history@),
                            tracker: guard@,
                            cursor: 0,
                            sequence: sequence_of(*hooks),
                        };
                        assert(h1 + runs_messages(cs, runs) == h1 + results);
                        assert(messages_view(history@) =~= h1 + runs_messages(cs, runs)
                            + closed_messages(cs, n, e.code));
                        assert(is_broken_batch(rules, round as nat, cs, runs, p, q, e@));
                    }
                }
                return Err(e);
            },
        }
        i = i + 1;
    }
    proof {
        assert(answers_calls(results, cs));
        if history_closed(h0) {
            lemma_batch_closed(h0, cs, results);
        }
        if idle {
            let q = TurnPoint {
                log: session.handed(),
                history: messages_view(history@),
                tracker: guard@,
                cursor: 0,
                sequence: sequence_of(*hooks),
            };
            assert(is_batch(rules, round as nat, cs, runs, p, q));
        }
    }
    Ok(())
}

/// A batch of calls with its results keeps a closed conversation closed.
pub proof fn lemma_batch_closed(h: Seq<MessageView>, calls: Seq<CallView>, results: Seq<MessageView>)
    requires
        history_closed(h),
        answers_calls(results, calls),
    ensures
        history_closed(h.push(calls_message(calls)) + results),
{
    let opened = h.push(calls_message(calls));
    assert(history_entries(opened) =~= history_entries(h).push(entry_of(calls_message(calls))));
    lemma_owed_push(Some(Seq::empty()), history_entries(h), entry_of(calls_message(calls)));
    assert(owed_after(Some(Seq::empty()), history_entries(opened)) == Some(ids_of(calls)));
    lemma_results_owed(opened, calls, results, results.len() as int);
    assert(results.take(results.len() as int) =~= results);
    assert(ids_of(calls).subrange(results.len() as int, calls.len() as int) =~= Seq::<
        Seq<char>,
    >::empty());
}

proof fn lemma_results_owed(
    opened: Seq<MessageView>,
    calls: Seq<CallView>,
    results: Seq<MessageView>,
    k: int,
)
    requires
        owed_after(Some(Seq::empty()), history_entries(opened)) == Some(ids_of(calls)),
        answers_calls(results, calls),
        0 <= k <= results.len(),
    ensures
        owed_after(Some(Seq::empty()), history_entries(opened + results.take(k))) == Some(
            ids_of(calls).subrange(k, calls.len() as int),
        ),
    decreases k,
{
    let ids = ids_of(calls);
    if k == 0 {
        assert(opened + results.take(0) =~= opened);
        assert(ids.subrange(0, calls.len() as int) =~= ids);
    } else {
        lemma_results_owed(opened, calls, results, k - 1);
        let before = opened + results.take(k - 1);
        let m = results[k - 1];
        assert(m == result_message(calls[k - 1].id, m.content));
        assert(opened + results.take(k) =~= before.push(m));
        assert(history_entries(before.push(m)) =~= history_entries(before).push(entry_of(m)));
        lemma_owed_push(Some(Seq::empty()), history_entries(before), entry_of(m));
        let owed = ids.subrange(k - 1, calls.len() as int);
        assert(owed[0] == ids[k - 1]);
        assert(ids[k - 1] == calls[k - 1].id);
        assert(owed.subrange(1, owed.len() as int) =~= ids.subrange(k, calls.len() as int));
    }
}

// ---------------------------------------------------------------------------
// Sampling
// ---------------------------------------------------------------------------

/// The token count that came with a reply.
pub open spec fn provider_total(reply: ChatReply) -> Option<u64> {
    match reply.usage {
        Some(usage) => Some(usage.total_tokens),
        None => None,
    }
}

/// The texts that a sample's token estimate counts: the conversation, the reply
/// and the arguments of its calls.
pub open spec fn is_visible(
    visible: Seq<&str>,
    history: Seq<ChatMessage>,
    reply: ChatReply,
) -> bool {
    let n = history.len() as int;
    &&& visible.len() == n + 1 + reply.tool_calls@.len()
    &&& forall|i: int|
        0 <= i < visible.len() ==> (#[trigger] visible[i])@ == (if i < n {
            history[i].content@
        } else if i == n {
            reply.text@
        } else {
            reply.tool_calls@[i - n - 1].arguments@
        })
}

fn visible_texts<'b>(history: &'b Vec<ChatMessage>, reply: &'b ChatReply) -> (r: Vec<&'b str>)
    ensures
        is_visible(r@, history@, *reply),
{
    let mut r: Vec<&'b str> = Vec::new();
    let mut i: usize = 0;
    while i < history.len()
        invariant
            i <= history@.len(),
            r@.len() == i,
            forall|k: int| 0 <= k < i ==> (#[trigger] r@[k])@ == history@[k].content@,
        decreases history@.len() - i,
    {
        r.push(history[i].content.as_str());
        i = i + 1;
    }
    r.push(reply.text.as_str());
    let mut k: usize = 0;
    while k < reply.tool_calls.len()
        invariant
            k <= reply.tool_calls@.len(),
            r@.len() == history@.len() + 1 + k,
            forall|j: int|
                0 <= j < r@.len() ==> (#[trigger] r@[j])@ == (if j < history@.len() {
                    history@[j].content@
                } else if j == history@.len() {
                    reply.text@
                } else {
                    reply.tool_calls@[j - history@.len() - 1].arguments@
                }),
        decreases reply.tool_calls@.len() - k,
    {
        r.push(reply.tool_calls[k].arguments.as_str());
        k = k + 1;
    }
    r
}

/// Takes one reply into the conversation and the session: its use is recorded; a
/// reply without calls is the answer and ends the turn, the calls of another are
/// run. True when the turn is answered.
pub fn take_reply<S: SessionStore, D: ToolDispatcher + ?Sized>(
    session: &mut S,
    registry: &D,
    cfg: &ChatTurnConfig,
    hooks: &mut Option<HookRegistry>,
    guard: &mut CallTracker,
    history: &mut Vec<ChatMessage>,
    turn_id: u64,
    round: u32,
    reply: &ChatReply,
) -> (r: Result<bool, ErrorEnvelope>)
    ensures
        final(session).intact() ==> old(session).intact(),
        step_ok(true, final(session).intact(), old(session).events(), final(session).events()),
        history_closed(messages_view(old(history)@)) ==> history_closed(
            messages_view(final(history)@),
        ),
        *old(hooks) is None ==> *final(hooks) is None,
        r matches Ok(finished) ==> (finished <==> reply.tool_calls@.len() == 0),
        r is Ok && reply.tool_calls@.len() == 0 ==> messages_view(final(history)@)
            == messages_view(old(history)@).push(plain_message("assistant"@, reply.text@)),
        r is Ok && reply.tool_calls@.len() == 0 && final(session).intact() ==> {
            let log = final(session).events();
            &&& log.len() > old(session).events().len()
            &&& log.last() matches Event::AssistantMessage { text } && text@ == reply.text@
        },
        r is Ok && reply.tool_calls@.len() > 0 ==> exists|results: Seq<MessageView>|
            {
                &&& #[trigger] answers_calls(results, calls_view(reply.tool_calls@))
                &&& messages_view(final(history)@) == messages_view(old(history)@).push(
                    calls_message(calls_view(reply.tool_calls@)),
                ) + results
            },
        final(session).intact() && *old(hooks) is None ==> (r is Err <==> usage_error(
            old(session).events(),
            usage_id_of(turn_id, cfg.message as nat, round),
            views(cfg.agent_path@),
            reply_tokens(messages_view(old(history)@), reply_view(*reply)),
        ) is Some),
        hook_rules(*final(hooks)) == hook_rules(*old(hooks)),
        hooks_idle(*old(hooks)) ==> hooks_idle(*final(hooks)),
        hooks_idle(*old(hooks)) ==> {
            let rules = rules_of(*cfg, registry, turn_id, hook_rules(*old(hooks)));
            let p = TurnPoint {
                log: old(session).handed(),
                history: messages_view(old(history)@),
                tracker: old(guard)@,
                cursor: 0,
                sequence: sequence_of(*old(hooks)),
            };
            let q = TurnPoint {
                log: final(session).handed(),
                history: messages_view(final(history)@),
                tracker: final(guard)@,
                cursor: 0,
                sequence: sequence_of(*final(hooks)),
            };
            match r {
                Err(e) => refused_as(rules, round as nat, reply_view(*reply), p, q, e@),
                Ok(true) => {
                    &&& use_failure(
                        rules,
                        round as nat,
                        p.log,
                        q.log,
                        p.history,
                        reply_view(*reply),
                    ) is None
                    &&& wrote(
                        p.log,
                        q.log,
                        answer_marks(rules, round as nat, p.history, reply_view(*reply)),
                    )
                    &&& q.sequence == p.sequence
                },
                Ok(false) => taken_as(rules, round as nat, reply_view(*reply), p, q),
            }
        },
{
    let ghost start = session.events();
    let ghost start_h = session.handed();
    let ghost h0 = messages_view(history@);
    let ghost rules = rules_of(*cfg, registry, turn_id, hook_rules(*hooks));
    let ghost idle = hooks_idle(*hooks);
    let ghost seq0 = sequence_of(*hooks);
    let ghost t0 = guard@;
    let ghost rv = reply_view(*reply);
    proof {
        lemma_step_refl(true, session.intact(), start);
    }
    let total: Option<u64> = match reply.usage {
        Some(usage) => Some(usage.total_tokens),
        None => None,
    };
    let usage_id = sample_usage_id(turn_id, cfg.message, round);
    let visible = visible_texts(history, reply);
    let ghost shown = visible@;
    proof {
        lemma_visible_chars(shown, history@, *reply);
        assert(reply_tokens(h0, rv) == sample_tokens(total, shown));
    }
    let ghost used = used_mark(rules, round as nat, h0, rv);
    let recorded_use = record_usage(
        session,
        cfg.agent_path,
        usage_id,
        total,
        visible.as_slice(),
    );
    let ghost log1 = session.events();
    let ghost handed1 = session.handed();
    let ghost mut so_far: Seq<Mark> = Seq::empty();
    proof {
        lemma_wrote_nothing(start_h);
        if use_error(rules, round as nat, start_h, h0, rv) is None {
            lemma_wrote_push(start_h, start_h, Seq::empty(), handed1.last());
            so_far = Seq::<Mark>::empty().push(mark(handed1.last().event));
            assert(mark(handed1.last().event) == used);
            assert(so_far =~= seq![used]);
        }
        assert(wrote(
            start_h,
            handed1,
            unrecorded_marks(rules, round as nat, start_h, h0, rv),
        ));
    }
    match recorded_use {
        Ok(()) => {},
        Err(e) => {
            return Err(e);
        },
    }
    if !reply.text.as_str().is_empty() {
        let chunk = Event::ModelChunkReceived {
            call_id: concat2("turn-", &decimal_of(turn_id)),
            delta_text: reply.text.clone(),
        };
        proof {
            lemma_step_push(true, session.intact(), start, log1, chunk);
        }
        let _ = session.append(chunk);
        proof {
            lemma_wrote_push(start_h, handed1, so_far, session.handed().last());
            so_far = so_far.push(mark(chunk));
        }
    }
    let ghost log2 = session.events();
    let ghost handed2 = session.handed();
    assert(so_far =~= sample_marks(rules, round as nat, h0, rv));
    if reply.tool_calls.len() == 0 {
        let answer = ChatMessage::assistant(reply.text.clone());
        history.push(answer);
        let spoken = Event::AssistantMessage { text: reply.text.clone() };
        proof {
            lemma_step_push(true, session.intact(), start, log2, spoken);
            assert(messages_view(history@) =~= h0.push(answer@));
            if history_closed(h0) {
                lemma_closed_push(h0, answer@);
            }
        }
        let _ = session.append(spoken);
        proof {
            lemma_wrote_push(start_h, handed2, so_far, session.handed().last());
        }
        return Ok(true);
    }
    let done = run_batch(
        session,
        registry,
        cfg,
        hooks,
        guard,
        history,
        turn_id,
        round,
        &reply.tool_calls,
    );
    proof {
        lemma_step_trans(true, session.intact(), start, log2, session.events());
        if idle {
            let p = TurnPoint {
                log: handed2,
                history: h0,
                tracker: t0,
                cursor: 0,
                sequence: seq0,
            };
            let q = TurnPoint {
                log: session.handed(),
                history: messages_view(history@),
                tracker: guard@,
                cursor: 0,
                sequence: sequence_of(*hooks),
            };
            lemma_reply_taken(rules, round as nat, rv, start_h, p, q, failure_of(done));
        }
    }
    match done {
        Ok(()) => Ok(false),
        Err(e) => Err(e),
    }
}

/// A reply with calls is taken in: its record comes first, then the calls are run.
proof fn lemma_reply_taken(
    rules: TurnRules,
    round: nat,
    reply: ReplyView,
    start: Seq<Handed>,
    p: TurnPoint,
    q: TurnPoint,
    failure: Option<ErrorView>,
)
    requires
        use_failure(rules, round, start, p.log, p.history, reply) is None,
        wrote(start, p.log, sample_marks(rules, round, p.history, reply)),
        batch_as(rules, round, reply.calls, p, q, failure),
    ensures
        failure is None ==> taken_as(rules, round, reply, TurnPoint { log: start, ..p }, q),
        failure matches Some(e) ==> refused_as(
            rules,
            round,
            reply,
            TurnPoint { log: start, ..p },
            q,
            e,
        ),
{
    let p0 = TurnPoint { log: start, ..p };
    let cs = reply.calls;
    let so_far = sample_marks(rules, round, p.history, reply);
    let opened = seq![batch_mark(rules, round, cs)];
    match failure {
        None => {
            let runs = choose|runs: Seq<ToolRun>| is_batch(rules, round, cs, runs, p, q);
            let tail = opened + runs_marks(cs, runs);
            lemma_wrote_both(start, p.log, q.log, so_far, tail);
            assert(so_far + tail =~= reply_marks(rules, round, p.history, reply, runs));
            assert(is_taken(rules, round, reply, runs, p0, q));
        },
        Some(e) => {
            let runs = choose|runs: Seq<ToolRun>|
                is_broken_batch(rules, round, cs, runs, p, q, e);
            let closed = closed_marks(cs, runs.len(), cs.len(), e.code);
            let tail = opened + runs_marks(cs, runs) + closed;
            lemma_wrote_both(start, p.log, q.log, so_far, tail);
            assert(so_far + tail =~= reply_marks(rules, round, p.history, reply, runs) + closed);
            assert(is_broken(rules, round, reply, runs, p0, q, e));
        },
    }
}

/// The characters of the visible texts, by where they come from.
proof fn lemma_visible_chars(visible: Seq<&str>, history: Seq<ChatMessage>, reply: ChatReply)
    requires
        is_visible(visible, history, reply),
    ensures
        total_chars(visible) == content_chars(messages_view(history), history.len())
            + reply.text@.len() + argument_chars(
            calls_view(reply.tool_calls@),
            reply.tool_calls@.len(),
        ),
{
    lemma_visible_part(visible, history, reply, visible.len() as int);
    assert(visible.take(visible.len() as int) =~= visible);
}

proof fn lemma_visible_part(
    visible: Seq<&str>,
    history: Seq<ChatMessage>,
    reply: ChatReply,
    k: int,
)
    requires
        is_visible(visible, history, reply),
        0 <= k <= visible.len(),
    ensures
        ({
            let h = messages_view(history);
            let n = history.len() as int;
            total_chars(visible.take(k)) == (if k <= n {
                content_chars(h, k as nat)
            } else {
                content_chars(h, n as nat) + reply.text@.len() + argument_chars(
                    calls_view(reply.tool_calls@),
                    (k - n - 1) as nat,
                )
            })
        }),
    decreases k,
{
    if k > 0 {
        lemma_visible_part(visible, history, reply, k - 1);
        let part = visible.take(k);
        assert(part.drop_last() =~= visible.take(k - 1));
        assert(part.last() == visible[k - 1]);
        let n = history.len() as int;
        if k <= n {
            assert(messages_view(history)[k - 1] == history[k - 1]@);
        } else if k > n + 1 {
            assert(calls_view(reply.tool_calls@)[k - n - 2] == reply.tool_calls@[k - n - 2]@);
        }
    }
}

pub open spec fn rounds_error(max: u32) -> ErrorView {
    error(
        ErrorCode::Internal,
        "超过 max_tool_rounds="@ + decimal(max as nat) + "，强制终结以防死循环"@,
    )
}

/// Answers one user message. The message goes into the conversation and the
/// session first; then the model is sampled until it answers in text, with its
/// tool calls run in between. Calls and results stay paired in both, whatever the
/// model, the tools and the hooks do.
pub fn run_chat_turn<
    S: SessionStore,
    D: ToolDispatcher + ?Sized,
    C: ChatModel + ?Sized,
>(
    session: &mut S,
    registry: &D,
    chat: &C,
    cfg: &ChatTurnConfig,
    hooks: &mut Option<HookRegistry>,
    history: &mut Vec<ChatMessage>,
    queued_from: &mut u64,
    turn_id: u64,
    user_text: &str,
) -> (r: Result<(), ErrorEnvelope>)
    ensures
        final(session).intact() ==> old(session).intact(),
        step_ok(
            source_benign(cfg.external_events),
            final(session).intact(),
            old(session).events(),
            final(session).events(),
        ),
        history_closed(messages_view(old(history)@)) ==> history_closed(
            messages_view(final(history)@),
        ),
        *old(queued_from) <= old(session).events().len() ==> *final(queued_from)
            <= final(session).events().len(),
        *old(hooks) is None ==> *final(hooks) is None,
        r is Ok ==> {
            let h = messages_view(final(history)@);
            &&& h.len() > 0
            &&& h.last() == plain_message("assistant"@, h.last().content)
            &&& exists|reply: ChatReply|
                {
                    &&& #[trigger] replied_to(
                        chat,
                        cfg.spec,
                        cfg.tool_definitions,
                        h.drop_last(),
                        Ok(reply),
                    )
                    &&& reply.tool_calls@.len() == 0
                    &&& reply.text@ == h.last().content
                }
            &&& final(session).intact() ==> {
                let log = final(session).events();
                &&& log.len() > old(session).events().len()
                &&& log.last() matches Event::AssistantMessage { text } && text@
                    == h.last().content
            }
        },
        final(session).intact() ==> {
            let events = added(old(session).events(), final(session).events());
            &&& events.len() > 0
            &&& events[0] matches Event::UserMessage { text } && text@ == user_text@
        },
        cfg.max_tool_rounds == 0 ==> {
            &&& r is Err && r->Err_0@ == rounds_error(0)
            &&& messages_view(final(history)@) == messages_view(old(history)@).push(
                plain_message("user"@, user_text@),
            )
        },
        hook_rules(*final(hooks)) == hook_rules(*old(hooks)),
        hooks_idle(*old(hooks)) ==> hooks_idle(*final(hooks)),
        hooks_idle(*old(hooks)) ==> answered_as(
            ChatRules {
                turn: rules_of(*cfg, registry, turn_id, hook_rules(*old(hooks))),
                model: model_rules(*cfg, chat),
            },
            user_text@,
            Standing {
                log: old(session).handed(),
                history: messages_view(old(history)@),
                cursor: *old(queued_from) as int,
                sequence: sequence_of(*old(hooks)),
            },
            Standing {
                log: final(session).handed(),
                history: messages_view(final(history)@),
                cursor: *final(queued_from) as int,
                sequence: sequence_of(*final(hooks)),
            },
            failure_of(r),
        ),
{
    let ghost start = session.events();
    let ghost start_h = session.handed();
    let ghost benign = source_benign(cfg.external_events);
    let ghost h0 = messages_view(history@);
    let ghost rules = ChatRules {
        turn: rules_of(*cfg, registry, turn_id, hook_rules(*hooks)),
        model: model_rules(*cfg, chat),
    };
    let ghost idle = hooks_idle(*hooks);
    let ghost from = Standing {
        log: start_h,
        history: h0,
        cursor: *queued_from as int,
        sequence: sequence_of(*hooks),
    };
    let said = Event::UserMessage { text: user_text.to_owned() };
    proof {
        lemma_step_refl(benign, session.intact(), start);
        lemma_step_push(benign, session.intact(), start, start, said);
        lemma_extends_push(start, start, said);
    }
    let _ = session.append(said);
    let ghost log_said = session.events();
    let question = ChatMessage::user(user_text.to_owned());
    history.push(question);
    proof {
        assert(messages_view(history@) =~= h0.push(question@));
        if history_closed(h0) {
            lemma_closed_push(h0, question@);
        }
        lemma_step_refl(benign, session.intact(), log_said);
        if session.intact() {
            assert(added(start, log_said) =~= seq![said]);
        }
    }
    let mut guard = CallTracker::new();
    let mut round: u32 = 0;
    let ghost mut points: Seq<TurnPoint> = seq![
        TurnPoint {
            log: session.handed(),
            history: messages_view(history@),
            tracker: guard@,
            cursor: *queued_from as int,
            sequence: sequence_of(*hooks),
        },
    ];
    let ghost mut samples: Seq<Sampling> = Seq::empty();
    let ghost mut runs: Seq<Seq<ToolRun>> = Seq::empty();
    proof {
        lemma_wrote_nothing(start_h);
        lemma_wrote_push(start_h, start_h, Seq::empty(), session.handed().last());
        assert(Seq::<Mark>::empty().push(mark(said)) =~= seq![Mark::Said { text: user_text@ }]);
        assert(guard@ == fresh_tracker());
    }
    while round < cfg.max_tool_rounds
        invariant
            rules == (ChatRules {
                turn: rules_of(*cfg, registry, turn_id, hook_rules(*old(hooks))),
                model: model_rules(*cfg, chat),
            }),
            hook_rules(*hooks) == hook_rules(*old(hooks)),
            hooks_idle(*old(hooks)) ==> hooks_idle(*hooks),
            idle == hooks_idle(*old(hooks)),
            from == (Standing {
                log: start_h,
                history: h0,
                cursor: *old(queued_from) as int,
                sequence: sequence_of(*old(hooks)),
            }),
            idle ==> {
                &&& samples.len() == round
                &&& begins_turn(rules, user_text@, from, points, samples, runs)
                &&& points.last() == (TurnPoint {
                    log: session.handed(),
                    history: messages_view(history@),
                    tracker: guard@,
                    cursor: *queued_from as int,
                    sequence: sequence_of(*hooks),
                })
            },
            round <= cfg.max_tool_rounds,
            benign == source_benign(cfg.external_events),
            start == old(session).events(),
            start_h == old(session).handed(),
            h0 == messages_view(old(history)@),
            session.intact() ==> old(session).intact(),
            *old(queued_from) <= start.len() ==> *queued_from <= session.events().len(),
            step_ok(benign, session.intact(), start, log_said),
            step_ok(benign, session.intact(), log_said, session.events()),
            history_closed(h0) ==> history_closed(messages_view(history@)),
            *old(hooks) is None ==> *hooks is None,
            session.intact() ==> added(start, log_said) == seq![said],
            said matches Event::UserMessage { text } && text@ == user_text@,
            round == 0 ==> messages_view(history@) == h0.push(plain_message("user"@, user_text@)),
        decreases cfg.max_tool_rounds - round,
    {
        match absorb_queued_inputs(session, queued_from, history) {
            Ok(()) => {},
            Err(e) => {
                proof {
                    lemma_turn_so_far(benign, session.intact(), start, log_said, session.events(), said);
                }
                return Err(e);
            },
        }
        let ghost log0 = session.events();
        let ghost handed0 = session.handed();
        let ghost at = points.last();
        let ghost h1 = messages_view(history@);
        proof {
            if idle {
                assert(h1 == heard(at));
            }
        }
        let found = sample(session, chat, cfg, history);
        let ghost log1 = session.events();
        let ghost handed1 = session.handed();
        let ghost sampled = choose|s: Sampling|
            {
                &&& #[trigger] is_sampling(rules.model, handed0, h1, s)
                &&& s.log == handed1
                &&& s.history == messages_view(history@)
                &&& s.result == found
            };
        proof {
            lemma_step_trans(benign, session.intact(), log_said, log0, log1);
        }
        let reply = match found {
            Ok(reply) => reply,
            Err(e) => {
                proof {
                    if idle {
                        let to = Standing {
                            log: session.handed(),
                            history: messages_view(history@),
                            cursor: *queued_from as int,
                            sequence: sequence_of(*hooks),
                        };
                        assert(is_chat_turn(
                            rules,
                            user_text@,
                            from,
                            points,
                            samples,
                            runs,
                            TurnEnd::Failed { sample: sampled },
                            to,
                            Some(e@),
                        ));
                    }
                    lemma_turn_so_far(benign, session.intact(), start, log_said, session.events(), said);
                }
                return Err(e);
            },
        };
        let ghost tracker = guard@;
        let ghost seq1 = sequence_of(*hooks);
        match take_reply(
            session,
            registry,
            cfg,
            hooks,
            &mut guard,
            history,
            turn_id,
            round,
            &reply,
        ) {
            Ok(finished) => {
                proof {
                    lemma_step_trans(benign, session.intact(), log_said, log1, session.events());
                }
                if finished {
                    proof {
                        a_reply_is_what_the_model_gave(rules.model, handed0, h1, sampled);
                        let h2 = messages_view(history@);
                        assert(h2.drop_last() =~= sampled.history);
                        assert(replied_to(
                            chat,
                            cfg.spec,
                            cfg.tool_definitions,
                            h2.drop_last(),
                            Ok(reply),
                        ));
                        lemma_turn_so_far(benign, session.intact(), start, log_said, session.events(), said);
                        if idle {
                            let to = Standing {
                                log: session.handed(),
                                history: messages_view(history@),
                                cursor: *queued_from as int,
                                sequence: sequence_of(*hooks),
                            };
                            assert(is_chat_turn(
                                rules,
                                user_text@,
                                from,
                                points,
                                samples,
                                runs,
                                TurnEnd::Answered { sample: sampled },
                                to,
                                None,
                            ));
                        }
                    }
                    return Ok(());
                }
                proof {
                    if idle {
                        let p = TurnPoint {
                            log: handed1,
                            history: sampled.history,
                            tracker,
                            cursor: 0,
                            sequence: seq1,
                        };
                        let q = TurnPoint {
                            log: session.handed(),
                            history: messages_view(history@),
                            tracker: guard@,
                            cursor: 0,
                            sequence: sequence_of(*hooks),
                        };
                        let ran = choose|ran: Seq<ToolRun>|
                            is_taken(rules.turn, round as nat, reply_of(sampled), ran, p, q);
                        let next = TurnPoint { cursor: *queued_from as int, ..q };
                        assert(is_round(rules, round as nat, at, next, sampled, ran));
                        lemma_next_round(
                            rules,
                            user_text@,
                            from,
                            points,
                            samples,
                            runs,
                            next,
                            sampled,
                            ran,
                        );
                        points = points.push(next);
                        samples = samples.push(sampled);
                        runs = runs.push(ran);
                    }
                }
            },
            Err(e) => {
                proof {
                    if idle {
                        let to = Standing {
                            log: session.handed(),
                            history: messages_view(history@),
                            cursor: *queued_from as int,
                            sequence: sequence_of(*hooks),
                        };
                        let p = TurnPoint {
                            log: handed1,
                            history: sampled.history,
                            tracker,
                            cursor: 0,
                            sequence: seq1,
                        };
                        let q = TurnPoint {
                            log: session.handed(),
                            history: messages_view(history@),
                            tracker: guard@,
                            cursor: 0,
                            sequence: sequence_of(*hooks),
                        };
                        let end = if exists|ran: Seq<ToolRun>|
                            is_broken(rules.turn, round as nat, reply_of(sampled), ran, p, q, e@) {
                            let ran = choose|ran: Seq<ToolRun>|
                                is_broken(rules.turn, round as nat, reply_of(sampled), ran, p, q, e@);
                            TurnEnd::Broken { sample: sampled, runs: ran }
                        } else {
                            TurnEnd::Unrecorded { sample: sampled }
                        };
                        assert(is_chat_turn(
                            rules,
                            user_text@,
                            from,
                            points,
                            samples,
                            runs,
                            end,
                            to,
                            Some(e@),
                        ));
                    }
                    lemma_step_trans(benign, session.intact(), log_said, log1, session.events());
                    lemma_turn_so_far(benign, session.intact(), start, log_said, session.events(), said);
                }
                return Err(e);
            },
        }
        round = round + 1;
    }
    proof {
        lemma_turn_so_far(benign, session.intact(), start, log_said, session.events(), said);
        if idle {
            let to = Standing {
                log: session.handed(),
                history: messages_view(history@),
                cursor: *queued_from as int,
                sequence: sequence_of(*hooks),
            };
            assert(is_chat_turn(
                rules,
                user_text@,
                from,
                points,
                samples,
                runs,
                TurnEnd::Exhausted,
                to,
                Some(rounds_error(cfg.max_tool_rounds)),
            ));
        }
    }
    let limit = decimal_of(cfg.max_tool_rounds as u64);
    Err(
        ErrorEnvelope::new(
            ErrorCode::Internal,
            concat3("超过 max_tool_rounds=", &limit, "，强制终结以防死循环"),
        ),
    )
}

proof fn lemma_turn_so_far(
    benign: bool,
    intact: bool,
    start: Seq<Event>,
    log_said: Seq<Event>,
    log: Seq<Event>,
    said: Event,
)
    requires
        step_ok(benign, intact, start, log_said),
        step_ok(benign, intact, log_said, log),
        intact ==> added(start, log_said) == seq![said],
    ensures
        step_ok(benign, intact, start, log),
        intact ==> added(start, log).len() > 0 && added(start, log)[0] == said,
        intact ==> log.len() > start.len(),
{
    lemma_step_trans(benign, intact, start, log_said, log);
    lemma_extends_trans(start, log_said, log);
    if intact {
        assert(added(start, log) == seq![said] + added(log_said, log));
        assert(added(start, log)[0] == said);
    }
}

// ---------------------------------------------------------------------------
// Laws
// ---------------------------------------------------------------------------

/// The input that was queued from a place on is heard in its order, and nothing else is.
pub proof fn which_input_was_queued(log: Seq<Event>, e: Event, from: int, i: int)
    requires
        0 <= from <= log.len(),
    ensures
        queued_texts(log.take(from), from).len() == 0,
        e is UserInputQueued ==> queued_texts(log.push(e), from) == queued_texts(log, from).push(
            e->UserInputQueued_text@,
        ),
        !(e is UserInputQueued) ==> queued_texts(log.push(e), from) == queued_texts(log, from),
        0 <= i < queued_texts(log, from).len() ==> user_messages(queued_texts(log, from))[i].role
            == "user"@ && user_messages(queued_texts(log, from))[i].content == queued_texts(
            log,
            from,
        )[i],
        user_messages(queued_texts(log, from)).len() == queued_texts(log, from).len(),
{
    assert(log.push(e).drop_last() =~= log);
}

/// The arguments of a call are recorded as the value that they are, or as the text where they
/// are none.
pub proof fn how_arguments_are_recorded(text: Seq<char>)
    ensures
        json_document(text) is Ok ==> recorded_args(text) == json_document(text)->Ok_0,
        json_document(text) is Err ==> recorded_args(text) == JsonView::Text(text),
{
}

/// What is known of a call before its tool runs: arguments that are no value, and a call that
/// the guard refuses, are failures with their own codes; any other call runs.
pub proof fn which_calls_do_not_run(call: CallView, guard: Option<LoopGuard>, count: int)
    ensures
        json_document(call.arguments) is Err ==> (settled_outcome(call, guard, count) matches Some(
            OutcomeView::Failure { error: e },
        ) && e.code == ErrorCode::ToolArgsInvalid),
        json_document(call.arguments) is Ok && guard is Some && count >= guard->0.reject_after ==> (
        settled_outcome(call, guard, count) matches Some(OutcomeView::Failure { error: e })
            && e.code == ErrorCode::ToolLoopDetected),
        json_document(call.arguments) is Ok && (guard is None || count < guard->0.reject_after)
            ==> settled_outcome(call, guard, count) is None,
{
}

/// What a tool gave is what is shown, with a reminder where the guard gives one; a tool that is
/// not there is an error.
pub proof fn what_a_tool_gave(
    name: Seq<char>,
    x: ToolExecution,
    verdict: LoopVerdict,
    count: int,
    value: JsonView,
)
    ensures
        executed(name, None, verdict, count) matches OutcomeView::Failure { error: e } && e.code
            == ErrorCode::ToolArgsInvalid && e.message == "unknown tool: "@ + name,
        verdict != LoopVerdict::Remind ==> executed(name, Some(x), verdict, count) == x.outcome@,
        x.outcome@ is Failure ==> executed(name, Some(x), verdict, count) == x.outcome@,
        verdict == LoopVerdict::Remind && x.outcome@ == (OutcomeView::Success { value }) ==> {
            &&& executed(name, Some(x), verdict, count) is Success
            &&& member_of(executed(name, Some(x), verdict, count)->value, "result"@) == Some(value)
        },
{
    a_reminder_keeps_the_result(x.outcome@, count);
}

/// The result of a call is a message that answers its id with the outcome in full; a call
/// behind one that failed is answered with the same code.
pub proof fn how_a_call_is_answered(id: Seq<char>, o: OutcomeView, code: ErrorCode)
    ensures
        outcome_message(id, o).role == "tool"@,
        outcome_message(id, o).tool_call_id == Some(id),
        outcome_message(id, o).content == json_text(outcome_json(o)),
        outcome_message(id, o).tool_calls is None,
        not_executed(code) matches OutcomeView::Failure { error: e } && e.code == code,
{
}

/// The tokens of a reply that the provider counted are those it told.
pub proof fn what_the_provider_counted(reply: ChatReply)
    ensures
        reply.usage is Some ==> provider_total(reply) == Some(reply.usage->0.total_tokens),
        reply.usage is None ==> provider_total(reply) is None,
{
}

/// A turn that used up its rounds is an error that says how many there are.
pub proof fn what_a_long_turn_says(max: u32)
    ensures
        rounds_error(max).code == ErrorCode::Internal,
        rounds_error(max).message == "超过 max_tool_rounds="@ + decimal(max as nat)
            + "，强制终结以防死循环"@,
{
}

/// What the estimate of a sample goes by: the texts of the conversation, the reply, and the
/// arguments of its calls, in their order.
pub proof fn what_an_estimate_goes_by(
    visible: Seq<&str>,
    history: Seq<ChatMessage>,
    reply: ChatReply,
    i: int,
)
    requires
        is_visible(visible, history, reply),
    ensures
        visible.len() == history.len() + 1 + reply.tool_calls@.len(),
        0 <= i < history.len() ==> visible[i]@ == history[i].content@,
        visible[history.len() as int]@ == reply.text@,
        0 <= i < reply.tool_calls@.len() ==> visible[history.len() + 1 + i]@
            == reply.tool_calls@[i].arguments@,
{
    if 0 <= i < history.len() {
        assert(visible[i]@ == history[i].content@);
    }
    assert(visible[history.len() as int]@ == reply.text@);
    if 0 <= i < reply.tool_calls@.len() {
        assert(visible[history.len() + 1 + i]@ == reply.tool_calls@[i].arguments@);
    }
}

/// Results answer their calls: as many messages as calls, each under the id of its own.
pub proof fn results_answer_their_calls(messages: Seq<MessageView>, calls: Seq<CallView>, i: int)
    requires
        answers_calls(messages, calls),
        0 <= i < calls.len(),
    ensures
        messages.len() == calls.len(),
        messages[i].role == "tool"@,
        messages[i].tool_call_id == Some(calls[i].id),
        messages[i].tool_calls is None,
{
    let m = messages[i];
}

/// The rules of a turn are those of its configuration.
pub proof fn what_a_turn_goes_by<D: ToolDispatcher + ?Sized>(
    cfg: ChatTurnConfig,
    tools: &D,
    turn_id: u64,
    hooks: HookRules,
)
    ensures
        rules_of(cfg, tools, turn_id, hooks).turn_id == turn_id,
        rules_of(cfg, tools, turn_id, hooks).message == cfg.message,
        rules_of(cfg, tools, turn_id, hooks).limit == cfg.max_tool_rounds,
        rules_of(cfg, tools, turn_id, hooks).path == views(cfg.agent_path@),
        rules_of(cfg, tools, turn_id, hooks).guard == cfg.loop_guard,
        rules_of(cfg, tools, turn_id, hooks).hooks == hooks,
{
}

} // verus!
