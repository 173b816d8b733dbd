//! What a turn records of its samples: each of them goes by a name of its own.
use vstd::prelude::*;
use crate::budget_ledger::ledger_of;
use crate::chat_turn::recorded_args;
use crate::hooks::{
    bumped, hook_round, ran_hooks, rounds_in, ContextView, Decision, HookPoint, HookRules,
};
use crate::loop_guard::TrackerView;
use crate::model_provider::{CallView, MessageView};
use crate::protocol::{ErrorEnvelope, ErrorView, Event, TokenUsageSource};
use crate::sampling::{
    are_retries, is_retry, is_sampling, not_compacted, recovers, ModelRules, Sampling,
};
use crate::session::{
    added, extends, lemma_extends_push, lemma_extends_refl, lemma_extends_trans, lemma_handed,
    offered, taken, Handed,
};
use crate::token_meter::estimated;
use crate::turn_trace::{
    after_sample, answer_marks, answered_as, are_rounds, at_message, audit_marks, audits_of, batch_mark,
    begins_turn, call_marks, heard, is_chat_turn, is_plain_turn, is_round, mark, marks, message_as,
    messages_answered, reply_marks, reply_of, run_fits, runs_fit, runs_marks, sample_marks,
    sampled, sequence_after, tool_context, tracker_after, wrote, ChatRules, LoopRules, Mark,
    ReplyView, Standing, ToolRun, TurnEnd, TurnPoint, TurnRules,
};
use crate::usage::lemma_ledger_push;
use crate::usage_id::{
    answer_ids_are_distinct, plain_usage_id, sample_ids_are_distinct, usage_id_of,
};

verus! {

broadcast use vstd::string::group_string_axioms;

// ---------------------------------------------------------------------------
// Answers of a model that calls no tools
// ---------------------------------------------------------------------------

proof fn lemma_earlier_messages(
    rules: LoopRules,
    texts: Seq<Seq<char>>,
    stands: Seq<Standing>,
)
    requires
        messages_answered(rules, texts, stands),
        stands.len() > 1,
    ensures
        messages_answered(rules, texts, stands.drop_last()),
{
    let earlier = stands.drop_last();
    assert forall|i: int| 0 <= i < earlier.len() - 1 implies message_as(
        at_message(rules, i as nat),
        texts[i],
        earlier[i],
        #[trigger] earlier[i + 1],
        None,
    ) by {
        assert(earlier[i + 1] == stands[i + 1]);
    }
}

/// No answer to a message of the turn from position `from` on is in the budget yet.
pub open spec fn unanswered_from(log: Seq<Event>, turn_id: u64, from: nat) -> bool {
    ledger_of(log) matches Ok(l) ==> forall|m: nat|
        m >= from ==> !l.ids.contains(#[trigger] plain_usage_id(turn_id, m))
}

/// What was heard changes nothing in the budget.
proof fn lemma_heard(before: Seq<Handed>, heard: Seq<Handed>, text: Seq<char>)
    requires
        wrote(before, heard, seq![Mark::Said { text }]),
    ensures
        ledger_of(taken(heard)) == ledger_of(taken(before)),
{
    let events = added(before, heard);
    assert(marks(events).len() == 1);
    assert(marks(events)[0] == mark(events[0].event));
    assert(heard =~= before.push(events[0]));
    lemma_handed(before, events[0]);
    lemma_ledger_push(taken(before), events[0].event);
}

/// An answer adds its own name to the budget, and no other.
proof fn lemma_answered(
    heard: Seq<Handed>,
    after: Seq<Handed>,
    usage_id: Seq<char>,
    path: Seq<Seq<char>>,
    total: int,
    text: Seq<char>,
)
    requires
        wrote(
            heard,
            after,
            seq![
                Mark::Used { usage_id, path, total, source: TokenUsageSource::Heuristic },
                Mark::Answered { text },
            ],
        ),
        after[heard.len() as int].refused is None,
    ensures
        ledger_of(taken(after)) matches Ok(l) ==> ledger_of(taken(heard)) is Ok && l.ids
            == ledger_of(taken(heard))->Ok_0.ids.insert(usage_id),
{
    let events = added(heard, after);
    assert(marks(events).len() == 2);
    assert(marks(events)[0] == mark(events[0].event));
    assert(marks(events)[1] == mark(events[1].event));
    let used = heard.push(events[0]);
    assert(after =~= used.push(events[1]));
    lemma_handed(heard, events[0]);
    lemma_handed(used, events[1]);
    lemma_ledger_push(taken(used), events[1].event);
    assert(taken(used).drop_last() =~= taken(heard));
}

/// Where no answer to the turn was recorded before it began, the answers of a model that
/// calls no tools never meet a name that is taken: the message that comes next has one of
/// its own.
pub proof fn each_answer_has_its_own_record(
    rules: LoopRules,
    texts: Seq<Seq<char>>,
    stands: Seq<Standing>,
)
    requires
        rules.chat is None,
        messages_answered(rules, texts, stands),
        unanswered_from(taken(stands[0].log), rules.turn.turn_id, 0),
    ensures
        unanswered_from(
            taken(stands.last().log),
            rules.turn.turn_id,
            (stands.len() - 1) as nat,
        ),
    decreases stands.len(),
{
    let id = rules.turn.turn_id;
    let n = stands.len() - 1;
    if n > 0 {
        let earlier = stands.drop_last();
        lemma_earlier_messages(rules, texts, stands);
        each_answer_has_its_own_record(rules, texts, earlier);
        let k = n - 1;
        let at = at_message(rules, k as nat);
        assert(stands[k + 1] == stands.last());
        assert(stands[k] == earlier.last());
        assert(message_as(at, texts[k], stands[k], stands[k + 1], None));
        let before = stands[k].log;
        let after = stands[k + 1].log;
        let (said, heard) = choose|said: Option<Result<String, ErrorEnvelope>>, heard: Seq<Handed>|
            #[trigger] is_plain_turn(
                id,
                k as nat,
                rules.turn.path,
                texts[k],
                said,
                before,
                heard,
                after,
                None,
            );
        lemma_heard(before, heard, texts[k]);
        let reply = said->0->Ok_0;
        lemma_answered(
            heard,
            after,
            plain_usage_id(id, k as nat),
            rules.turn.path,
            estimated(texts[k].len() + reply@.len(), 4),
            reply@,
        );
        if ledger_of(taken(after)) is Ok {
            assert forall|m: nat| m >= n implies !ledger_of(taken(after))->Ok_0.ids.contains(
                #[trigger] plain_usage_id(id, m),
            ) by {
                if plain_usage_id(id, m) == plain_usage_id(id, k as nat) {
                    answer_ids_are_distinct(id, m, id, k as nat);
                }
            }
        }
    }
}

// ---------------------------------------------------------------------------
// Names in a stream
// ---------------------------------------------------------------------------

/// Every record of use among the events goes by one of the names.
pub open spec fn names_in(events: Seq<Handed>, names: spec_fn(Seq<char>) -> bool) -> bool {
    forall|i: int|
        0 <= i < events.len() ==> ((#[trigger] events[i]).event matches Event::TokenUsageRecorded {
            usage_id,
            ..
        } ==> names(usage_id@))
}

/// The same, by what the events say.
spec fn marks_in(said: Seq<Mark>, names: spec_fn(Seq<char>) -> bool) -> bool {
    forall|i: int|
        0 <= i < said.len() ==> (#[trigger] said[i] matches Mark::Used { usage_id, .. } ==> names(
            usage_id,
        ))
}

/// From one stream to the next, use was recorded by these names only.
spec fn recorded_as(
    before: Seq<Handed>,
    after: Seq<Handed>,
    names: spec_fn(Seq<char>) -> bool,
) -> bool {
    extends(before, after) && names_in(added(before, after), names)
}

proof fn lemma_recorded_trans(
    a: Seq<Handed>,
    b: Seq<Handed>,
    c: Seq<Handed>,
    names: spec_fn(Seq<char>) -> bool,
)
    requires
        recorded_as(a, b, names),
        recorded_as(b, c, names),
    ensures
        recorded_as(a, c, names),
{
    lemma_extends_trans(a, b, c);
    let whole = added(a, c);
    let first = added(a, b);
    let second = added(b, c);
    assert(whole =~= first + second);
    assert forall|i: int| 0 <= i < whole.len() implies (
    (#[trigger] whole[i]).event matches Event::TokenUsageRecorded { usage_id, .. } ==> names(usage_id@)) by {
        if i < first.len() {
            assert(whole[i] == first[i]);
        } else {
            assert(whole[i] == second[i - first.len()]);
        }
    }
}

proof fn lemma_recorded_more(
    a: Seq<Handed>,
    b: Seq<Handed>,
    fewer: spec_fn(Seq<char>) -> bool,
    more: spec_fn(Seq<char>) -> bool,
)
    requires
        recorded_as(a, b, fewer),
        forall|x: Seq<char>| #[trigger] fewer(x) ==> more(x),
    ensures
        recorded_as(a, b, more),
{
    let events = added(a, b);
    assert forall|i: int| 0 <= i < events.len() implies (
    (#[trigger] events[i]).event matches Event::TokenUsageRecorded { usage_id, .. } ==> more(usage_id@)) by {
        if let Event::TokenUsageRecorded { usage_id, .. } = events[i].event {
            assert(fewer(usage_id@));
        }
    }
}

/// What a stream adds to the budget's names are the names that it records by.
proof fn lemma_names_added(
    before: Seq<Handed>,
    after: Seq<Handed>,
    names: spec_fn(Seq<char>) -> bool,
)
    requires
        recorded_as(before, after, names),
    ensures
        ledger_of(taken(after)) matches Ok(l) ==> {
            &&& ledger_of(taken(before)) is Ok
            &&& forall|x: Seq<char>| #[trigger]
                l.ids.contains(x) ==> ledger_of(taken(before))->Ok_0.ids.contains(x) || names(x)
        },
    decreases after.len(),
{
    if after.len() == before.len() {
        assert(after =~= before);
    } else {
        let earlier = after.drop_last();
        assert(earlier.subrange(0, before.len() as int) =~= after.subrange(0, before.len() as int));
        let events = added(before, after);
        let fewer = added(before, earlier);
        assert forall|i: int| 0 <= i < fewer.len() implies (
        (#[trigger] fewer[i]).event matches Event::TokenUsageRecorded { usage_id, .. } ==> names(
            usage_id@,
        )) by {
            assert(fewer[i] == events[i]);
        }
        lemma_names_added(before, earlier, names);
        assert(events[events.len() - 1] == after.last());
        lemma_handed(earlier, after.last());
        assert(earlier.push(after.last()) =~= after);
        if after.last().refused is None {
            assert(taken(after).drop_last() =~= taken(earlier));
        }
    }
}

proof fn lemma_marks_both(a: Seq<Mark>, b: Seq<Mark>, names: spec_fn(Seq<char>) -> bool)
    requires
        marks_in(a, names),
        marks_in(b, names),
    ensures
        marks_in(a + b, names),
{
    let both = a + b;
    assert forall|i: int| 0 <= i < both.len() implies (
    #[trigger] both[i] matches Mark::Used { usage_id, .. } ==> names(usage_id)) by {
        if i < a.len() {
            assert(both[i] == a[i]);
        } else {
            assert(both[i] == b[i - a.len()]);
        }
    }
}

proof fn lemma_marks_of(events: Seq<Handed>, names: spec_fn(Seq<char>) -> bool)
    requires
        names_in(events, names),
    ensures
        marks_in(marks(events), names),
{
    let said = marks(events);
    assert forall|i: int| 0 <= i < said.len() implies (
    #[trigger] said[i] matches Mark::Used { usage_id, .. } ==> names(usage_id)) by {
        assert(said[i] == mark(events[i].event));
    }
}

proof fn lemma_wrote_names(
    before: Seq<Handed>,
    after: Seq<Handed>,
    said: Seq<Mark>,
    names: spec_fn(Seq<char>) -> bool,
)
    requires
        wrote(before, after, said),
        marks_in(said, names),
    ensures
        recorded_as(before, after, names),
{
    let events = added(before, after);
    assert forall|i: int| 0 <= i < events.len() implies (
    (#[trigger] events[i]).event matches Event::TokenUsageRecorded { usage_id, .. } ==> names(usage_id@)) by {
        assert(said[i] == mark(events[i].event));
    }
}

// ---------------------------------------------------------------------------
// What is no sample records no use
// ---------------------------------------------------------------------------

proof fn lemma_hooks_record_nothing(
    rules: HookRules,
    context: ContextView,
    sequence: u64,
    events: Seq<Handed>,
    failure: Option<ErrorView>,
    names: spec_fn(Seq<char>) -> bool,
)
    requires
        ran_hooks(rules, context, sequence, events, failure),
    ensures
        names_in(events, names),
{
    if rules.present {
        let hooks = rules.hooks[context.point];
        let ds = choose|ds: Seq<Decision>| #[trigger]
            hook_round(
                hooks,
                rules.required.contains(context.point),
                context,
                sequence,
                ds,
                events,
                failure,
            );
        assert forall|j: int| 0 <= j < events.len() implies !(
        (#[trigger] events[j]).event is TokenUsageRecorded) by {
            if hooks.len() > 0 && j < 2 * ds.len() {
                let i = j / 2;
                assert(0 <= i < ds.len());
                let d = ds[i];
                assert(events[2 * i].event is ToolCallRequested);
                assert(events[2 * i + 1].event is ToolResultAdded);
                assert(j == 2 * i || j == 2 * i + 1);
            }
        }
    }
}

proof fn lemma_call_marks(
    rules: TurnRules,
    call: CallView,
    count: int,
    sequence: u64,
    run: ToolRun,
    names: spec_fn(Seq<char>) -> bool,
)
    requires
        run_fits(rules, call, count, sequence, run),
    ensures
        marks_in(call_marks(call, run), names),
{
    reveal(run_fits);
    let asked = seq![
        Mark::Requested {
            call_id: call.id,
            tool: call.name,
            args: recorded_args(call.arguments),
        },
    ];
    let audits = audit_marks(call.id, audits_of(run));
    let told = seq![Mark::Returned { call_id: call.id, outcome: run.shown }];
    assert(names_in(run.before, names)) by {
        lemma_hooks_record_nothing(
            rules.hooks,
            tool_context(
                HookPoint::PreToolUse,
                rules.turn_id,
                call,
                None,
            ),
            sequence,
            run.before,
            run.denied,
            names,
        );
    }
    assert(names_in(run.after, names)) by {
        if run.denied is None {
            lemma_hooks_record_nothing(
                rules.hooks,
                tool_context(
                    HookPoint::PostToolUse,
                    rules.turn_id,
                    call,
                    Some(run.shown),
                ),
                bumped(sequence, rounds_in(run.before)),
                run.after,
                run.stopped,
                names,
            );
        }
    }
    lemma_marks_of(run.before, names);
    lemma_marks_of(run.after, names);
    lemma_marks_both(asked, marks(run.before), names);
    lemma_marks_both(asked + marks(run.before), audits, names);
    lemma_marks_both(asked + marks(run.before) + audits, told, names);
    lemma_marks_both(asked + marks(run.before) + audits + told, marks(run.after), names);
}

proof fn lemma_runs_marks(
    rules: TurnRules,
    calls: Seq<CallView>,
    t: TrackerView,
    sequence: u64,
    runs: Seq<ToolRun>,
    n: nat,
    names: spec_fn(Seq<char>) -> bool,
)
    requires
        runs_fit(rules, calls, t, sequence, runs),
        n <= runs.len(),
    ensures
        marks_in(runs_marks(calls, runs.take(n as int)), names),
    decreases n,
{
    let part = runs.take(n as int);
    if n > 0 {
        assert(part.drop_last() =~= runs.take(n - 1));
        assert(part.last() == runs[n - 1]);
        lemma_runs_marks(rules, calls, t, sequence, runs, (n - 1) as nat, names);
        let i = n - 1;
        let run = runs[i];
        reveal(runs_fit);
        lemma_call_marks(
            rules,
            calls[i],
            tracker_after(t, calls, (i + 1) as nat).count as int,
            sequence_after(sequence, runs, i as nat),
            run,
            names,
        );
        lemma_marks_both(
            runs_marks(calls, runs.take(n - 1)),
            call_marks(calls[n - 1], run),
            names,
        );
    }
}

/// What is beside the loop records use by these names only.
spec fn drains_by(m: ModelRules, names: spec_fn(Seq<char>) -> bool) -> bool {
    forall|events: Seq<Handed>|
        (m.drains)(#[trigger] offered(events)) ==> names_in(events, names)
}

/// A sample leaves no record of use where what is beside the loop leaves none.
proof fn lemma_sampling_records_nothing(
    m: ModelRules,
    log: Seq<Handed>,
    s: Sampling,
    n: nat,
    names: spec_fn(Seq<char>) -> bool,
)
    requires
        are_retries(m, s.points, s.tries),
        s.points[0].log == log,
        n <= s.tries.len(),
        drains_by(m, names),
    ensures
        recorded_as(log, s.points[n as int].log, names),
    decreases n,
{
    if n == 0 {
        lemma_extends_refl(log);
        assert(added(log, log) =~= Seq::<Handed>::empty());
    } else {
        let i = n - 1;
        lemma_sampling_records_nothing(m, log, s, i as nat, names);
        let a = s.tries[i];
        let at = s.points[i];
        let next = s.points[i + 1];
        assert(is_retry(m, i as nat, at, a, next));
        let (cut, said) = choose|cut: int, said: Result<String, ErrorEnvelope>|
            recovers(m.recovery->0, at, a, cut, said, next);
        lemma_outside(at.log, a.outside, names);
        let drained = at.log + a.outside;
        lemma_extends_refl(drained);
        lemma_extends_push(drained, drained, next.log.last());
        assert(added(drained, next.log) =~= seq![next.log.last()]);
        assert(recorded_as(drained, next.log, names));
        lemma_recorded_trans(at.log, drained, next.log, names);
        lemma_recorded_trans(log, at.log, next.log, names);
    }
}

proof fn lemma_outside(log: Seq<Handed>, outside: Seq<Handed>, names: spec_fn(Seq<char>) -> bool)
    requires
        names_in(outside, names),
    ensures
        recorded_as(log, log + outside, names),
{
    assert((log + outside).subrange(0, log.len() as int) =~= log);
    assert(added(log, log + outside) =~= outside);
}

/// What a sample could not record is a compaction.
proof fn lemma_lost_compaction(m: ModelRules, s: Sampling)
    requires
        s.lost is Some,
        exists|log: Seq<Handed>, history: Seq<MessageView>| #[trigger]
            is_sampling(m, log, history, s),
    ensures
        s.lost->0.event is CompactionApplied,
{
    let at = s.points.last();
    let failure = s.result->Err_0@;
    let (cut, said) = choose|cut: int, said: Result<String, ErrorEnvelope>|
        not_compacted(m.recovery->0, at, cut, said, s.lost, failure);
    assert(not_compacted(m.recovery->0, at, cut, said, s.lost, failure));
}

proof fn lemma_sample_records_nothing(
    m: ModelRules,
    log: Seq<Handed>,
    history: Seq<MessageView>,
    s: Sampling,
    names: spec_fn(Seq<char>) -> bool,
)
    requires
        is_sampling(m, log, history, s),
        drains_by(m, names),
    ensures
        recorded_as(log, s.log, names),
{
    lemma_sampling_records_nothing(m, log, s, s.tries.len(), names);
    let at = s.points.last();
    assert(at == s.points[s.tries.len() as int]);
    if let Some(a) = s.last {
        lemma_outside(at.log, a.outside, names);
        let drained = at.log + a.outside;
        lemma_recorded_trans(log, at.log, drained, names);
        if let Some(record) = s.lost {
            lemma_lost_compaction(m, s);
            lemma_extends_refl(drained);
            lemma_extends_push(drained, drained, record);
            assert(added(drained, s.log) =~= seq![record]);
            assert(recorded_as(drained, s.log, names));
            lemma_recorded_trans(log, drained, s.log, names);
        }
    }
}

// ---------------------------------------------------------------------------
// Samples
// ---------------------------------------------------------------------------

/// Nothing beside the loop records use.
pub open spec fn quiet(m: ModelRules) -> bool {
    forall|events: Seq<Event>| #[trigger]
        (m.drains)(events) ==> forall|i: int|
            0 <= i < events.len() ==> !(#[trigger] events[i] is TokenUsageRecorded)
}

/// No sample for a message of the turn from position `from` on is in the budget yet.
pub open spec fn unsampled_from(log: Seq<Event>, turn_id: u64, from: nat) -> bool {
    ledger_of(log) matches Ok(l) ==> forall|m: nat, r: u32|
        m >= from ==> !l.ids.contains(#[trigger] usage_id_of(turn_id, m, r))
}

/// The names of the first samples for a message.
spec fn sample_names(turn_id: u64, message: nat, below: nat) -> spec_fn(Seq<char>) -> bool {
    |x: Seq<char>|
        exists|r: u32| r < below && x == #[trigger] usage_id_of(turn_id, message, r)
}

proof fn lemma_quiet(m: ModelRules, names: spec_fn(Seq<char>) -> bool)
    requires
        quiet(m),
    ensures
        drains_by(m, names),
{
    assert forall|events: Seq<Handed>|
        (m.drains)(#[trigger] offered(events)) implies names_in(events, names) by {
        assert forall|i: int| 0 <= i < events.len() implies !(
        (#[trigger] events[i]).event is TokenUsageRecorded) by {
            assert(offered(events)[i] == events[i].event);
        }
    }
}

proof fn lemma_sample_marks(
    rules: TurnRules,
    round: nat,
    h: Seq<MessageView>,
    reply: ReplyView,
)
    requires
        round < u32::MAX,
    ensures
        marks_in(
            sample_marks(rules, round, h, reply),
            sample_names(rules.turn_id, rules.message, round + 1),
        ),
{
    let names = sample_names(rules.turn_id, rules.message, round + 1);
    assert(names(usage_id_of(rules.turn_id, rules.message, round as u32)));
}

proof fn lemma_round_records(
    rules: ChatRules,
    round: nat,
    p: TurnPoint,
    q: TurnPoint,
    s: Sampling,
    runs: Seq<ToolRun>,
)
    requires
        is_round(rules, round, p, q, s, runs),
        quiet(rules.model),
        round < u32::MAX,
    ensures
        recorded_as(
            p.log,
            q.log,
            sample_names(rules.turn.turn_id, rules.turn.message, round + 1),
        ),
{
    let names = sample_names(rules.turn.turn_id, rules.turn.message, round + 1);
    lemma_quiet(rules.model, names);
    lemma_sample_records_nothing(rules.model, p.log, heard(p), s, names);
    let at = after_sample(p, s);
    let reply = reply_of(s);
    let used = sample_marks(rules.turn, round, at.history, reply);
    lemma_sample_marks(rules.turn, round, at.history, reply);
    let batch = seq![batch_mark(rules.turn, round, reply.calls)];
    lemma_marks_both(used, batch, names);
    assert(used.push(batch_mark(rules.turn, round, reply.calls)) =~= used + batch);
    lemma_runs_marks(
        rules.turn,
        reply.calls,
        at.tracker,
        at.sequence,
        runs,
        runs.len(),
        names,
    );
    assert(runs.take(runs.len() as int) =~= runs);
    lemma_marks_both(used + batch, runs_marks(reply.calls, runs), names);
    lemma_wrote_names(
        at.log,
        q.log,
        reply_marks(rules.turn, round, at.history, reply, runs),
        names,
    );
    lemma_recorded_trans(p.log, s.log, q.log, names);
}

proof fn lemma_rounds_record(
    rules: ChatRules,
    points: Seq<TurnPoint>,
    samples: Seq<Sampling>,
    runs: Seq<Seq<ToolRun>>,
    n: nat,
)
    requires
        are_rounds(rules, points, samples, runs),
        quiet(rules.model),
        n <= samples.len() < u32::MAX,
    ensures
        recorded_as(
            points[0].log,
            points[n as int].log,
            sample_names(rules.turn.turn_id, rules.turn.message, n),
        ),
    decreases n,
{
    let id = rules.turn.turn_id;
    let m = rules.turn.message;
    if n == 0 {
        lemma_extends_refl(points[0].log);
        assert(added(points[0].log, points[0].log) =~= Seq::<Handed>::empty());
    } else {
        let i = n - 1;
        lemma_rounds_record(rules, points, samples, runs, i as nat);
        assert(is_round(rules, i as nat, points[i], points[i + 1], samples[i], runs[i]));
        lemma_round_records(rules, i as nat, points[i], points[i + 1], samples[i], runs[i]);
        lemma_more_names(points[0].log, points[i].log, id, m, i as nat, n);
        lemma_recorded_trans(
            points[0].log,
            points[i].log,
            points[i + 1].log,
            sample_names(id, m, n),
        );
    }
}

proof fn lemma_more_names(
    a: Seq<Handed>,
    b: Seq<Handed>,
    turn_id: u64,
    message: nat,
    fewer: nat,
    more: nat,
)
    requires
        recorded_as(a, b, sample_names(turn_id, message, fewer)),
        fewer <= more,
    ensures
        recorded_as(a, b, sample_names(turn_id, message, more)),
{
    let few = sample_names(turn_id, message, fewer);
    let many = sample_names(turn_id, message, more);
    assert forall|x: Seq<char>| #[trigger] few(x) implies many(x) by {
        let r = choose|r: u32| r < fewer && x == #[trigger] usage_id_of(turn_id, message, r);
        assert(r < more && x == usage_id_of(turn_id, message, r));
    }
    lemma_recorded_more(a, b, few, many);
}

/// What is said leaves no record of use.
proof fn lemma_said(
    before: Seq<Handed>,
    after: Seq<Handed>,
    text: Seq<char>,
    names: spec_fn(Seq<char>) -> bool,
)
    requires
        wrote(before, after, seq![Mark::Said { text }]),
    ensures
        recorded_as(before, after, names),
{
    lemma_wrote_names(before, after, seq![Mark::Said { text }], names);
}

/// The names that a message records by are new where the budget held none of them.
proof fn lemma_still_unsampled(
    before: Seq<Handed>,
    after: Seq<Handed>,
    turn_id: u64,
    message: nat,
    below: nat,
)
    requires
        recorded_as(before, after, sample_names(turn_id, message, below)),
        unsampled_from(taken(before), turn_id, message),
    ensures
        unsampled_from(taken(after), turn_id, message + 1),
        ledger_of(taken(after)) matches Ok(l) ==> forall|r: u32|
            r >= below ==> !l.ids.contains(#[trigger] usage_id_of(turn_id, message, r)),
{
    let names = sample_names(turn_id, message, below);
    lemma_names_added(before, after, names);
    if let Ok(l) = ledger_of(taken(after)) {
        assert forall|m: nat, r: u32|
            (m >= message + 1 || m == message && r >= below) implies !l.ids.contains(
            #[trigger] usage_id_of(turn_id, m, r),
        ) by {
            let x = usage_id_of(turn_id, m, r);
            if names(x) {
                let q = choose|q: u32| q < below && x == #[trigger] usage_id_of(turn_id, message, q);
                sample_ids_are_distinct(turn_id, m, r, turn_id, message, q);
            }
            if l.ids.contains(x) {
                assert(ledger_of(taken(before))->Ok_0.ids.contains(x));
            }
        }
    }
}

/// Where no sample for a message was recorded before the message was said, the name of
/// its next sample is free: the budget never refuses it as one that is taken.
pub proof fn a_sample_meets_no_name_of_its_message(
    rules: ChatRules,
    text: Seq<char>,
    from: Standing,
    points: Seq<TurnPoint>,
    samples: Seq<Sampling>,
    runs: Seq<Seq<ToolRun>>,
    next: Sampling,
)
    requires
        begins_turn(rules, text, from, points, samples, runs),
        sampled(rules, points.last(), next),
        samples.len() < u32::MAX,
        quiet(rules.model),
        unsampled_from(taken(from.log), rules.turn.turn_id, rules.turn.message),
    ensures
        ledger_of(taken(next.log)) matches Ok(l) ==> !l.ids.contains(
            usage_id_of(rules.turn.turn_id, rules.turn.message, samples.len() as u32),
        ),
{
    let n = samples.len();
    let names = sample_names(rules.turn.turn_id, rules.turn.message, n);
    lemma_said(from.log, points[0].log, text, names);
    lemma_rounds_record(rules, points, samples, runs, n);
    lemma_quiet(rules.model, names);
    lemma_sample_records_nothing(
        rules.model,
        points.last().log,
        heard(points.last()),
        next,
        names,
    );
    assert(points.last() == points[n as int]);
    lemma_recorded_trans(from.log, points[0].log, points.last().log, names);
    lemma_recorded_trans(from.log, points.last().log, next.log, names);
    lemma_still_unsampled(from.log, next.log, rules.turn.turn_id, rules.turn.message, n);
}

proof fn lemma_message_records(
    rules: ChatRules,
    text: Seq<char>,
    from: Standing,
    to: Standing,
)
    requires
        answered_as(rules, text, from, to, None),
        quiet(rules.model),
        rules.turn.limit <= u32::MAX,
        unsampled_from(taken(from.log), rules.turn.turn_id, rules.turn.message),
    ensures
        unsampled_from(taken(to.log), rules.turn.turn_id, rules.turn.message + 1),
{
    let (points, samples, runs, end) = choose|
        points: Seq<TurnPoint>,
        samples: Seq<Sampling>,
        runs: Seq<Seq<ToolRun>>,
        end: TurnEnd,
    |
        is_chat_turn(rules, text, from, points, samples, runs, end, to, None);
    let n = samples.len();
    let id = rules.turn.turn_id;
    let m = rules.turn.message;
    let names = sample_names(id, m, n + 1);
    let p = points.last();
    assert(p == points[n as int]);
    lemma_said(from.log, points[0].log, text, names);
    lemma_rounds_record(rules, points, samples, runs, n);
    lemma_more_names(points[0].log, p.log, id, m, n, n + 1);
    lemma_recorded_trans(from.log, points[0].log, p.log, names);
    let sample = end->Answered_sample;
    lemma_quiet(rules.model, names);
    lemma_sample_records_nothing(
        rules.model,
        p.log,
        heard(p),
        sample,
        names,
    );
    lemma_recorded_trans(from.log, p.log, sample.log, names);
    let reply = reply_of(sample);
    let used = sample_marks(rules.turn, n, sample.history, reply);
    let told = seq![Mark::Answered { text: reply.text }];
    lemma_sample_marks(rules.turn, n, sample.history, reply);
    lemma_marks_both(used, told, names);
    assert(used.push(Mark::Answered { text: reply.text }) =~= used + told);
    lemma_wrote_names(
        sample.log,
        to.log,
        answer_marks(rules.turn, n, sample.history, reply),
        names,
    );
    lemma_recorded_trans(from.log, sample.log, to.log, names);
    lemma_still_unsampled(from.log, to.log, id, m, n + 1);
}

/// Where no sample of the turn was recorded before it began, and nothing beside the loop
/// records use, the messages answered so far took no name of a later one.
pub proof fn each_message_has_its_own_records(
    rules: LoopRules,
    texts: Seq<Seq<char>>,
    stands: Seq<Standing>,
)
    requires
        rules.chat matches Some(model) && quiet(model),
        rules.turn.limit <= u32::MAX,
        messages_answered(rules, texts, stands),
        unsampled_from(taken(stands[0].log), rules.turn.turn_id, 0),
    ensures
        unsampled_from(
            taken(stands.last().log),
            rules.turn.turn_id,
            (stands.len() - 1) as nat,
        ),
    decreases stands.len(),
{
    let n = stands.len() - 1;
    if n > 0 {
        let earlier = stands.drop_last();
        lemma_earlier_messages(rules, texts, stands);
        each_message_has_its_own_records(rules, texts, earlier);
        let k = n - 1;
        let at = at_message(rules, k as nat);
        assert(stands[k + 1] == stands.last());
        assert(stands[k] == earlier.last());
        assert(message_as(at, texts[k], stands[k], stands[k + 1], None));
        lemma_message_records(
            ChatRules { turn: at.turn, model: rules.chat->0 },
            texts[k],
            stands[k],
            stands[k + 1],
        );
    }
}

} // verus!
