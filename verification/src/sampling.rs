//! Sampling the model for a conversation. A full context window is answered by
//! compacting the conversation and trying again.
use vstd::prelude::*;
use crate::chat_turn::{source_benign, ChatTurnConfig, EventSource};
use crate::compaction::{
    is_safe_prefix, no_safe_prefix, summaries_of, summary_error, summary_input, summary_of, TwoStageCompactor,
};
use crate::history::{
    compact_history, compacted_history, compaction_error, compacts_as, history_closed,
    history_entries, is_compaction_event, messages_behind_a_cut_are_kept,
};
use crate::json::Json;
use crate::model_provider::{messages_view, ChatMessage, ChatModel, ChatReply, MessageView};
use crate::protocol::{ErrorCode, ErrorEnvelope, ErrorView, Event, ModelCallSpec};
use crate::session::{offered, taken, Handed, SessionStore, StoredEvents};
use crate::usage::{
    ensure_budget_allows_sample, is_neutral, lemma_step_push, lemma_step_refl, lemma_step_trans,
    sample_error, step_ok,
};

verus! {

broadcast use vstd::string::group_string_axioms;

// ---------------------------------------------------------------------------
// What the model, the source and the summarizer give
// ---------------------------------------------------------------------------

/// The model was asked and gave `r`.
pub open spec fn streamed<C: ChatModel + ?Sized>(
    chat: &C,
    spec: &ModelCallSpec,
    messages: &Vec<ChatMessage>,
    tools: Option<&Json>,
    r: Result<ChatReply, ErrorEnvelope>,
) -> bool {
    call_ensures(C::stream_chat, (chat, spec, messages, tools), r)
}

/// The same, by what the conversation says.
pub open spec fn replied_to<C: ChatModel + ?Sized>(
    chat: &C,
    spec: &ModelCallSpec,
    tools: Option<&Json>,
    h: Seq<MessageView>,
    r: Result<ChatReply, ErrorEnvelope>,
) -> bool {
    exists|messages: Vec<ChatMessage>| #[trigger]
        streamed(chat, spec, &messages, tools, r) && messages_view(messages@) == h
}

/// The source was drained and gave `r`.
pub open spec fn source_gave<E: EventSource + ?Sized>(source: &E, r: Vec<Event>) -> bool {
    call_ensures(E::drain_events, (source,), r)
}

/// What the source, if there is one, has to write.
pub open spec fn drained(source: Option<&dyn EventSource>, events: Seq<Event>) -> bool {
    match source {
        None => events.len() == 0,
        Some(s) => exists|r: Vec<Event>| #[trigger] source_gave(s, r) && r@ == events,
    }
}

/// What a model gives for a conversation.
pub open spec fn replies_of<C: ChatModel + ?Sized>(
    chat: &C,
    spec: &ModelCallSpec,
    tools: Option<&Json>,
) -> spec_fn(Seq<MessageView>, Result<ChatReply, ErrorEnvelope>) -> bool {
    |h: Seq<MessageView>, r: Result<ChatReply, ErrorEnvelope>| replied_to(chat, spec, tools, h, r)
}

/// What a source gives.
pub open spec fn drains_of(source: Option<&dyn EventSource>) -> spec_fn(Seq<Event>) -> bool {
    |events: Seq<Event>| drained(source, events)
}

/// How a full context window is recovered from.
pub struct RecoveryRules {
    pub compactor: TwoStageCompactor,
    /// How often it is tried again at most.
    pub limit: nat,
    /// What the summarizer gives for a text.
    pub summarizes: spec_fn(Seq<char>, Result<String, ErrorEnvelope>) -> bool,
}

/// Who takes part in sampling.
pub struct ModelRules {
    /// What the model gives for a conversation.
    pub replies: spec_fn(Seq<MessageView>, Result<ChatReply, ErrorEnvelope>) -> bool,
    /// What others write to the session meanwhile.
    pub drains: spec_fn(Seq<Event>) -> bool,
    pub recovery: Option<RecoveryRules>,
}

pub open spec fn model_rules<C: ChatModel + ?Sized>(cfg: ChatTurnConfig, chat: &C) -> ModelRules {
    ModelRules {
        replies: replies_of(chat, cfg.spec, cfg.tool_definitions),
        drains: drains_of(cfg.external_events),
        recovery: match cfg.overflow_recovery {
            None => None,
            Some(o) => Some(
                RecoveryRules {
                    compactor: *o.compactor,
                    limit: o.max_retries as nat,
                    summarizes: summaries_of(o.summarizer.it),
                },
            ),
        },
    }
}

// ---------------------------------------------------------------------------
// One sample
// ---------------------------------------------------------------------------

/// Where a sample stands between two tries.
pub struct SamplePoint {
    pub log: Seq<Handed>,
    pub history: Seq<MessageView>,
}

/// One try: what the model gave, and what others wrote meanwhile.
pub struct Attempt {
    pub gave: Result<ChatReply, ErrorEnvelope>,
    pub outside: Seq<Handed>,
}

/// The model was asked at `at`, which the budget allowed.
pub open spec fn is_attempt(m: ModelRules, at: SamplePoint, a: Attempt) -> bool {
    &&& sample_error(taken(at.log)) is None
    &&& (m.replies)(at.history, a.gave)
    &&& (m.drains)(offered(a.outside))
}

/// The `n`th failure `e` is answered by a compaction, where one is possible.
pub open spec fn may_recover(m: ModelRules, n: nat, e: ErrorEnvelope) -> bool {
    e.code == ErrorCode::ContextWindowExceeded && (m.recovery matches Some(rec) && n < rec.limit)
}

/// The conversation of `at` was compacted at `cut` with a summary, and stands at `next`.
pub open spec fn recovers(
    rec: RecoveryRules,
    at: SamplePoint,
    a: Attempt,
    cut: int,
    said: Result<String, ErrorEnvelope>,
    next: SamplePoint,
) -> bool {
    let c = rec.compactor;
    let entries = history_entries(at.history);
    &&& is_safe_prefix(entries, c.retained() as int, cut)
    &&& (rec.summarizes)(summary_input(entries, c, cut), said)
    &&& summary_error(said) is None
    &&& next.log == (at.log + a.outside).push(next.log.last())
    &&& is_compaction_event(next.log.last().event, said->Ok_0@, cut)
    &&& next.log.last().refused is None
    &&& next.history == compacted_history(at.history, cut, c.max(), c.preview(), said->Ok_0@)
}

/// A try failed for a full context window, and another one follows from `next`.
pub open spec fn is_retry(
    m: ModelRules,
    n: nat,
    at: SamplePoint,
    a: Attempt,
    next: SamplePoint,
) -> bool {
    &&& is_attempt(m, at, a)
    &&& a.gave is Err
    &&& may_recover(m, n, a.gave->Err_0)
    &&& exists|cut: int, said: Result<String, ErrorEnvelope>|
        recovers(m.recovery->0, at, a, cut, said, next)
}

/// The summarizer gave nothing that can be used, or the session did not take the record
/// `lost` of the compaction, and `failure` says why.
pub open spec fn not_compacted(
    rec: RecoveryRules,
    at: SamplePoint,
    cut: int,
    said: Result<String, ErrorEnvelope>,
    lost: Option<Handed>,
    failure: ErrorView,
) -> bool {
    let entries = history_entries(at.history);
    &&& is_safe_prefix(entries, rec.compactor.retained() as int, cut)
    &&& (rec.summarizes)(summary_input(entries, rec.compactor, cut), said)
    &&& match summary_error(said) {
        Some(e) => lost is None && failure == e,
        None => {
            &&& lost is Some
            &&& is_compaction_event(lost->0.event, said->Ok_0@, cut)
            &&& lost->0.refused matches Some(detail) && failure == compaction_error(detail)
        },
    }
}

/// What a failed try comes to where no other follows: its own error, or that of the
/// compaction.
pub open spec fn gives_up(
    m: ModelRules,
    n: nat,
    at: SamplePoint,
    e: ErrorEnvelope,
    lost: Option<Handed>,
    failure: ErrorView,
) -> bool {
    if may_recover(m, n, e) && !no_safe_prefix(
        history_entries(at.history),
        m.recovery->0.compactor.retained() as int,
    ) {
        exists|cut: int, said: Result<String, ErrorEnvelope>|
            not_compacted(m.recovery->0, at, cut, said, lost, failure)
    } else {
        lost is None && failure == e@
    }
}

/// A whole sample: the tries that were followed by another one, the last one, unless
/// the budget forbade it, and what came out.
pub struct Sampling {
    pub points: Seq<SamplePoint>,
    pub tries: Seq<Attempt>,
    pub last: Option<Attempt>,
    /// The record of a compaction that the session did not take.
    pub lost: Option<Handed>,
    pub log: Seq<Handed>,
    pub history: Seq<MessageView>,
    pub result: Result<ChatReply, ErrorEnvelope>,
}

pub open spec fn are_retries(
    m: ModelRules,
    points: Seq<SamplePoint>,
    tries: Seq<Attempt>,
) -> bool {
    &&& points.len() == tries.len() + 1
    &&& forall|i: int|
        0 <= i < tries.len() ==> is_retry(
            m,
            i as nat,
            points[i],
            #[trigger] tries[i],
            points[i + 1],
        )
}

/// The model was sampled for `history` with the session at `log`.
pub open spec fn is_sampling(
    m: ModelRules,
    log: Seq<Handed>,
    history: Seq<MessageView>,
    s: Sampling,
) -> bool {
    let at = s.points.last();
    &&& are_retries(m, s.points, s.tries)
    &&& s.points[0] == (SamplePoint { log, history })
    &&& s.history == at.history
    &&& match s.last {
        None => {
            &&& s.lost is None
            &&& s.log == at.log
            &&& s.result is Err
            &&& sample_error(taken(at.log)) == Some(s.result->Err_0@)
        },
        Some(a) => {
            &&& is_attempt(m, at, a)
            &&& s.log == match s.lost {
                None => at.log + a.outside,
                Some(record) => (at.log + a.outside).push(record),
            }
            &&& match a.gave {
                Ok(_) => s.lost is None && s.result == a.gave,
                Err(e) => s.result is Err && gives_up(
                    m,
                    s.tries.len(),
                    at,
                    e,
                    s.lost,
                    s.result->Err_0@,
                ),
            }
        },
    }
}

/// Without anything beside the loop and without recovery, a sample asks the model once
/// and leaves the session and the conversation as they are.
pub proof fn a_plain_sample_changes_nothing(
    m: ModelRules,
    log: Seq<Handed>,
    history: Seq<MessageView>,
    s: Sampling,
)
    requires
        is_sampling(m, log, history, s),
        m.recovery is None,
        forall|events: Seq<Event>| #[trigger] (m.drains)(events) ==> events.len() == 0,
    ensures
        s.log == log,
        s.history == history,
        match sample_error(taken(log)) {
            Some(e) => s.result is Err && s.result->Err_0@ == e,
            None => match s.result {
                Ok(_) => (m.replies)(history, s.result),
                Err(e) => exists|gave: Result<ChatReply, ErrorEnvelope>| #[trigger]
                    (m.replies)(history, gave) && gave is Err && gave->Err_0@ == e@,
            },
        },
{
    if s.tries.len() > 0 {
        let first = s.tries[0];
        assert(is_retry(m, 0, s.points[0], first, s.points[1]));
    }
    assert(s.tries.len() == 0);
    match s.last {
        None => {},
        Some(a) => {
            assert((m.drains)(offered(a.outside)));
            assert(offered(a.outside).len() == a.outside.len());
            assert(log + a.outside =~= log);
            assert((m.replies)(history, a.gave));
        },
    }
}

/// A sample that has a reply has one that the model gave for the conversation as it is after
/// the sample.
pub proof fn a_reply_is_what_the_model_gave(
    m: ModelRules,
    log: Seq<Handed>,
    history: Seq<MessageView>,
    s: Sampling,
)
    requires
        is_sampling(m, log, history, s),
        s.result is Ok,
    ensures
        (m.replies)(s.history, s.result),
{
}

// ---------------------------------------------------------------------------
// Sampling
// ---------------------------------------------------------------------------

/// Writes the events of a source to the session.
fn absorb_external<S: SessionStore>(session: &mut S, source: Option<&dyn EventSource>)
    ensures
        final(session).intact() ==> old(session).intact(),
        step_ok(
            source_benign(source),
            final(session).intact(),
            old(session).events(),
            final(session).events(),
        ),
        source is None ==> final(session).events() == old(session).events(),
        exists|outside: Seq<Handed>|
            final(session).handed() == old(session).handed() + outside && drained(
                source,
                #[trigger] offered(outside),
            ),
{
    let ghost start = session.events();
    let ghost start_h = session.handed();
    let ghost benign = source_benign(source);
    proof {
        lemma_step_refl(benign, session.intact(), start);
        assert(start_h + Seq::<Handed>::empty() =~= start_h);
        assert(offered(Seq::<Handed>::empty()) =~= Seq::<Event>::empty());
    }
    match source {
        None => {
            assert(drained(source, offered(Seq::<Handed>::empty())));
        },
        Some(s) => {
            let mut events = s.drain_events();
            let ghost all = events@;
            assert(source_gave(s, events));
            assert(drained(source, all));
            let ghost mut outside: Seq<Handed> = Seq::empty();
            while events.len() > 0
                invariant
                    session.intact() ==> old(session).intact(),
                    step_ok(benign, session.intact(), start, session.events()),
                    outside.len() <= all.len(),
                    events@ == all.subrange(outside.len() as int, all.len() as int),
                    benign ==> forall|i: int| 0 <= i < all.len() ==> is_neutral(#[trigger] all[i]),
                    session.handed() == start_h + outside,
                    offered(outside) == all.take(outside.len() as int),
                decreases events@.len(),
            {
                let ghost log = session.events();
                let ghost done = outside.len() as int;
                let event = events.remove(0);
                proof {
                    assert(event == all[done]);
                    assert(events@ =~= all.subrange(done + 1, all.len() as int));
                    lemma_step_push(benign, session.intact(), start, log, event);
                }
                let _ = session.append(event);
                proof {
                    let next = session.handed().last();
                    assert((start_h + outside).push(next) =~= start_h + outside.push(next));
                    assert(offered(outside.push(next)) =~= offered(outside).push(event));
                    assert(all.take(done + 1) =~= all.take(done).push(event));
                    outside = outside.push(next);
                }
            }
            assert(all.take(outside.len() as int) =~= all);
        },
    }
}

/// One sample of the model. A full context window is answered by compacting the
/// conversation and trying again, as often as the recovery allows.
pub fn sample<S: SessionStore, C: ChatModel + ?Sized>(
    session: &mut S,
    chat: &C,
    cfg: &ChatTurnConfig,
    history: &mut Vec<ChatMessage>,
) -> (r: Result<ChatReply, ErrorEnvelope>)
    ensures
        final(session).intact() ==> old(session).intact(),
        step_ok(
            source_benign(cfg.external_events),
            final(session).intact(),
            old(session).events(),
            final(session).events(),
        ),
        history_closed(messages_view(old(history)@)) ==> history_closed(
            messages_view(final(history)@),
        ),
        exists|s: Sampling|
            {
                &&& #[trigger] is_sampling(
                    model_rules(*cfg, chat),
                    old(session).handed(),
                    messages_view(old(history)@),
                    s,
                )
                &&& s.log == final(session).handed()
                &&& s.history == messages_view(final(history)@)
                &&& s.result == r
            },
{
    let ghost start = session.events();
    let ghost start_h = session.handed();
    let ghost h0 = messages_view(history@);
    let ghost benign = source_benign(cfg.external_events);
    let ghost m = model_rules(*cfg, chat);
    proof {
        lemma_step_refl(benign, session.intact(), start);
    }
    let mut overflow_retries: u32 = 0;
    let limit: u32 = match &cfg.overflow_recovery {
        Some(recovery) => recovery.max_retries,
        None => 0,
    };
    let ghost mut points: Seq<SamplePoint> = seq![SamplePoint { log: start_h, history: h0 }];
    let ghost mut tries: Seq<Attempt> = Seq::empty();
    loop
        invariant
            session.intact() ==> old(session).intact(),
            start == old(session).events(),
            start_h == old(session).handed(),
            h0 == messages_view(old(history)@),
            m == model_rules(*cfg, chat),
            benign == source_benign(cfg.external_events),
            step_ok(benign, session.intact(), start, session.events()),
            history_closed(h0) ==> history_closed(messages_view(history@)),
            overflow_retries <= limit,
            limit == (match cfg.overflow_recovery {
                Some(recovery) => recovery.max_retries,
                None => 0,
            }),
            tries.len() == overflow_retries,
            are_retries(m, points, tries),
            points[0] == (SamplePoint { log: start_h, history: h0 }),
            points.last() == (SamplePoint {
                log: session.handed(),
                history: messages_view(history@),
            }),
        decreases limit - overflow_retries,
    {
        let ghost at = points.last();
        let ghost h1 = messages_view(history@);
        match ensure_budget_allows_sample(session) {
            Ok(()) => {},
            Err(e) => {
                proof {
                    let s = Sampling {
                        points,
                        tries,
                        last: None,
                        lost: None,
                        log: at.log,
                        history: at.history,
                        result: Err(e),
                    };
                    assert(is_sampling(m, start_h, h0, s));
                }
                return Err(e);
            },
        }
        let reply = chat.stream_chat(cfg.spec, history, cfg.tool_definitions);
        assert(streamed(chat, cfg.spec, history, cfg.tool_definitions, reply));
        let ghost log0 = session.events();
        let ghost handed0 = session.handed();
        absorb_external(session, cfg.external_events);
        let ghost log1 = session.events();
        let ghost handed1 = session.handed();
        let ghost outside = choose|outside: Seq<Handed>|
            handed1 == handed0 + outside && drained(
                cfg.external_events,
                #[trigger] offered(outside),
            );
        let ghost a = Attempt { gave: reply, outside };
        proof {
            lemma_step_trans(benign, session.intact(), start, log0, log1);
            assert((m.replies)(h1, reply));
            assert((m.drains)(offered(outside)));
            assert(is_attempt(m, at, a));
        }
        let ghost s = Sampling {
            points,
            tries,
            last: Some(a),
            lost: None,
            log: handed1,
            history: h1,
            result: reply,
        };
        let e = match reply {
            Ok(reply) => {
                assert(is_sampling(m, start_h, h0, s));
                return Ok(reply);
            },
            Err(e) => e,
        };
        if e.code != ErrorCode::ContextWindowExceeded {
            assert(is_sampling(m, start_h, h0, s));
            return Err(e);
        }
        match &cfg.overflow_recovery {
            None => {
                assert(is_sampling(m, start_h, h0, s));
                return Err(e);
            },
            Some(recovery) => {
                if overflow_retries >= recovery.max_retries {
                    assert(is_sampling(m, start_h, h0, s));
                    return Err(e);
                }
                let compacted = compact_history(
                    session,
                    history,
                    recovery.compactor,
                    recovery.summarizer.it,
                );
                let ghost next = SamplePoint {
                    log: session.handed(),
                    history: messages_view(history@),
                };
                let ghost (cut, said) = choose|cut: int, said: Result<String, ErrorEnvelope>|
                    {
                        let entries = history_entries(h1);
                        let c = *recovery.compactor;
                        &&& is_safe_prefix(entries, c.retained() as int, cut)
                        &&& summary_of(recovery.summarizer.it, summary_input(entries, c, cut), said)
                        &&& #[trigger] compacts_as(
                            h1,
                            *recovery.compactor,
                            cut,
                            said,
                            handed1,
                            next.log,
                            next.history,
                            compacted,
                        )
                    };
                match compacted {
                    Err(failure) => {
                        proof {
                            let lost = if summary_error(said) is Some {
                                None
                            } else {
                                Some(next.log.last())
                            };
                            let gave_up = Sampling {
                                result: Err(failure),
                                lost,
                                log: next.log,
                                ..s
                            };
                            assert(not_compacted(m.recovery->0, at, cut, said, lost, failure@));
                            assert(is_sampling(m, start_h, h0, gave_up));
                        }
                        return Err(failure);
                    },
                    Ok(None) => {
                        assert(is_sampling(m, start_h, h0, s));
                        return Err(e);
                    },
                    Ok(Some(_)) => {
                        proof {
                            lemma_step_push(
                                benign,
                                session.intact(),
                                start,
                                log1,
                                session.events().last(),
                            );
                            assert(recovers(m.recovery->0, at, a, cut, said, next));
                            assert(is_retry(m, tries.len(), at, a, next));
                            lemma_next_try(m, points, tries, a, next);
                            points = points.push(next);
                            tries = tries.push(a);
                        }
                    },
                }
            },
        }
        overflow_retries = overflow_retries + 1;
    }
}

proof fn lemma_next_try(
    m: ModelRules,
    points: Seq<SamplePoint>,
    tries: Seq<Attempt>,
    a: Attempt,
    next: SamplePoint,
)
    requires
        are_retries(m, points, tries),
        is_retry(m, tries.len(), points.last(), a, next),
    ensures
        are_retries(m, points.push(next), tries.push(a)),
{
    let ps = points.push(next);
    let ts = tries.push(a);
    assert forall|i: int| 0 <= i < ts.len() implies is_retry(
        m,
        i as nat,
        ps[i],
        #[trigger] ts[i],
        ps[i + 1],
    ) by {
        if i < tries.len() {
            assert(ts[i] == tries[i]);
        }
    }
}

// ---------------------------------------------------------------------------
// Laws
// ---------------------------------------------------------------------------

/// A sample is tried again only where the context window was full, and no more often than is
/// allowed.
pub proof fn when_a_sample_is_tried_again(
    m: ModelRules,
    log: Seq<Handed>,
    history: Seq<MessageView>,
    s: Sampling,
    i: int,
)
    requires
        is_sampling(m, log, history, s),
        0 <= i < s.tries.len(),
    ensures
        s.tries[i].gave is Err,
        s.tries[i].gave->Err_0.code == ErrorCode::ContextWindowExceeded,
        m.recovery is Some,
        i < m.recovery->0.limit,
        (m.replies)(s.points[i].history, s.tries[i].gave),
{
    assert(is_retry(m, i as nat, s.points[i], s.tries[i], s.points[i + 1]));
}

/// A sample that is tried again has the summary in front of the messages behind a cut, each as
/// it was but for long results; what others wrote meanwhile and the record of the compaction
/// stand behind the log.
pub proof fn what_is_tried_again(
    rec: RecoveryRules,
    at: SamplePoint,
    a: Attempt,
    cut: int,
    said: Result<String, ErrorEnvelope>,
    next: SamplePoint,
    i: int,
)
    requires
        recovers(rec, at, a, cut, said, next),
        rec.compactor.preview() <= rec.compactor.max(),
        cut <= i < at.history.len(),
    ensures
        next.log.len() == at.log.len() + a.outside.len() + 1,
        next.log.last().event is CompactionApplied,
        next.log.last().event->CompactionApplied_summary@ == said->Ok_0@,
        next.history.len() == 1 + at.history.len() - cut,
        next.history[0].content == "Compacted conversation summary:\n"@ + said->Ok_0@,
        next.history[1 + i - cut].role == at.history[i].role,
        next.history[1 + i - cut].tool_call_id == at.history[i].tool_call_id,
        next.history[1 + i - cut].tool_calls == at.history[i].tool_calls,
        at.history[i].tool_call_id is None || at.history[i].content.len() <= rec.compactor.max()
            ==> next.history[1 + i - cut] == at.history[i],
        (rec.summarizes)(summary_input(history_entries(at.history), rec.compactor, cut), said),
{
    messages_behind_a_cut_are_kept(
        at.history,
        cut,
        rec.compactor.max(),
        rec.compactor.preview(),
        said->Ok_0@,
        i,
    );
}

/// A sample is given up with the model's own error where nothing can be recovered.
pub proof fn when_a_sample_is_given_up(
    m: ModelRules,
    n: nat,
    at: SamplePoint,
    e: ErrorEnvelope,
    lost: Option<Handed>,
    failure: ErrorView,
)
    requires
        gives_up(m, n, at, e, lost, failure),
    ensures
        e.code != ErrorCode::ContextWindowExceeded || m.recovery is None || n
            >= m.recovery->0.limit ==> lost is None && failure == e@,
{
}

/// Recovery goes by the configuration: its compactor, and as many tries as it allows.
pub proof fn what_recovery_goes_by<C: ChatModel + ?Sized>(cfg: ChatTurnConfig, chat: &C)
    ensures
        model_rules(cfg, chat).recovery is Some <==> cfg.overflow_recovery is Some,
        cfg.overflow_recovery is Some ==> model_rules(cfg, chat).recovery->0.limit
            == cfg.overflow_recovery->0.max_retries && model_rules(cfg, chat).recovery->0.compactor
            == *cfg.overflow_recovery->0.compactor,
{
}

/// A sample that the budget does not allow is not taken: the model is not asked, and nothing
/// changes.
pub proof fn the_budget_comes_first(
    m: ModelRules,
    log: Seq<Handed>,
    history: Seq<MessageView>,
    s: Sampling,
)
    requires
        is_sampling(m, log, history, s),
        sample_error(taken(log)) is Some,
    ensures
        s.tries.len() == 0,
        s.last is None,
        s.result is Err && s.result->Err_0@ == sample_error(taken(log))->0,
        s.log == log,
        s.history == history,
{
    if s.tries.len() > 0 {
        assert(is_retry(m, 0, s.points[0], s.tries[0], s.points[1]));
    }
}

} // verus!
