//! Checking and recording the token use of samples.
use vstd::prelude::*;
use crate::budget_ledger::{
    budget_error, distinct_and_named, ledger_of, ledger_step, path_ok, subtree_total,
    usage_recorded, what_is_left_of_a_budget, BudgetLedger, LedgerView,
};
use crate::protocol::{
    copy_texts, error, failure_of, ErrorCode, ErrorEnvelope, ErrorView, Event, TokenUsageSource,
};
use crate::session::{
    adds_only_calls, calls_kept, extends, is_call_event, is_turn_event, kept, lemma_extends_refl,
    lemma_extends_trans, lemma_open_calls_push, open_calls, turn_state, SessionStore, StoredEvents,
};
use crate::text::{blank, concat2, views};
use crate::token_meter::{estimated, total_chars, TokenMeter, TokenSource};

verus! {

broadcast use vstd::string::group_string_axioms;

// ---------------------------------------------------------------------------
// What a step of the loop may do to a stream
// ---------------------------------------------------------------------------

/// An event that the budget ledger reads.
pub open spec fn is_budget_event(e: Event) -> bool {
    e is TokenBudgetConfigured || e is TokenUsageRecorded
}

/// An event that is no part of a call, of a turn's frame or of the budget.
pub open spec fn is_neutral(e: Event) -> bool {
    !is_call_event(e) && !is_turn_event(e) && !is_budget_event(e)
}

/// Going from `before` to `after` added events only, began and ended no turn, and
/// left a budget that replays.
pub open spec fn steady(before: Seq<Event>, after: Seq<Event>) -> bool {
    kept(before, after) && (ledger_of(before) is Ok ==> ledger_of(after) is Ok)
}

/// What a step of the loop does to the stream. `benign`: the events that come from
/// outside the loop are neutral. `intact`: the store does not fail.
pub open spec fn step_ok(
    benign: bool,
    intact: bool,
    before: Seq<Event>,
    after: Seq<Event>,
) -> bool {
    &&& extends(before, after)
    &&& benign ==> steady(before, after)
    &&& benign && intact ==> calls_kept(before, after)
}

pub proof fn lemma_ledger_push(log: Seq<Event>, e: Event)
    ensures
        !is_budget_event(e) ==> ledger_of(log.push(e)) == ledger_of(log),
        ledger_of(log) is Ok ==> match ledger_step(ledger_of(log)->Ok_0, e) {
            (l, None) => ledger_of(log.push(e)) == Ok::<LedgerView, ErrorView>(l),
            (_, Some(x)) => ledger_of(log.push(e)) == Err::<LedgerView, ErrorView>(x),
        },
{
    assert(log.push(e).drop_last() =~= log);
}

pub proof fn lemma_step_refl(benign: bool, intact: bool, log: Seq<Event>)
    ensures
        step_ok(benign, intact, log, log),
{
    lemma_extends_refl(log);
}

pub proof fn lemma_step_push(
    benign: bool,
    intact: bool,
    start: Seq<Event>,
    log: Seq<Event>,
    e: Event,
)
    requires
        step_ok(benign, intact, start, log),
        benign ==> is_neutral(e),
    ensures
        step_ok(benign, intact, start, log.push(e)),
{
    crate::session::lemma_extends_push(start, log, e);
    lemma_open_calls_push(log, e);
    lemma_ledger_push(log, e);
}

pub proof fn lemma_step_trans(
    benign: bool,
    intact: bool,
    a: Seq<Event>,
    b: Seq<Event>,
    c: Seq<Event>,
)
    requires
        step_ok(benign, intact, a, b),
        step_ok(benign, intact, b, c),
    ensures
        step_ok(benign, intact, a, c),
{
    lemma_extends_trans(a, b, c);
}

/// A step that adds nothing but calls and results leaves the budget as it was.
pub proof fn lemma_calls_leave_ledger(before: Seq<Event>, after: Seq<Event>)
    requires
        extends(before, after),
        adds_only_calls(before, after),
    ensures
        ledger_of(after) == ledger_of(before),
    decreases after.len(),
{
    if after.len() > before.len() {
        let shorter = after.drop_last();
        assert(shorter.subrange(0, before.len() as int) =~= after.subrange(
            0,
            before.len() as int,
        ));
        assert forall|i: int| before.len() <= i < shorter.len() implies is_call_event(
            #[trigger] shorter[i],
        ) by {
            assert(after[i] == shorter[i]);
        }
        lemma_calls_leave_ledger(before, shorter);
        assert(is_call_event(after[after.len() - 1]));
        assert(shorter.push(after.last()) =~= after);
        lemma_ledger_push(shorter, after.last());
    } else {
        assert(after =~= before) by {
            assert(after.subrange(0, before.len() as int) =~= after);
        }
    }
}

// ---------------------------------------------------------------------------
// Samples and the budget
// ---------------------------------------------------------------------------

pub open spec fn replay_error(detail: Seq<char>) -> ErrorView {
    error(ErrorCode::Internal, "failed to replay token budget ledger: "@ + detail)
}

pub fn session_replay_error(detail: &str) -> (r: ErrorEnvelope)
    ensures
        r@ == replay_error(detail@),
{
    ErrorEnvelope::new(
        ErrorCode::Internal,
        concat2("failed to replay token budget ledger: ", detail),
    )
}

/// The error of an event that the session did not take.
pub open spec fn append_error(detail: Seq<char>) -> ErrorView {
    error(ErrorCode::Internal, "failed to append token budget event: "@ + detail)
}

/// What becomes of an event whose loss is an error.
pub open spec fn lost(refused: Option<Seq<char>>) -> Option<ErrorView> {
    match refused {
        None => None,
        Some(detail) => Some(append_error(detail)),
    }
}

pub fn session_append_error(detail: &str) -> (r: ErrorEnvelope)
    ensures
        r@ == append_error(detail@),
{
    ErrorEnvelope::new(
        ErrorCode::Internal,
        concat2("failed to append token budget event: ", detail),
    )
}

/// What keeps a session from sampling: a budget that does not replay, or one that
/// is used up.
pub open spec fn sample_error(log: Seq<Event>) -> Option<ErrorView> {
    match ledger_of(log) {
        Err(e) => Some(e),
        Ok(l) => budget_error(l),
    }
}

/// Refuses a sample that the session's budget does not allow.
pub fn ensure_budget_allows_sample<S: SessionStore>(session: &S) -> (r: Result<(), ErrorEnvelope>)
    ensures
        failure_of(r) == sample_error(session.events()),
{
    match session.replay_events() {
        Err(e) => Err(session_replay_error(&e)),
        Ok(records) => match BudgetLedger::replay(records.as_slice()) {
            Err(e) => Err(e),
            Ok(ledger) => ledger.ensure_can_sample(),
        },
    }
}

pub open spec fn path_error() -> ErrorView {
    error(ErrorCode::Internal, "agent path must be non-empty, non-blank and acyclic"@)
}

/// Checks the path from the root agent to the one that runs.
pub fn validate_agent_path(agent_path: &Vec<String>) -> (r: Result<(), ErrorEnvelope>)
    ensures
        r is Ok <==> agent_path@.len() > 0 && path_ok(views(agent_path@)),
        r matches Err(e) ==> e@ == path_error(),
{
    if agent_path.len() == 0 || !distinct_and_named(agent_path) {
        return Err(
            ErrorEnvelope::of(
                ErrorCode::Internal,
                "agent path must be non-empty, non-blank and acyclic",
            ),
        );
    }
    Ok(())
}

/// The tokens of a sample: the provider's count, or an estimate of four characters
/// per token.
pub open spec fn sample_tokens(provider_total: Option<u64>, visible: Seq<&str>) -> int {
    match provider_total {
        Some(total) => total as int,
        None => estimated(total_chars(visible), 4),
    }
}

/// Why the use of a sample cannot be recorded: the path is none, the budget does not
/// replay, or the ledger refuses the record.
pub open spec fn usage_error(
    log: Seq<Event>,
    usage_id: Seq<char>,
    path: Seq<Seq<char>>,
    tokens: int,
) -> Option<ErrorView> {
    if path.len() == 0 || !path_ok(path) {
        Some(path_error())
    } else {
        match ledger_of(log) {
            Err(e) => Some(e),
            Ok(l) => usage_recorded(l, usage_id, path, tokens as u64).1,
        }
    }
}

/// The event that records one sample.
pub open spec fn is_usage_event(
    e: Event,
    usage_id: Seq<char>,
    path: Seq<Seq<char>>,
    provider_total: Option<u64>,
    visible: Seq<&str>,
) -> bool {
    e matches Event::TokenUsageRecorded { usage_id: id, agent_path, total_tokens, source } && {
        &&& id@ == usage_id
        &&& views(agent_path@) == path
        &&& total_tokens == sample_tokens(provider_total, visible)
        &&& source == (if provider_total is Some {
            TokenUsageSource::Provider
        } else {
            TokenUsageSource::Heuristic
        })
    }
}

/// Records the tokens of one sample. A record that the ledger would refuse is not
/// written.
pub fn record_usage<S: SessionStore>(
    session: &mut S,
    agent_path: &Vec<String>,
    usage_id: String,
    provider_total: Option<u64>,
    visible_segments: &[&str],
) -> (r: Result<(), ErrorEnvelope>)
    ensures
        final(session).intact() ==> old(session).intact(),
        r is Err ==> final(session).events() == old(session).events(),
        r is Ok ==> {
            let log = final(session).events();
            &&& log.len() == old(session).events().len() + 1
            &&& log == old(session).events().push(log.last())
            &&& is_usage_event(
                log.last(),
                usage_id@,
                views(agent_path@),
                provider_total,
                visible_segments@,
            )
            &&& path_ok(views(agent_path@))
            &&& ledger_of(log) is Ok
        },
        step_ok(true, final(session).intact(), old(session).events(), final(session).events()),
        match usage_error(
            old(session).events(),
            usage_id@,
            views(agent_path@),
            sample_tokens(provider_total, visible_segments@),
        ) {
            Some(e) => final(session).handed() == old(session).handed() && failure_of(r) == Some(e),
            None => {
                let last = final(session).handed().last();
                &&& final(session).handed() == old(session).handed().push(last)
                &&& is_usage_event(
                    last.event,
                    usage_id@,
                    views(agent_path@),
                    provider_total,
                    visible_segments@,
                )
                &&& failure_of(r) == lost(last.refused)
            },
        },
{
    let ghost log = session.events();
    proof {
        lemma_step_refl(true, session.intact(), log);
    }
    match validate_agent_path(agent_path) {
        Ok(()) => {},
        Err(e) => {
            return Err(e);
        },
    }
    let measured = TokenMeter::default().measure(provider_total, visible_segments);
    let source = match measured.source {
        TokenSource::ProviderUsage => TokenUsageSource::Provider,
        TokenSource::Heuristic => TokenUsageSource::Heuristic,
    };
    let event = Event::TokenUsageRecorded {
        usage_id,
        agent_path: copy_texts(agent_path),
        total_tokens: measured.usage.total,
        source,
    };
    assert(is_usage_event(
        event,
        usage_id@,
        views(agent_path@),
        provider_total,
        visible_segments@,
    ));
    let mut ledger = match session.replay_events() {
        Err(e) => {
            return Err(session_replay_error(&e));
        },
        Ok(records) => match BudgetLedger::replay(records.as_slice()) {
            Err(e) => {
                return Err(e);
            },
            Ok(ledger) => ledger,
        },
    };
    proof {
        lemma_ledger_push(log, event);
    }
    let applied = ledger.apply(&event);
    match applied {
        Ok(()) => {},
        Err(e) => {
            return Err(e);
        },
    }
    match session.append(event) {
        Ok(_) => {
            proof {
                crate::session::lemma_extends_push(log, log, event);
                lemma_open_calls_push(log, event);
                assert(session.events().last() == event);
            }
            Ok(())
        },
        Err(e) => Err(session_append_error(&e)),
    }
}

// ---------------------------------------------------------------------------
// Laws
// ---------------------------------------------------------------------------

/// The use of a sample is what the provider counted, or otherwise a token for every four
/// characters that were shown, the last ones too where they are fewer; its record says which of
/// the two it is.
pub proof fn the_use_of_a_sample(
    e: Event,
    usage_id: Seq<char>,
    path: Seq<Seq<char>>,
    provider_total: Option<u64>,
    visible: Seq<&str>,
)
    requires
        is_usage_event(e, usage_id, path, provider_total, visible),
        total_chars(visible) <= u64::MAX,
    ensures
        e is TokenUsageRecorded,
        e->usage_id@ == usage_id,
        e->agent_path@.len() == path.len(),
        forall|i: int| 0 <= i < path.len() ==> #[trigger] e->agent_path@[i]@ == path[i],
        provider_total is Some ==> e->total_tokens == provider_total->0,
        provider_total is Some <==> e->TokenUsageRecorded_source == TokenUsageSource::Provider,
        provider_total is None ==> {
            &&& e->TokenUsageRecorded_source == TokenUsageSource::Heuristic
            &&& 4 * e->total_tokens >= total_chars(visible)
            &&& 4 * e->total_tokens < total_chars(visible) + 4
        },
{
    assert forall|i: int| 0 <= i < path.len() implies #[trigger] e->agent_path@[i]@ == path[i] by {
        assert(views(e->agent_path@)[i] == e->agent_path@[i]@);
    }
}

/// A sample may be taken where the log replays and something is left of the budget.
pub proof fn when_a_sample_may_be_taken(log: Seq<Event>, l: LedgerView)
    ensures
        ledger_of(log) is Err ==> sample_error(log) == Some(ledger_of(log)->Err_0),
        ledger_of(log) == Ok::<LedgerView, ErrorView>(l) && l.budget is None ==> sample_error(
            log,
        ) is None,
        ledger_of(log) == Ok::<LedgerView, ErrorView>(l) && l.budget is Some && l.root is Some ==> (
        sample_error(log) is None <==> subtree_total(log, l.root->0) < l.budget->0),
{
    if ledger_of(log) == Ok::<LedgerView, ErrorView>(l) {
        what_is_left_of_a_budget(log, l);
    }
}

/// The events of a budget, and those that neither a call, a turn nor a budget is told by.
pub proof fn the_events_of_a_budget(e: Event)
    ensures
        is_budget_event(e) <==> e is TokenBudgetConfigured || e is TokenUsageRecorded,
        is_neutral(e) ==> !is_budget_event(e),
{
}

/// Use is refused where the path is empty or not fit, or where the ledger does not take it.
pub proof fn when_use_is_refused(
    log: Seq<Event>,
    id: Seq<char>,
    path: Seq<Seq<char>>,
    tokens: u64,
    l: LedgerView,
)
    requires
        ledger_of(log) == Ok::<LedgerView, ErrorView>(l),
    ensures
        path.len() == 0 ==> usage_error(log, id, path, tokens as int) is Some,
        !path.no_duplicates() ==> usage_error(log, id, path, tokens as int) is Some,
        blank(id) || l.ids.contains(id) ==> usage_error(log, id, path, tokens as int) is Some,
        path.len() > 0 && l.root is Some && l.root->0 != path[0] ==> usage_error(
            log,
            id,
            path,
            tokens as int,
        ) is Some,
        usage_error(log, id, path, tokens as int) is Some ==> usage_error(
            log,
            id,
            path,
            tokens as int,
        )->0.code == ErrorCode::Internal,
{
}

/// A record that the session did not take is told with what it said.
pub proof fn what_is_told_of_a_lost_record(detail: Seq<char>)
    ensures
        lost(None) is None,
        lost(Some(detail)) == Some(
            ErrorView {
                code: ErrorCode::Internal,
                message: "failed to append token budget event: "@ + detail,
            },
        ),
        replay_error(detail).code == ErrorCode::Internal,
        replay_error(detail).message == "failed to replay token budget ledger: "@ + detail,
{
}

/// A step that nothing disturbs keeps the log, its open calls and a ledger that replays.
pub proof fn what_a_step_keeps(
    benign: bool,
    intact: bool,
    before: Seq<Event>,
    after: Seq<Event>,
)
    requires
        step_ok(benign, intact, before, after),
    ensures
        extends(before, after),
        benign ==> turn_state(after) == turn_state(before),
        benign && ledger_of(before) is Ok ==> ledger_of(after) is Ok,
        benign && intact && open_calls(before) is Some ==> open_calls(after) == open_calls(before),
{
}

} // verus!
