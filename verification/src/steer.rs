//! Input that is queued beside the inbox: the next sample hears it, whether it was queued
//! while a turn ran or between two turns.
use vstd::prelude::*;
use crate::chat_turn::{queued_texts, user_messages};
use crate::model_provider::plain_message;
use crate::protocol::{ErrorView, Event};
use crate::sampling::{is_sampling, ModelRules, Sampling};
use crate::session::{lemma_handed, lemma_taken_extends, taken, took};
use crate::turn_trace::{
    answered_as, at_message, begun, heard, is_chat_turn, is_round, is_turn_from, message_as, turn_as,
    ChatRules, LoopRules, Standing, ToolRun, TurnClose, TurnEnd, TurnPoint,
};

verus! {

broadcast use vstd::string::group_string_axioms;

/// The event that queues a text.
pub open spec fn queues(e: Event, text: Seq<char>) -> bool {
    e matches Event::UserInputQueued { text: queued } && queued@ == text
}

/// What is queued from `from` on is among the texts that were queued.
proof fn lemma_queued(log: Seq<Event>, from: int, i: int, text: Seq<char>)
    requires
        0 <= from <= i < log.len(),
        queues(log[i], text),
    ensures
        queued_texts(log, from).contains(text),
    decreases log.len(),
{
    let before = queued_texts(log.drop_last(), from);
    if i == log.len() - 1 {
        let all = before.push(text);
        assert(all[all.len() - 1] == text);
    } else {
        lemma_queued(log.drop_last(), from, i, text);
        let k = before.index_of(text);
        assert(before[k] == text);
        assert(queued_texts(log, from)[k] == text);
    }
}

/// A text that was queued is in the conversation of the next sample.
proof fn lemma_heard_at(p: TurnPoint, i: int, text: Seq<char>)
    requires
        0 <= p.cursor <= i < taken(p.log).len(),
        queues(taken(p.log)[i], text),
    ensures
        heard(p).contains(plain_message("user"@, text)),
{
    let log = taken(p.log);
    lemma_queued(log, p.cursor, i, text);
    let texts = queued_texts(log, p.cursor);
    let k = texts.index_of(text);
    assert(texts[k] == text);
    assert(user_messages(texts)[k] == plain_message("user"@, text));
    assert(heard(p)[p.history.len() + k] == plain_message("user"@, text));
}

/// The first sample for a message; none where the model may not be sampled at all.
pub open spec fn first_sample(samples: Seq<Sampling>, end: TurnEnd) -> Option<Sampling> {
    if samples.len() > 0 {
        Some(samples[0])
    } else {
        match end {
            TurnEnd::Exhausted => None,
            TurnEnd::Failed { sample } => Some(sample),
            TurnEnd::Unrecorded { sample } => Some(sample),
            TurnEnd::Broken { sample, .. } => Some(sample),
            TurnEnd::Answered { sample } => Some(sample),
        }
    }
}

/// The model was first sampled with a conversation that has the text as a message of the
/// user.
pub open spec fn first_hears(
    model: ModelRules,
    points: Seq<TurnPoint>,
    samples: Seq<Sampling>,
    end: TurnEnd,
    text: Seq<char>,
) -> bool {
    &&& first_sample(samples, end) matches Some(s) && is_sampling(
        model,
        points[0].log,
        heard(points[0]),
        s,
    )
    &&& heard(points[0]).contains(plain_message("user"@, text))
}

/// Input that was queued before a message was said, and not heard yet, is heard by the
/// first sample for that message.
pub proof fn queued_input_is_heard(
    rules: ChatRules,
    said: Seq<char>,
    from: Standing,
    points: Seq<TurnPoint>,
    samples: Seq<Sampling>,
    runs: Seq<Seq<ToolRun>>,
    end: TurnEnd,
    to: Standing,
    failure: Option<ErrorView>,
    i: int,
    text: Seq<char>,
)
    requires
        is_chat_turn(rules, said, from, points, samples, runs, end, to, failure),
        rules.turn.limit > 0,
        0 <= from.cursor <= i < taken(from.log).len(),
        queues(taken(from.log)[i], text),
    ensures
        first_hears(rules.model, points, samples, end, text),
{
    let p = points[0];
    lemma_taken_extends(from.log, p.log);
    assert(taken(p.log).subrange(0, taken(from.log).len() as int)[i] == taken(p.log)[i]);
    lemma_heard_at(p, i, text);
    if samples.len() > 0 {
        assert(is_round(rules, 0, points[0], points[0int + 1], samples[0], runs[0]));
    } else {
        assert(points.last() == p);
    }
}

/// Input that is queued while the rounds of a message are under way, and not heard yet, is
/// heard by the sample of the next round.
pub proof fn input_queued_during_a_turn_is_heard(
    rules: ChatRules,
    p: TurnPoint,
    q: TurnPoint,
    round: nat,
    sample: Sampling,
    runs: Seq<ToolRun>,
    i: int,
    text: Seq<char>,
)
    requires
        is_round(rules, round, p, q, sample, runs),
        0 <= p.cursor <= i < taken(p.log).len(),
        queues(taken(p.log)[i], text),
    ensures
        is_sampling(rules.model, p.log, heard(p), sample),
        heard(p).contains(plain_message("user"@, text)),
        q.cursor > i,
{
    lemma_heard_at(p, i, text);
}

/// The first message of a turn that had begun at `begun` was answered, or failed, with a
/// first sample that heard the text.
pub open spec fn turn_hears(
    rules: LoopRules,
    texts: Seq<Seq<char>>,
    begun: Standing,
    to: Standing,
    answered: int,
    text: Seq<char>,
) -> bool {
    exists|
        stands: Seq<Standing>,
        failed: Option<(Standing, ErrorView)>,
        close: TurnClose,
        next: Standing,
        failure: Option<ErrorView>,
        points: Seq<TurnPoint>,
        samples: Seq<Sampling>,
        runs: Seq<Seq<ToolRun>>,
        end: TurnEnd,
    |
        {
            &&& #[trigger] is_turn_from(rules, texts, stands, failed, close, to)
            &&& stands[0] == begun
            &&& answered == stands.len() - 1
            &&& if stands.len() > 1 {
                next == stands[1] && failure is None
            } else {
                failure is Some && failed == Some((next, failure->0))
            }
            &&& #[trigger] is_chat_turn(
                ChatRules { turn: at_message(rules, 0).turn, model: rules.chat->0 },
                texts[0],
                begun,
                points,
                samples,
                runs,
                end,
                next,
                failure,
            )
            &&& first_hears(rules.chat->0, points, samples, end, text)
        }
}

/// Input that was queued before a turn, and not heard yet, is heard by the first sample of
/// that turn.
pub proof fn a_turn_hears_what_is_queued(
    rules: LoopRules,
    texts: Seq<Seq<char>>,
    from: Standing,
    to: Standing,
    answered: int,
    i: int,
    text: Seq<char>,
)
    requires
        turn_as(rules, texts, from, to, answered),
        texts.len() > 0,
        rules.chat is Some,
        rules.turn.limit > 0,
        0 <= from.cursor <= i < taken(from.log).len(),
        queues(taken(from.log)[i], text),
    ensures
        turn_hears(rules, texts, begun(rules, from), to, answered, text),
{
    let begun = begun(rules, from);
    let (stands, failed, close) = choose|
        stands: Seq<Standing>,
        failed: Option<(Standing, ErrorView)>,
        close: TurnClose,
    |
        #[trigger] is_turn_from(rules, texts, stands, failed, close, to) && stands[0] == begun
            && answered == stands.len() - 1;
    let at = at_message(rules, 0);
    let chat = ChatRules { turn: at.turn, model: rules.chat->0 };
    let next = if stands.len() > 1 {
        stands[1]
    } else {
        (failed->0).0
    };
    let failure: Option<ErrorView> = if stands.len() > 1 {
        None
    } else {
        Some((failed->0).1)
    };
    if stands.len() > 1 {
        assert(message_as(at, texts[0], stands[0], stands[0int + 1], None));
    }
    assert(answered_as(chat, texts[0], begun, next, failure));
    let (points, samples, runs, end) = choose|
        points: Seq<TurnPoint>,
        samples: Seq<Sampling>,
        runs: Seq<Seq<ToolRun>>,
        end: TurnEnd,
    |
        is_chat_turn(chat, texts[0], begun, points, samples, runs, end, next, failure);
    lemma_handed(from.log, begun.log.last());
    assert(taken(begun.log)[i] == taken(from.log)[i]);
    queued_input_is_heard(
        chat,
        texts[0],
        begun,
        points,
        samples,
        runs,
        end,
        next,
        failure,
        i,
        text,
    );
    assert(is_turn_from(rules, texts, stands, failed, close, to) && is_chat_turn(
        chat,
        texts[0],
        begun,
        points,
        samples,
        runs,
        end,
        next,
        failure,
    ));
}

/// Input that is queued between two turns is heard by the first sample of the second one.
pub proof fn input_queued_between_turns_is_heard(
    rules: LoopRules,
    texts: Seq<Seq<char>>,
    between: Standing,
    queued: Event,
    text: Seq<char>,
    to: Standing,
    answered: int,
)
    requires
        queues(queued, text),
        0 <= between.cursor <= taken(between.log).len(),
        turn_as(
            rules,
            texts,
            Standing { log: between.log.push(took(queued)), ..between },
            to,
            answered,
        ),
        texts.len() > 0,
        rules.chat is Some,
        rules.turn.limit > 0,
    ensures
        ({
            let from = Standing { log: between.log.push(took(queued)), ..between };
            turn_hears(rules, texts, begun(rules, from), to, answered, text)
        }),
{
    let from = Standing { log: between.log.push(took(queued)), ..between };
    lemma_handed(between.log, took(queued));
    a_turn_hears_what_is_queued(
        rules,
        texts,
        from,
        to,
        answered,
        taken(between.log).len() as int,
        text,
    );
}

} // verus!
