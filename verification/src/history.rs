//! The conversation that a model sees, and compacting it.
use vstd::prelude::*;
use crate::compaction::{
    call_ids, entries_view, every_long_result_is_counted, is_safe_prefix, long_results,
    no_safe_prefix, pair_complete, planned, pruned_count, pruned_entries, pruned_entry,
    pruning_shortens_long_results_only, result_ids, summaries_of, summary_error, summary_input,
    summary_of, CompactionEntry, CompactionKind, EntryView, KindView, SummaryProvider,
    TwoStageCompactor,
};
use crate::held::Held;
use crate::model_provider::{
    calls_message, calls_view, messages_view, plain_message, result_message, CallView, ChatMessage,
    MessageView, ToolCallRequest,
};
use crate::protocol::{error, ErrorCode, ErrorEnvelope, ErrorView, Event};
use crate::session::{Handed, SessionStore, StoredEvents};
use crate::text::{blank, concat2, decimal, views};

verus! {

broadcast use vstd::string::group_string_axioms;

// ---------------------------------------------------------------------------
// Messages as compaction sees them
// ---------------------------------------------------------------------------

pub open spec fn ids_of(calls: Seq<CallView>) -> Seq<Seq<char>> {
    calls.map_values(|c: CallView| c.id)
}

pub open spec fn message_kind(m: MessageView) -> KindView {
    match m.tool_calls {
        Some(calls) => KindView::ToolCalls(ids_of(calls)),
        None => match m.tool_call_id {
            Some(id) => KindView::ToolResult(id),
            None => KindView::Message,
        },
    }
}

pub open spec fn entry_of(m: MessageView) -> EntryView {
    EntryView { kind: message_kind(m), text: m.content }
}

pub open spec fn history_entries(h: Seq<MessageView>) -> Seq<EntryView> {
    h.map_values(|m: MessageView| entry_of(m))
}

fn call_id_list(calls: &Vec<ToolCallRequest>) -> (r: Vec<String>)
    ensures
        views(r@) == ids_of(calls_view(calls@)),
{
    let mut r: Vec<String> = Vec::new();
    let mut i: usize = 0;
    while i < calls.len()
        invariant
            i <= calls@.len(),
            views(r@) == ids_of(calls_view(calls@)).take(i as int),
        decreases calls@.len() - i,
    {
        let ghost before = r@;
        let id = calls[i].id.clone();
        r.push(id);
        assert(views(r@) =~= views(before).push(id@));
        assert(ids_of(calls_view(calls@))[i as int] == calls@[i as int].id@);
        i = i + 1;
        assert(views(r@) =~= ids_of(calls_view(calls@)).take(i as int));
    }
    assert(views(r@) =~= ids_of(calls_view(calls@)));
    r
}

pub fn to_compaction_entry(message: &ChatMessage) -> (r: CompactionEntry)
    ensures
        r@ == entry_of(message@),
{
    let kind = match &message.tool_calls {
        Some(calls) => CompactionKind::ToolCalls(call_id_list(calls)),
        None => match &message.tool_call_id {
            Some(id) => CompactionKind::ToolResult(id.clone()),
            None => CompactionKind::Message,
        },
    };
    CompactionEntry { kind, text: message.content.clone() }
}

// ---------------------------------------------------------------------------
// Calls and results in a conversation
// ---------------------------------------------------------------------------

/// The calls whose results the conversation still owes after one more message;
/// nothing once a message came that is out of place.
pub open spec fn answer_step(owed: Option<Seq<Seq<char>>>, kind: KindView) -> Option<
    Seq<Seq<char>>,
> {
    match owed {
        None => None,
        Some(ids) => match kind {
            KindView::Message => if ids.len() == 0 {
                Some(ids)
            } else {
                None
            },
            KindView::ToolCalls(calls) => if ids.len() == 0 {
                Some(calls)
            } else {
                None
            },
            KindView::ToolResult(id) => if ids.len() > 0 && ids[0] == id {
                Some(ids.subrange(1, ids.len() as int))
            } else {
                None
            },
        },
    }
}

/// The results that are owed after `entries`, where `owed` are owed before them.
pub open spec fn owed_after(owed: Option<Seq<Seq<char>>>, entries: Seq<EntryView>) -> Option<
    Seq<Seq<char>>,
>
    decreases entries.len(),
{
    if entries.len() == 0 {
        owed
    } else {
        answer_step(owed_after(owed, entries.drop_last()), entries.last().kind)
    }
}

/// Every batch of calls is followed at once by its results, in order, and
/// nothing else comes between.
pub open spec fn history_closed(h: Seq<MessageView>) -> bool {
    owed_after(Some(Seq::empty()), history_entries(h)) == Some(Seq::<Seq<char>>::empty())
}

pub proof fn lemma_owed_push(owed: Option<Seq<Seq<char>>>, entries: Seq<EntryView>, e: EntryView)
    ensures
        owed_after(owed, entries.push(e)) == answer_step(owed_after(owed, entries), e.kind),
{
    assert(entries.push(e).drop_last() =~= entries);
}

proof fn lemma_owed_concat(
    owed: Option<Seq<Seq<char>>>,
    a: Seq<EntryView>,
    b: Seq<EntryView>,
)
    ensures
        owed_after(owed, a + b) == owed_after(owed_after(owed, a), b),
    decreases b.len(),
{
    if b.len() == 0 {
        assert(a + b =~= a);
    } else {
        lemma_owed_concat(owed, a, b.drop_last());
        assert((a + b).drop_last() =~= a + b.drop_last());
    }
}

/// A message that is neither a call nor a result keeps a closed conversation
/// closed.
pub proof fn lemma_closed_push(h: Seq<MessageView>, m: MessageView)
    requires
        history_closed(h),
        message_kind(m) is Message,
    ensures
        history_closed(h.push(m)),
{
    assert(history_entries(h.push(m)) =~= history_entries(h).push(entry_of(m)));
    lemma_owed_push(Some(Seq::empty()), history_entries(h), entry_of(m));
}

/// The calls so far are the results so far together with what is owed.
proof fn lemma_calls_are_results_and_owed(entries: Seq<EntryView>)
    requires
        owed_after(Some(Seq::empty()), entries) is Some,
    ensures
        call_ids(entries) == result_ids(entries) + owed_after(Some(Seq::empty()), entries)->0,
    decreases entries.len(),
{
    if entries.len() == 0 {
        assert(call_ids(entries) =~= result_ids(entries) + Seq::<Seq<char>>::empty());
    } else {
        let before = entries.drop_last();
        lemma_calls_are_results_and_owed(before);
        let owed = owed_after(Some(Seq::empty()), before)->0;
        match entries.last().kind {
            KindView::Message => {
                assert(call_ids(entries) =~= call_ids(before));
                assert(result_ids(entries) =~= result_ids(before));
            },
            KindView::ToolCalls(ids) => {
                assert(result_ids(entries) =~= result_ids(before));
                assert(call_ids(entries) =~= result_ids(entries) + ids);
            },
            KindView::ToolResult(id) => {
                assert(call_ids(entries) =~= call_ids(before));
                assert(result_ids(entries) =~= result_ids(before).push(id));
                assert(owed =~= seq![id] + owed.subrange(1, owed.len() as int));
                assert(call_ids(entries) =~= result_ids(entries) + owed.subrange(
                    1,
                    owed.len() as int,
                ));
            },
        }
    }
}

/// What stays after a cut that splits no pair is closed where the whole was.
pub proof fn safe_cut_keeps_history_closed(entries: Seq<EntryView>, cut: int)
    requires
        0 <= cut <= entries.len(),
        owed_after(Some(Seq::empty()), entries) == Some(Seq::<Seq<char>>::empty()),
        pair_complete(entries, cut),
    ensures
        owed_after(Some(Seq::empty()), entries.subrange(cut, entries.len() as int)) == Some(
            Seq::<Seq<char>>::empty(),
        ),
{
    let head = entries.take(cut);
    let tail = entries.subrange(cut, entries.len() as int);
    assert(head + tail =~= entries);
    lemma_owed_concat(Some(Seq::empty()), head, tail);
    let middle = owed_after(Some(Seq::empty()), head);
    if middle is None {
        lemma_owed_none(tail);
        assert(false);
    }
    lemma_calls_are_results_and_owed(head);
    let owed = middle->0;
    if owed.len() > 0 {
        lemma_unique_prefix(entries, cut);
        let calls = call_ids(head);
        let results = result_ids(head);
        assert(calls[results.len() as int] == owed[0]);
        assert(calls.to_set().contains(owed[0]));
        assert(results.to_set().contains(owed[0]));
        let k = choose|k: int| 0 <= k < results.len() && results[k] == owed[0];
        assert(calls[k] == owed[0]);
        assert(false);
    }
    assert(owed =~= Seq::<Seq<char>>::empty());
}

proof fn lemma_owed_none(entries: Seq<EntryView>)
    ensures
        owed_after(None, entries) is None,
    decreases entries.len(),
{
    if entries.len() > 0 {
        lemma_owed_none(entries.drop_last());
    }
}

proof fn lemma_unique_prefix(entries: Seq<EntryView>, cut: int)
    requires
        0 <= cut <= entries.len(),
        call_ids(entries).no_duplicates(),
    ensures
        call_ids(entries.take(cut)).no_duplicates(),
    decreases entries.len() - cut,
{
    if cut < entries.len() {
        let shorter = entries.drop_last();
        let all = call_ids(entries);
        let part = call_ids(shorter);
        assert forall|i: int, j: int|
            0 <= i < part.len() && 0 <= j < part.len() && i != j implies part[i] != part[j] by {
            assert(all[i] == part[i] && all[j] == part[j]);
        }
        lemma_unique_prefix(shorter, cut);
        assert(shorter.take(cut) =~= entries.take(cut));
    } else {
        assert(entries.take(cut) =~= entries);
    }
}

proof fn lemma_owed_kinds(owed: Option<Seq<Seq<char>>>, a: Seq<EntryView>, b: Seq<EntryView>)
    requires
        a.len() == b.len(),
        forall|i: int| 0 <= i < a.len() ==> (#[trigger] a[i]).kind == b[i].kind,
    ensures
        owed_after(owed, a) == owed_after(owed, b),
    decreases a.len(),
{
    if a.len() > 0 {
        assert(a.last().kind == b.last().kind);
        assert forall|i: int| 0 <= i < a.drop_last().len() implies (
        #[trigger] a.drop_last()[i]).kind == b.drop_last()[i].kind by {
            assert(a[i].kind == b[i].kind);
        }
        lemma_owed_kinds(owed, a.drop_last(), b.drop_last());
    }
}

// ---------------------------------------------------------------------------
// Compacting a conversation
// ---------------------------------------------------------------------------

#[derive(Debug, PartialEq, Eq, Clone)]
pub struct HistoryCompaction {
    pub compacted_messages: usize,
    pub pruned_tool_results: usize,
    pub summary: String,
}

/// Compaction and retry after a full context window.
#[derive(Clone, Copy)]
pub struct OverflowRecovery<'a> {
    pub compactor: &'a TwoStageCompactor,
    pub summarizer: Held<&'a dyn SummaryProvider>,
    pub max_retries: u32,
}

impl<'a> OverflowRecovery<'a> {
    pub fn new(
        compactor: &'a TwoStageCompactor,
        summarizer: &'a dyn SummaryProvider,
        max_retries: u32,
    ) -> (r: Result<OverflowRecovery<'a>, &'static str>)
        ensures
            match r {
                Ok(o) => max_retries > 0 && o.max_retries == max_retries && o.compactor
                    == compactor && o.summarizer.it == summarizer && summaries_of(o.summarizer.it)
                    == summaries_of(summarizer),
                Err(e) => max_retries == 0 && e@
                    == "overflow recovery requires at least one retry"@,
            },
    {
        if max_retries == 0 {
            return Err("overflow recovery requires at least one retry");
        }
        let summarizer = Held { it: summarizer };
        Ok(OverflowRecovery { compactor, summarizer, max_retries })
    }
}

/// A message whose text is cut short where it is a long tool result.
pub open spec fn pruned_message(m: MessageView, max: nat, preview: nat) -> MessageView {
    if message_kind(m) is ToolResult {
        MessageView { content: pruned_entry(entry_of(m), max, preview).text, ..m }
    } else {
        m
    }
}

/// The message that stands for what was compacted.
pub open spec fn summary_message(summary: Seq<char>) -> MessageView {
    plain_message("system"@, "Compacted conversation summary:\n"@ + summary)
}

/// A conversation with its first `cut` messages replaced by a summary.
pub open spec fn compacted_history(
    h: Seq<MessageView>,
    cut: int,
    max: nat,
    preview: nat,
    summary: Seq<char>,
) -> Seq<MessageView> {
    seq![summary_message(summary)] + h.subrange(cut, h.len() as int).map_values(
        |m: MessageView| pruned_message(m, max, preview),
    )
}

/// Compaction keeps a conversation closed.
pub proof fn compaction_keeps_history_closed(
    h: Seq<MessageView>,
    cut: int,
    max: nat,
    preview: nat,
    summary: Seq<char>,
)
    requires
        history_closed(h),
        0 <= cut <= h.len(),
        pair_complete(history_entries(h), cut),
    ensures
        history_closed(compacted_history(h, cut, max, preview, summary)),
{
    let entries = history_entries(h);
    safe_cut_keeps_history_closed(entries, cut);
    let tail = entries.subrange(cut, entries.len() as int);
    let after = compacted_history(h, cut, max, preview, summary);
    let first = seq![entry_of(summary_message(summary))];
    let rest = history_entries(after).subrange(1, after.len() as int);
    assert(history_entries(after) =~= first + rest);
    assert forall|i: int| 0 <= i < rest.len() implies (#[trigger] rest[i]).kind == tail[i].kind by {
        assert(after[i + 1] == pruned_message(h[cut + i], max, preview));
    }
    lemma_owed_kinds(Some(Seq::empty()), rest, tail);
    lemma_owed_concat(Some(Seq::empty()), first, rest);
    assert(first =~= Seq::<EntryView>::empty().push(first[0]));
    lemma_owed_push(Some(Seq::empty()), Seq::empty(), first[0]);
}

/// The event that records a compaction.
pub open spec fn is_compaction_event(e: Event, summary: Seq<char>, cut: int) -> bool {
    e matches Event::CompactionApplied { summary: s, compacted_messages, source_event_seqs }
        && s@ == summary && compacted_messages == Some(cut as u64) && source_event_seqs@.len() == 0
}

/// The error of a compaction that the session did not take the record of.
pub open spec fn compaction_error(detail: Seq<char>) -> ErrorView {
    error(ErrorCode::Internal, "failed to append compaction event: "@ + detail)
}

/// What a compaction of `h` at `cut` comes to for what the summarizer said. One that is not
/// on record leaves the conversation as it is.
pub open spec fn compacts_as(
    h: Seq<MessageView>,
    c: TwoStageCompactor,
    cut: int,
    said: Result<String, ErrorEnvelope>,
    before: Seq<Handed>,
    after: Seq<Handed>,
    kept: Seq<MessageView>,
    r: Result<Option<HistoryCompaction>, ErrorEnvelope>,
) -> bool {
    match summary_error(said) {
        Some(e) => r is Err && r->Err_0@ == e && after == before && kept == h,
        None => {
            let summary = said->Ok_0@;
            &&& after == before.push(after.last())
            &&& is_compaction_event(after.last().event, summary, cut)
            &&& match after.last().refused {
                None => {
                    &&& r matches Ok(Some(done)) && done.summary@ == summary
                        && done.compacted_messages == cut && done.pruned_tool_results
                        == pruned_count(history_entries(h), c.max())
                    &&& kept == compacted_history(h, cut, c.max(), c.preview(), summary)
                },
                Some(detail) => r is Err && r->Err_0@ == compaction_error(detail) && kept == h,
            }
        },
    }
}

/// Compacts a conversation and records it. Where no cut is safe, and where
/// summarizing or recording fails, the conversation stays as it is.
pub fn compact_history<S: SessionStore, P: SummaryProvider + ?Sized>(
    session: &mut S,
    history: &mut Vec<ChatMessage>,
    compactor: &TwoStageCompactor,
    summarizer: &P,
) -> (r: Result<Option<HistoryCompaction>, ErrorEnvelope>)
    ensures
        final(session).intact() ==> old(session).intact(),
        r == Ok::<Option<HistoryCompaction>, ErrorEnvelope>(None) <==> no_safe_prefix(
            history_entries(messages_view(old(history)@)),
            compactor.retained() as int,
        ),
        !(r matches Ok(Some(_))) ==> final(session).events() == old(session).events()
            && final(history)@ == old(history)@,
        r matches Ok(Some(c)) ==> {
            let h = messages_view(old(history)@);
            let cut = c.compacted_messages as int;
            &&& is_safe_prefix(history_entries(h), compactor.retained() as int, cut)
            &&& c.pruned_tool_results == pruned_count(history_entries(h), compactor.max())
            &&& !blank(c.summary@)
            &&& final(session).events().len() == old(session).events().len() + 1
            &&& final(session).events() == old(session).events().push(final(session).events().last())
            &&& is_compaction_event(final(session).events().last(), c.summary@, cut)
            &&& messages_view(final(history)@) == compacted_history(
                h,
                cut,
                compactor.max(),
                compactor.preview(),
                c.summary@,
            )
        },
        history_closed(messages_view(old(history)@)) ==> history_closed(
            messages_view(final(history)@),
        ),
        r == Ok::<Option<HistoryCompaction>, ErrorEnvelope>(None) ==> final(session).handed()
            == old(session).handed(),
        r != Ok::<Option<HistoryCompaction>, ErrorEnvelope>(None) ==> exists|
            cut: int,
            said: Result<String, ErrorEnvelope>,
        |
            {
                let h = messages_view(old(history)@);
                &&& is_safe_prefix(history_entries(h), compactor.retained() as int, cut)
                &&& summary_of(summarizer, summary_input(history_entries(h), *compactor, cut), said)
                &&& #[trigger] compacts_as(
                    messages_view(old(history)@),
                    *compactor,
                    cut,
                    said,
                    old(session).handed(),
                    final(session).handed(),
                    messages_view(final(history)@),
                    r,
                )
            },
{
    let ghost h = messages_view(history@);
    let ghost log = session.handed();
    let mut entries: Vec<CompactionEntry> = Vec::new();
    let mut i: usize = 0;
    while i < history.len()
        invariant
            i <= history@.len(),
            h == messages_view(history@),
            history@ == old(history)@,
            entries_view(entries@) == history_entries(h).take(i as int),
        decreases history@.len() - i,
    {
        let ghost before = entries@;
        let entry = to_compaction_entry(&history[i]);
        entries.push(entry);
        assert(entries_view(entries@) =~= entries_view(before).push(entry@));
        assert(history_entries(h)[i as int] == entry_of(history@[i as int]@));
        i = i + 1;
        assert(entries_view(entries@) =~= history_entries(h).take(i as int));
    }
    assert(entries_view(entries@) =~= history_entries(h));
    let found = compactor.plan(entries.as_slice(), summarizer);
    let ghost (at, said) = choose|cut: int, said: Result<String, ErrorEnvelope>|
        {
            &&& is_safe_prefix(history_entries(h), compactor.retained() as int, cut)
            &&& summary_of(summarizer, summary_input(history_entries(h), *compactor, cut), said)
            &&& #[trigger] planned(history_entries(h), *compactor, cut, said, found)
        };
    let plan = match found {
        Err(e) => {
            assert(compacts_as(h, *compactor, at, said, log, log, h, Err(e)));
            return Err(e);
        },
        Ok(None) => {
            return Ok(None);
        },
        Ok(Some(plan)) => plan,
    };
    let event = Event::CompactionApplied {
        summary: plan.summary.clone(),
        compacted_messages: Some(plan.compacted_prefix as u64),
        source_event_seqs: Vec::new(),
    };
    match session.append(event) {
        Ok(_) => {},
        Err(e) => {
            let failure = ErrorEnvelope::new(
                ErrorCode::Internal,
                concat2("failed to append compaction event: ", &e),
            );
            assert(compacts_as(
                h,
                *compactor,
                at,
                said,
                log,
                session.handed(),
                h,
                Err(failure),
            ));
            return Err(failure);
        },
    }
    let ghost cut = plan.compacted_prefix as int;
    let ghost target = compacted_history(
        h,
        cut,
        compactor.max(),
        compactor.preview(),
        plan.summary@,
    );
    let mut shorter: Vec<ChatMessage> = Vec::new();
    let first = ChatMessage::system(
        concat2("Compacted conversation summary:\n", &plan.summary),
    );
    shorter.push(first);
    assert(messages_view(shorter@) =~= target.take(1));
    let mut k: usize = plan.compacted_prefix;
    while k < history.len()
        invariant
            cut == plan.compacted_prefix,
            cut <= k <= history@.len(),
            h == messages_view(history@),
            history@ == old(history)@,
            entries_view(plan.entries_after_pruning@) == pruned_entries(
                history_entries(h),
                compactor.max(),
                compactor.preview(),
            ),
            target == compacted_history(
                h,
                cut,
                compactor.max(),
                compactor.preview(),
                plan.summary@,
            ),
            messages_view(shorter@) == target.take(1 + k - cut),
        decreases history@.len() - k,
    {
        let ghost before = shorter@;
        let mut message = history[k].clone();
        proof {
            assert(h[k as int] == history@[k as int]@);
            assert(entries_view(plan.entries_after_pruning@).len() == h.len());
            assert(plan.entries_after_pruning@[k as int]@ == pruned_entry(
                entry_of(h[k as int]),
                compactor.max(),
                compactor.preview(),
            )) by {
                assert(entries_view(plan.entries_after_pruning@)[k as int]
                    == plan.entries_after_pruning@[k as int]@);
            }
        }
        if message.tool_calls.is_none() && message.tool_call_id.is_some() {
            message.content = plan.entries_after_pruning[k].text.clone();
        }
        assert(message@ == pruned_message(h[k as int], compactor.max(), compactor.preview()));
        shorter.push(message);
        proof {
            assert(messages_view(shorter@) =~= messages_view(before).push(message@));
            assert(target[1 + k - cut] == message@);
            assert(target.take(2 + k - cut) =~= target.take(1 + k - cut).push(message@));
        }
        k = k + 1;
    }
    assert(target.take(1 + k - cut) =~= target);
    *history = shorter;
    proof {
        if history_closed(h) {
            compaction_keeps_history_closed(
                h,
                cut,
                compactor.max(),
                compactor.preview(),
                plan.summary@,
            );
        }
    }
    let r = Ok(
        Some(
            HistoryCompaction {
                compacted_messages: plan.compacted_prefix,
                pruned_tool_results: plan.pruned_tool_results,
                summary: plan.summary,
            },
        ),
    );
    assert(compacts_as(
        h,
        *compactor,
        at,
        said,
        log,
        session.handed(),
        messages_view(history@),
        r,
    ));
    r
}

/// What is left of a conversation behind a cut: each message is as it was, but for the text of
/// a tool result of more characters than allowed, which begins with its own first ones and says
/// how many there were. In front of them stands the summary.
pub proof fn messages_behind_a_cut_are_kept(
    h: Seq<MessageView>,
    cut: int,
    max: nat,
    preview: nat,
    summary: Seq<char>,
    i: int,
)
    requires
        0 <= cut <= i < h.len(),
        preview <= max,
    ensures
        ({
            let kept = compacted_history(h, cut, max, preview, summary);
            let old = h[i];
            let new = kept[1 + i - cut];
            &&& kept.len() == 1 + h.len() - cut
            &&& kept[0].role == "system"@
            &&& kept[0].content == "Compacted conversation summary:\n"@ + summary
            &&& kept[0].tool_calls is None && kept[0].tool_call_id is None
            &&& new.role == old.role
            &&& new.tool_calls == old.tool_calls
            &&& new.tool_call_id == old.tool_call_id
            &&& old.tool_call_id is None || old.tool_calls is Some || old.content.len() <= max
                ==> new == old
            &&& old.tool_call_id is Some && old.tool_calls is None && old.content.len() > max
                ==> new.content == old.content.subrange(0, preview as int)
                + "\n[tool result pruned: "@ + decimal(old.content.len()) + " chars]"@
        }),
{
    let kept = compacted_history(h, cut, max, preview, summary);
    let old = h[i];
    assert(h.subrange(cut, h.len() as int)[i - cut] == old);
    assert(kept[1 + i - cut] == pruned_message(old, max, preview));
    pruning_shortens_long_results_only(history_entries(h), max, preview, i);
    assert(history_entries(h)[i] == entry_of(old));
    assert(pruned_entries(history_entries(h), max, preview)[i] == pruned_entry(
        entry_of(old),
        max,
        preview,
    ));
}

/// A conversation that was compacted begins with the summary and goes on with the messages
/// from the cut on. Each of them is as it was, but for the text of a tool result of more
/// characters than allowed: that begins with its own first characters, as many as a preview
/// has, and says how many there were. One that is not on record changes nothing, and neither
/// does a summary that says nothing.
pub proof fn compaction_keeps_the_recent_messages(
    h: Seq<MessageView>,
    c: TwoStageCompactor,
    cut: int,
    said: Result<String, ErrorEnvelope>,
    before: Seq<Handed>,
    after: Seq<Handed>,
    kept: Seq<MessageView>,
    r: Result<Option<HistoryCompaction>, ErrorEnvelope>,
    i: int,
)
    requires
        compacts_as(h, c, cut, said, before, after, kept, r),
        0 <= cut <= i < h.len(),
        c.preview() <= c.max(),
    ensures
        r is Err ==> kept == h,
        r matches Ok(Some(done)) ==> {
            let old = h[i];
            let new = kept[1 + i - cut];
            &&& said is Ok && done.summary@ == said->Ok_0@ && !blank(done.summary@)
            &&& done.compacted_messages == cut
            &&& kept.len() == 1 + h.len() - cut
            &&& kept[0].role == "system"@
            &&& kept[0].content == "Compacted conversation summary:\n"@ + done.summary@
            &&& kept[0].tool_calls is None && kept[0].tool_call_id is None
            &&& new.role == old.role
            &&& new.tool_calls == old.tool_calls
            &&& new.tool_call_id == old.tool_call_id
            &&& old.tool_call_id is None || old.tool_calls is Some || old.content.len() <= c.max()
                ==> new == old
            &&& old.tool_call_id is Some && old.tool_calls is None && old.content.len() > c.max()
                ==> new.content == old.content.subrange(0, c.preview() as int)
                + "\n[tool result pruned: "@ + decimal(old.content.len()) + " chars]"@
        },
{
    if r is Ok {
        messages_behind_a_cut_are_kept(h, cut, c.max(), c.preview(), said->Ok_0@, i);
    }
}

/// A message is seen as what it is: calls by their ids, a result by the id that it answers,
/// anything else as a message; its text is its own.
pub proof fn entries_show_their_messages(h: Seq<MessageView>, i: int)
    requires
        0 <= i < h.len(),
    ensures
        history_entries(h).len() == h.len(),
        history_entries(h)[i].text == h[i].content,
        match history_entries(h)[i].kind {
            KindView::ToolCalls(ids) => h[i].tool_calls is Some && ids.len()
                == h[i].tool_calls->0.len() && forall|k: int|
                0 <= k < ids.len() ==> #[trigger] ids[k] == h[i].tool_calls->0[k].id,
            KindView::ToolResult(id) => h[i].tool_calls is None && h[i].tool_call_id == Some(id),
            KindView::Message => h[i].tool_calls is None && h[i].tool_call_id is None,
        },
{
}

/// A compaction is done where the summary says something and the session took the record of
/// it; otherwise it is an error. One record at most is written: of the summary, and of how many
/// messages it stands for. The count of pruned results is that of the long ones.
pub proof fn compaction_is_recorded(
    h: Seq<MessageView>,
    c: TwoStageCompactor,
    cut: int,
    said: Result<String, ErrorEnvelope>,
    before: Seq<Handed>,
    after: Seq<Handed>,
    kept: Seq<MessageView>,
    r: Result<Option<HistoryCompaction>, ErrorEnvelope>,
)
    requires
        compacts_as(h, c, cut, said, before, after, kept, r),
    ensures
        said is Err || blank(said->Ok_0@) ==> r is Err && after == before,
        said is Ok && !blank(said->Ok_0@) ==> {
            &&& after.len() == before.len() + 1
            &&& forall|i: int| 0 <= i < before.len() ==> #[trigger] after[i] == before[i]
            &&& after.last().event is CompactionApplied
            &&& after.last().event->CompactionApplied_summary@ == said->Ok_0@
            &&& after.last().event->compacted_messages == Some(cut as u64)
            &&& r is Ok <==> after.last().refused is None
            &&& r is Ok ==> r->Ok_0 is Some && r->Ok_0->0.pruned_tool_results == long_results(
                history_entries(h),
                c.max(),
            ).len()
        },
        r is Err ==> kept == h,
{
    every_long_result_is_counted(history_entries(h), c.max());
}

/// A conversation is closed where every call has its result behind it, in the order of the
/// calls: plain messages leave it closed, calls open it, and their results close it again.
pub proof fn when_a_conversation_is_closed(
    entries: Seq<EntryView>,
    owed: Seq<Seq<char>>,
    text: Seq<char>,
    ids: Seq<Seq<char>>,
    id: Seq<char>,
)
    requires
        owed_after(Some(Seq::empty()), entries) == Some(owed),
    ensures
        ({
            let plain = entries.push(EntryView { kind: KindView::Message, text });
            let called = entries.push(EntryView { kind: KindView::ToolCalls(ids), text });
            let answered = entries.push(EntryView { kind: KindView::ToolResult(id), text });
            let none = Some(Seq::<Seq<char>>::empty());
            &&& owed.len() == 0 ==> owed_after(none, plain) == none
            &&& owed.len() == 0 ==> owed_after(none, called) == Some(ids)
            &&& owed.len() > 0 ==> owed_after(none, plain) is None && owed_after(none, called) is None
            &&& owed.len() > 0 && owed[0] == id ==> owed_after(none, answered) == Some(
                owed.subrange(1, owed.len() as int),
            )
            &&& owed.len() == 0 || owed[0] != id ==> owed_after(none, answered) is None
        }),
        owed_after(Some(Seq::empty()), Seq::empty()) == Some(Seq::<Seq<char>>::empty()),
{
    let none = Some(Seq::<Seq<char>>::empty());
    lemma_owed_push(none, entries, EntryView { kind: KindView::Message, text });
    lemma_owed_push(none, entries, EntryView { kind: KindView::ToolCalls(ids), text });
    lemma_owed_push(none, entries, EntryView { kind: KindView::ToolResult(id), text });
}

/// A conversation without messages is closed; calls behind one that is closed leave it open
/// unless there are none, and a result without its call is never closed.
pub proof fn what_opens_a_conversation(
    h: Seq<MessageView>,
    calls: Seq<CallView>,
    role: Seq<char>,
    text: Seq<char>,
    id: Seq<char>,
)
    requires
        history_closed(h),
    ensures
        history_closed(Seq::empty()),
        history_closed(h.push(plain_message(role, text))),
        history_closed(h.push(calls_message(calls))) <==> calls.len() == 0,
        !history_closed(h.push(result_message(id, text))),
        calls.len() == 1 ==> history_closed(
            h.push(calls_message(calls)).push(result_message(calls[0].id, text)),
        ),
{
    let none = Some(Seq::<Seq<char>>::empty());
    let entries = history_entries(h);
    let p = plain_message(role, text);
    let c = calls_message(calls);
    let r = result_message(id, text);
    assert(history_entries(Seq::empty()) =~= Seq::<EntryView>::empty());
    assert(history_entries(h.push(p)) =~= entries.push(entry_of(p)));
    assert(history_entries(h.push(c)) =~= entries.push(entry_of(c)));
    assert(history_entries(h.push(r)) =~= entries.push(entry_of(r)));
    lemma_owed_push(none, entries, entry_of(p));
    lemma_owed_push(none, entries, entry_of(c));
    lemma_owed_push(none, entries, entry_of(r));
    assert(ids_of(calls).len() == calls.len());
    if calls.len() == 0 {
        assert(ids_of(calls) =~= Seq::<Seq<char>>::empty());
    }
    if calls.len() == 1 {
        let opened = history_entries(h.push(c));
        let a = result_message(calls[0].id, text);
        assert(history_entries(h.push(c).push(a)) =~= opened.push(entry_of(a)));
        lemma_owed_push(none, opened, entry_of(a));
        assert(ids_of(calls)[0] == calls[0].id);
        assert(ids_of(calls).subrange(1, 1) =~= Seq::<Seq<char>>::empty());
    }
}

} // verus!
