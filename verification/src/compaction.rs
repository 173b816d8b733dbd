//! Replacing the older part of a conversation by a summary: first long tool
//! results are cut short, then a prefix that splits no tool call from its result
//! is summarized.
use vstd::prelude::*;
use crate::names::NameSet;
use crate::protocol::{copy_texts, error, ErrorCode, ErrorEnvelope, ErrorView};
use crate::text::{
    blank, chars_of, concat2, concat4, decimal, decimal_of, is_blank, is_white, text_between,
    views,
};

verus! {

broadcast use vstd::string::group_string_axioms;

#[derive(Debug, PartialEq, Eq)]
pub enum CompactionKind {
    Message,
    ToolCalls(Vec<String>),
    ToolResult(String),
}

pub enum KindView {
    Message,
    ToolCalls(Seq<Seq<char>>),
    ToolResult(Seq<char>),
}

impl View for CompactionKind {
    type V = KindView;

    open spec fn view(&self) -> KindView {
        match self {
            CompactionKind::Message => KindView::Message,
            CompactionKind::ToolCalls(ids) => KindView::ToolCalls(views(ids@)),
            CompactionKind::ToolResult(id) => KindView::ToolResult(id@),
        }
    }
}

impl Clone for CompactionKind {
    fn clone(&self) -> (r: CompactionKind)
        ensures
            r@ == self@,
    {
        match self {
            CompactionKind::Message => CompactionKind::Message,
            CompactionKind::ToolCalls(ids) => CompactionKind::ToolCalls(copy_texts(ids)),
            CompactionKind::ToolResult(id) => CompactionKind::ToolResult(id.clone()),
        }
    }
}

/// One entry of a conversation, as compaction sees it.
#[derive(Debug, PartialEq, Eq)]
pub struct CompactionEntry {
    pub kind: CompactionKind,
    pub text: String,
}

pub struct EntryView {
    pub kind: KindView,
    pub text: Seq<char>,
}

impl View for CompactionEntry {
    type V = EntryView;

    open spec fn view(&self) -> EntryView {
        EntryView { kind: self.kind@, text: self.text@ }
    }
}

impl Clone for CompactionEntry {
    fn clone(&self) -> (r: CompactionEntry)
        ensures
            r@ == self@,
    {
        CompactionEntry { kind: self.kind.clone(), text: self.text.clone() }
    }
}

pub open spec fn entries_view(entries: Seq<CompactionEntry>) -> Seq<EntryView> {
    entries.map_values(|e: CompactionEntry| e@)
}

/// Makes the summary of a conversation.
pub trait SummaryProvider {
    fn summarize(&self, input: &str) -> Result<String, ErrorEnvelope>;
}

/// The summarizer was given the input and gave back `r`.
pub open spec fn summarized<P: SummaryProvider + ?Sized>(
    summarizer: &P,
    input: &str,
    r: Result<String, ErrorEnvelope>,
) -> bool {
    call_ensures(P::summarize, (summarizer, input), r)
}

/// The same, by what the input holds.
pub open spec fn summary_of<P: SummaryProvider + ?Sized>(
    summarizer: &P,
    text: Seq<char>,
    r: Result<String, ErrorEnvelope>,
) -> bool {
    exists|input: &str| #[trigger] summarized(summarizer, input, r) && input@ == text
}

/// What a summarizer gives for a text.
pub open spec fn summaries_of<P: SummaryProvider + ?Sized>(summarizer: &P) -> spec_fn(
    Seq<char>,
    Result<String, ErrorEnvelope>,
) -> bool {
    |text: Seq<char>, r: Result<String, ErrorEnvelope>| summary_of(summarizer, text, r)
}

/// Why a summary is not used: there is none, or it is blank.
pub open spec fn summary_error(said: Result<String, ErrorEnvelope>) -> Option<ErrorView> {
    match said {
        Err(e) => Some(e@),
        Ok(text) => if blank(text@) {
            Some(error(ErrorCode::Internal, "compaction summarizer returned an empty summary"@))
        } else {
            None
        },
    }
}

// ---------------------------------------------------------------------------
// Where a conversation may be cut
// ---------------------------------------------------------------------------

/// The ids of all tool calls, in order.
pub open spec fn call_ids(entries: Seq<EntryView>) -> Seq<Seq<char>>
    decreases entries.len(),
{
    if entries.len() == 0 {
        Seq::empty()
    } else {
        call_ids(entries.drop_last()) + match entries.last().kind {
            KindView::ToolCalls(ids) => ids,
            _ => Seq::empty(),
        }
    }
}

/// The ids of all tool results, in order.
pub open spec fn result_ids(entries: Seq<EntryView>) -> Seq<Seq<char>>
    decreases entries.len(),
{
    if entries.len() == 0 {
        Seq::empty()
    } else {
        result_ids(entries.drop_last()) + match entries.last().kind {
            KindView::ToolResult(id) => seq![id],
            _ => Seq::empty(),
        }
    }
}

/// No call and no result occurs twice.
pub open spec fn ids_unique(entries: Seq<EntryView>) -> bool {
    call_ids(entries).no_duplicates() && result_ids(entries).no_duplicates()
}

/// The first `cut` entries hold the results of exactly the calls that they hold.
pub open spec fn pair_complete(entries: Seq<EntryView>, cut: int) -> bool {
    &&& ids_unique(entries)
    &&& call_ids(entries.take(cut)).to_set() == result_ids(entries.take(cut)).to_set()
}

/// The largest cut that a compaction keeping `retain` entries may make.
pub open spec fn is_safe_prefix(entries: Seq<EntryView>, retain: int, cut: int) -> bool {
    &&& 1 <= cut <= entries.len() - retain
    &&& pair_complete(entries, cut)
    &&& forall|k: int| cut < k <= entries.len() - retain ==> !#[trigger] pair_complete(entries, k)
}

/// No cut is allowed.
pub open spec fn no_safe_prefix(entries: Seq<EntryView>, retain: int) -> bool {
    forall|k: int| 1 <= k <= entries.len() - retain ==> !#[trigger] pair_complete(entries, k)
}

proof fn lemma_prefix_duplicates(entries: Seq<EntryView>, k: int)
    requires
        0 <= k <= entries.len(),
        ids_unique(entries),
    ensures
        ids_unique(entries.take(k)),
    decreases entries.len() - k,
{
    if k < entries.len() {
        let shorter = entries.drop_last();
        assert(call_ids(shorter).no_duplicates()) by {
            let all = call_ids(entries);
            assert forall|i: int, j: int|
                0 <= i < call_ids(shorter).len() && 0 <= j < call_ids(shorter).len() && i
                    != j implies call_ids(shorter)[i] != call_ids(shorter)[j] by {
                assert(all[i] == call_ids(shorter)[i]);
                assert(all[j] == call_ids(shorter)[j]);
            }
        }
        assert(result_ids(shorter).no_duplicates()) by {
            let all = result_ids(entries);
            assert forall|i: int, j: int|
                0 <= i < result_ids(shorter).len() && 0 <= j < result_ids(shorter).len() && i
                    != j implies result_ids(shorter)[i] != result_ids(shorter)[j] by {
                assert(all[i] == result_ids(shorter)[i]);
                assert(all[j] == result_ids(shorter)[j]);
            }
        }
        lemma_prefix_duplicates(shorter, k);
        assert(shorter.take(k) =~= entries.take(k));
    } else {
        assert(entries.take(k) =~= entries);
    }
}

/// Adds `ids` to the set of a list; false once an id was there already.
fn add_ids(set: &mut NameSet, ids: &Vec<String>, Ghost(listed): Ghost<Seq<Seq<char>>>) -> (r: bool)
    requires
        old(set)@ == listed.to_set(),
        listed.no_duplicates(),
    ensures
        r == (listed + views(ids@)).no_duplicates(),
        r ==> final(set)@ == (listed + views(ids@)).to_set(),
{
    let ghost all = listed + views(ids@);
    let mut i: usize = 0;
    assert(all.take(listed.len() as int) =~= listed);
    while i < ids.len()
        invariant
            i <= ids@.len(),
            all == listed + views(ids@),
            set@ == all.take(listed.len() + i).to_set(),
            all.take(listed.len() + i).no_duplicates(),
        decreases ids@.len() - i,
    {
        let ghost k: int = listed.len() + i;
        let ghost head = all.take(k);
        let ghost next = all.take(k + 1);
        proof {
            assert(all[k] == ids@[i as int]@);
            assert(next =~= head.push(all[k]));
        }
        let fresh = set.insert(ids[i].clone());
        if !fresh {
            proof {
                let j = choose|j: int| 0 <= j < head.len() && head[j] == all[k];
                assert(all[j] == all[k]);
                assert(!all.no_duplicates());
            }
            return false;
        }
        proof {
            lemma_push_set(head, all[k]);
            assert forall|a: int, b: int|
                0 <= a < next.len() && 0 <= b < next.len() && a != b implies next[a]
                != next[b] by {
                if a < k && b < k {
                    assert(head[a] == next[a] && head[b] == next[b]);
                } else if a < k {
                    assert(head[a] == next[a]);
                    assert(head.contains(head[a]));
                } else if b < k {
                    assert(head[b] == next[b]);
                    assert(head.contains(head[b]));
                }
            }
        }
        i = i + 1;
    }
    assert(all.take(listed.len() + i) =~= all);
    true
}

proof fn lemma_push_set(s: Seq<Seq<char>>, x: Seq<char>)
    ensures
        s.push(x).to_set() == s.to_set().insert(x),
{
    assert forall|y: Seq<char>| s.push(x).to_set().contains(y) <==> s.to_set().insert(x).contains(
        y,
    ) by {
        if s.push(x).contains(y) {
            let j = choose|j: int| 0 <= j < s.push(x).len() && s.push(x)[j] == y;
            if j < s.len() {
                assert(s[j] == y);
            }
        }
        if s.contains(y) {
            let j = choose|j: int| 0 <= j < s.len() && s[j] == y;
            assert(s.push(x)[j] == y);
        }
        assert(s.push(x)[s.len() as int] == x);
    }
    assert(s.push(x).to_set() =~= s.to_set().insert(x));
}

/// Whether a cut after `cut` entries splits no call from its result.
pub fn pair_complete_at_cut(entries: &[CompactionEntry], cut: usize) -> (r: bool)
    requires
        cut <= entries@.len(),
    ensures
        r == pair_complete(entries_view(entries@), cut as int),
{
    let ghost all = entries_view(entries@);
    let mut calls = NameSet::new();
    let mut results = NameSet::new();
    let mut calls_before = NameSet::new();
    let mut results_before = NameSet::new();
    let mut i: usize = 0;
    assert(call_ids(all.take(0)).to_set() =~= Set::<Seq<char>>::empty());
    assert(result_ids(all.take(0)).to_set() =~= Set::<Seq<char>>::empty());
    while i < entries.len()
        invariant
            i <= entries@.len(),
            cut <= entries@.len(),
            all == entries_view(entries@),
            calls@ == call_ids(all.take(i as int)).to_set(),
            results@ == result_ids(all.take(i as int)).to_set(),
            ids_unique(all.take(i as int)),
            i > cut ==> calls_before@ == call_ids(all.take(cut as int)).to_set(),
            i > cut ==> results_before@ == result_ids(all.take(cut as int)).to_set(),
        decreases entries@.len() - i,
    {
        if i == cut {
            calls_before = calls.clone();
            results_before = results.clone();
        }
        let ghost head = all.take(i as int);
        let ghost next = all.take(i + 1);
        proof {
            assert(next.drop_last() =~= head);
            assert(next.last() == entries@[i as int]@);
        }
        match &entries[i].kind {
            CompactionKind::ToolCalls(ids) => {
                let fresh = add_ids(&mut calls, ids, Ghost(call_ids(head)));
                assert(result_ids(next) =~= result_ids(head));
                if !fresh {
                    proof {
                        assert(!ids_unique(next));
                        if ids_unique(all) {
                            lemma_prefix_duplicates(all, i + 1);
                        }
                    }
                    return false;
                }
            },
            CompactionKind::ToolResult(id) => {
                assert(call_ids(next) =~= call_ids(head));
                let ghost listed = result_ids(head);
                let fresh = results.insert(id.clone());
                proof {
                    assert(result_ids(next) =~= listed.push(id@));
                    lemma_push_set(listed, id@);
                }
                if !fresh {
                    proof {
                        let j = choose|j: int| 0 <= j < listed.len() && listed[j] == id@;
                        assert(result_ids(next)[j] == result_ids(next)[listed.len() as int]);
                        assert(!ids_unique(next));
                        if ids_unique(all) {
                            lemma_prefix_duplicates(all, i + 1);
                        }
                    }
                    return false;
                }
                assert forall|a: int, b: int|
                    0 <= a < result_ids(next).len() && 0 <= b < result_ids(next).len() && a
                        != b implies result_ids(next)[a] != result_ids(next)[b] by {
                    if a < listed.len() && b < listed.len() {
                        assert(listed[a] == result_ids(next)[a]);
                        assert(listed[b] == result_ids(next)[b]);
                    } else if a < listed.len() {
                        assert(listed.contains(listed[a]));
                    } else if b < listed.len() {
                        assert(listed.contains(listed[b]));
                    }
                }
            },
            CompactionKind::Message => {
                assert(call_ids(next) =~= call_ids(head));
                assert(result_ids(next) =~= result_ids(head));
            },
        }
        i = i + 1;
    }
    if cut == entries.len() {
        calls_before = calls.clone();
        results_before = results.clone();
    }
    let within = calls_before.is_subset(&results_before) && results_before.is_subset(&calls_before);
    proof {
        assert(all.take(entries@.len() as int) =~= all);
        if within {
            assert(calls_before@ =~= results_before@);
        }
    }
    within
}

/// The longest prefix that may be summarized while the last `retain_recent`
/// entries stay.
pub fn safe_prefix_len(entries: &[CompactionEntry], retain_recent: usize) -> (r: Option<usize>)
    ensures
        match r {
            Some(cut) => is_safe_prefix(entries_view(entries@), retain_recent as int, cut as int),
            None => no_safe_prefix(entries_view(entries@), retain_recent as int),
        },
{
    if entries.len() <= retain_recent {
        return None;
    }
    let desired: usize = entries.len() - retain_recent;
    let mut cut: usize = desired;
    while cut >= 1
        invariant
            cut <= desired,
            desired == entries@.len() - retain_recent,
            forall|k: int|
                cut < k <= desired ==> !#[trigger] pair_complete(entries_view(entries@), k),
        decreases cut,
    {
        if pair_complete_at_cut(entries, cut) {
            return Some(cut);
        }
        cut = cut - 1;
    }
    None
}

// ---------------------------------------------------------------------------
// Pruning
// ---------------------------------------------------------------------------

/// Cuts tool results of more than `max_chars` characters down to a preview.
#[derive(Debug, Clone, Copy, PartialEq, Eq, Structural)]
pub struct ToolResultPruner {
    max_chars: usize,
    preview_chars: usize,
}

/// A long tool result with only its first `preview` characters; anything else
/// as it is.
pub open spec fn pruned_entry(e: EntryView, max: nat, preview: nat) -> EntryView {
    if e.kind is ToolResult && e.text.len() > max {
        EntryView {
            kind: e.kind,
            text: e.text.take(preview as int) + "\n[tool result pruned: "@ + decimal(e.text.len())
                + " chars]"@,
        }
    } else {
        e
    }
}

pub open spec fn pruned_entries(s: Seq<EntryView>, max: nat, preview: nat) -> Seq<EntryView> {
    s.map_values(|e: EntryView| pruned_entry(e, max, preview))
}

/// The number of entries that are longer than allowed.
pub open spec fn pruned_count(s: Seq<EntryView>, max: nat) -> nat
    decreases s.len(),
{
    if s.len() == 0 {
        0
    } else {
        pruned_count(s.drop_last(), max) + (if s.last().kind is ToolResult && s.last().text.len()
            > max {
            1nat
        } else {
            0nat
        })
    }
}

impl ToolResultPruner {
    #[verifier::type_invariant]
    spec fn well_formed(&self) -> bool {
        self.preview_chars <= self.max_chars && self.max_chars > 0
    }

    pub closed spec fn max(&self) -> nat {
        self.max_chars as nat
    }

    pub closed spec fn preview(&self) -> nat {
        self.preview_chars as nat
    }

    pub fn new(max_chars: usize, preview_chars: usize) -> (r: Result<
        ToolResultPruner,
        &'static str,
    >)
        ensures
            match r {
                Ok(p) => max_chars > 0 && preview_chars <= max_chars && p.max() == max_chars
                    && p.preview() == preview_chars,
                Err(e) => (max_chars == 0 || preview_chars > max_chars) && e@
                    == "tool result limits require max_chars > 0 and preview_chars <= max_chars"@,
            },
    {
        if max_chars == 0 || preview_chars > max_chars {
            return Err(
                "tool result limits require max_chars > 0 and preview_chars <= max_chars",
            );
        }
        Ok(ToolResultPruner { max_chars, preview_chars })
    }

    /// Prunes every entry and gives the number of those that changed.
    pub fn prune(&self, entries: &mut Vec<CompactionEntry>) -> (r: usize)
        ensures
            entries_view(final(entries)@) == pruned_entries(
                entries_view(old(entries)@),
                self.max(),
                self.preview(),
            ),
            r == pruned_count(entries_view(old(entries)@), self.max()),
    {
        proof {
            use_type_invariant(self);
        }
        let ghost before = entries_view(entries@);
        let mut pruned: usize = 0;
        let mut i: usize = 0;
        assert(before.take(0) =~= Seq::<EntryView>::empty());
        while i < entries.len()
            invariant
                i <= entries@.len(),
                entries@.len() == before.len(),
                self.preview_chars <= self.max_chars,
                forall|j: int|
                    0 <= j < i ==> (#[trigger] entries@[j])@ == pruned_entry(
                        before[j],
                        self.max(),
                        self.preview(),
                    ),
                forall|j: int| i <= j < before.len() ==> (#[trigger] entries@[j])@ == before[j],
                pruned == pruned_count(before.take(i as int), self.max()),
                pruned <= i,
            decreases entries@.len() - i,
        {
            proof {
                assert(before.take(i + 1).drop_last() =~= before.take(i as int));
                assert(before.take(i + 1).last() == before[i as int]);
                assert(entries@[i as int]@ == before[i as int]);
            }
            let is_result = matches!(&entries[i].kind, CompactionKind::ToolResult(_));
            if is_result {
                let chars = chars_of(&entries[i].text);
                if chars.len() > self.max_chars {
                    let preview = text_between(&chars, 0, self.preview_chars);
                    let count = decimal_of(chars.len() as u64);
                    let text = concat4(&preview, "\n[tool result pruned: ", &count, " chars]");
                    let kind = entries[i].kind.clone();
                    proof {
                        assert(chars@.subrange(0, self.preview_chars as int) =~= chars@.take(
                            self.preview_chars as int,
                        ));
                    }
                    entries.set(i, CompactionEntry { kind, text });
                    pruned = pruned + 1;
                }
            }
            i = i + 1;
        }
        assert(before.take(i as int) =~= before);
        assert(entries_view(entries@) =~= pruned_entries(before, self.max(), self.preview()));
        pruned
    }
}

// ---------------------------------------------------------------------------
// The plan
// ---------------------------------------------------------------------------

/// `parts` with `sep` between them.
pub open spec fn joined(parts: Seq<Seq<char>>, sep: Seq<char>) -> Seq<char>
    decreases parts.len(),
{
    if parts.len() == 0 {
        Seq::empty()
    } else if parts.len() == 1 {
        parts[0]
    } else {
        joined(parts.drop_last(), sep) + sep + parts.last()
    }
}

/// `str::join` over a list of strings.
pub fn join_texts(parts: &Vec<String>, sep: &str) -> (r: String)
    ensures
        r@ == joined(views(parts@), sep@),
{
    let ghost all = views(parts@);
    let mut r = String::new();
    let mut i: usize = 0;
    assert(all.take(0) =~= Seq::<Seq<char>>::empty());
    while i < parts.len()
        invariant
            i <= parts@.len(),
            all == views(parts@),
            r@ == joined(all.take(i as int), sep@),
        decreases parts@.len() - i,
    {
        if i > 0 {
            r.push_str(sep);
        }
        r.push_str(&parts[i]);
        proof {
            assert(all.take(i + 1).drop_last() =~= all.take(i as int));
            assert(all.take(i + 1).last() == parts@[i as int]@);
            assert(r@ =~= joined(all.take(i + 1), sep@));
        }
        i = i + 1;
    }
    assert(all.take(i as int) =~= all);
    r
}

/// How one entry is shown to the summarizer.
pub open spec fn summary_line(e: EntryView) -> Seq<char> {
    match e.kind {
        KindView::Message => "message: "@ + e.text,
        KindView::ToolCalls(ids) => "tool_calls("@ + joined(ids, ","@) + "): "@ + e.text,
        KindView::ToolResult(id) => "tool_result("@ + id + "): "@ + e.text,
    }
}

/// The text that is summarized.
pub open spec fn summary_text(entries: Seq<EntryView>) -> Seq<char> {
    joined(entries.map_values(|e: EntryView| summary_line(e)), "\n"@)
}

/// The first `cut` entries as text.
fn render_for_summary(entries: &Vec<CompactionEntry>, cut: usize) -> (r: String)
    requires
        cut <= entries@.len(),
    ensures
        r@ == summary_text(entries_view(entries@).take(cut as int)),
{
    let ghost all = entries_view(entries@);
    let ghost lines = all.take(cut as int).map_values(|e: EntryView| summary_line(e));
    let mut list: Vec<String> = Vec::new();
    let mut i: usize = 0;
    while i < cut
        invariant
            i <= cut <= entries@.len(),
            all == entries_view(entries@),
            lines == all.take(cut as int).map_values(|e: EntryView| summary_line(e)),
            views(list@) == lines.take(i as int),
        decreases cut - i,
    {
        let ghost before = list@;
        let line = match &entries[i].kind {
            CompactionKind::Message => concat2("message: ", &entries[i].text),
            CompactionKind::ToolCalls(ids) => {
                let names = join_texts(ids, ",");
                concat4("tool_calls(", &names, "): ", &entries[i].text)
            },
            CompactionKind::ToolResult(id) => concat4(
                "tool_result(",
                id,
                "): ",
                &entries[i].text,
            ),
        };
        list.push(line);
        proof {
            assert(views(list@) =~= views(before).push(line@));
            assert(lines[i as int] == summary_line(entries@[i as int]@));
            assert(lines.take(i + 1) =~= lines.take(i as int).push(line@));
        }
        i = i + 1;
    }
    assert(lines.take(i as int) =~= lines);
    join_texts(&list, "\n")
}

#[derive(Debug, PartialEq, Eq, Clone)]
pub struct CompactionPlan {
    pub compacted_prefix: usize,
    pub summary: String,
    pub entries_after_pruning: Vec<CompactionEntry>,
    pub pruned_tool_results: usize,
}

/// A compaction that waits for its summary.
#[derive(Debug, PartialEq, Eq)]
pub struct PreparedCompaction {
    pub compacted_prefix: usize,
    pub entries_after_pruning: Vec<CompactionEntry>,
    pub pruned_tool_results: usize,
    pub input: String,
}

#[derive(Debug, Clone, Copy, PartialEq, Eq, Structural)]
pub struct TwoStageCompactor {
    retain_recent: usize,
    pruner: ToolResultPruner,
}

/// What a compaction of `entries` does before it is summarized.
pub open spec fn prepared_for(
    entries: Seq<EntryView>,
    c: TwoStageCompactor,
    cut: int,
    after: Seq<EntryView>,
    pruned: int,
) -> bool {
    &&& is_safe_prefix(entries, c.retained() as int, cut)
    &&& after == pruned_entries(entries, c.max(), c.preview())
    &&& pruned == pruned_count(entries, c.max())
}

/// The text that is summarized when `entries` are cut at `cut`.
pub open spec fn summary_input(entries: Seq<EntryView>, c: TwoStageCompactor, cut: int) -> Seq<char> {
    summary_text(pruned_entries(entries, c.max(), c.preview()).take(cut))
}

/// What a compaction of `entries` at `cut` comes to for what the summarizer said.
pub open spec fn planned(
    entries: Seq<EntryView>,
    c: TwoStageCompactor,
    cut: int,
    said: Result<String, ErrorEnvelope>,
    r: Result<Option<CompactionPlan>, ErrorEnvelope>,
) -> bool {
    match summary_error(said) {
        Some(e) => r is Err && r->Err_0@ == e,
        None => r matches Ok(Some(plan)) && {
            &&& plan.summary == said->Ok_0
            &&& plan.compacted_prefix == cut
            &&& prepared_for(
                entries,
                c,
                cut,
                entries_view(plan.entries_after_pruning@),
                plan.pruned_tool_results as int,
            )
        },
    }
}

impl TwoStageCompactor {
    /// The entries at the end that are never compacted.
    pub closed spec fn retained(&self) -> nat {
        self.retain_recent as nat
    }

    pub closed spec fn max(&self) -> nat {
        self.pruner.max()
    }

    pub closed spec fn preview(&self) -> nat {
        self.pruner.preview()
    }

    pub fn new(retain_recent: usize, pruner: ToolResultPruner) -> (r: TwoStageCompactor)
        ensures
            r.retained() == retain_recent,
            r.max() == pruner.max(),
            r.preview() == pruner.preview(),
    {
        TwoStageCompactor { retain_recent, pruner }
    }

    /// Everything of a compaction but its summary; nothing where no cut is safe.
    pub fn prepare(&self, entries: &[CompactionEntry]) -> (r: Option<PreparedCompaction>)
        ensures
            match r {
                None => no_safe_prefix(entries_view(entries@), self.retained() as int),
                Some(p) => {
                    &&& prepared_for(
                        entries_view(entries@),
                        *self,
                        p.compacted_prefix as int,
                        entries_view(p.entries_after_pruning@),
                        p.pruned_tool_results as int,
                    )
                    &&& p.input@ == summary_text(
                        entries_view(p.entries_after_pruning@).take(p.compacted_prefix as int),
                    )
                },
            },
    {
        let cut: usize = match safe_prefix_len(entries, self.retain_recent) {
            Some(cut) => cut,
            None => {
                return None;
            },
        };
        let mut copy: Vec<CompactionEntry> = Vec::new();
        let mut i: usize = 0;
        while i < entries.len()
            invariant
                i <= entries@.len(),
                entries_view(copy@) == entries_view(entries@).take(i as int),
            decreases entries@.len() - i,
        {
            let ghost before = copy@;
            let entry = entries[i].clone();
            copy.push(entry);
            assert(entries_view(copy@) =~= entries_view(before).push(entry@));
            i = i + 1;
            assert(entries_view(copy@) =~= entries_view(entries@).take(i as int));
        }
        assert(entries_view(copy@) =~= entries_view(entries@));
        let pruned: usize = self.pruner.prune(&mut copy);
        proof {
            assert(entries_view(copy@).len() == entries@.len());
        }
        let input = render_for_summary(&copy, cut);
        Some(
            PreparedCompaction {
                compacted_prefix: cut,
                entries_after_pruning: copy,
                pruned_tool_results: pruned,
                input,
            },
        )
    }

    /// Plans a compaction. Nothing where no cut is safe; an error where the
    /// summarizer fails, or gives a blank summary.
    pub fn plan<P: SummaryProvider + ?Sized>(
        &self,
        entries: &[CompactionEntry],
        summarizer: &P,
    ) -> (r: Result<Option<CompactionPlan>, ErrorEnvelope>)
        ensures
            r == Ok::<Option<CompactionPlan>, ErrorEnvelope>(None) <==> no_safe_prefix(
                entries_view(entries@),
                self.retained() as int,
            ),
            r != Ok::<Option<CompactionPlan>, ErrorEnvelope>(None) ==> exists|
                cut: int,
                said: Result<String, ErrorEnvelope>,
            |
                {
                    &&& is_safe_prefix(entries_view(entries@), self.retained() as int, cut)
                    &&& summary_of(
                        summarizer,
                        summary_input(entries_view(entries@), *self, cut),
                        said,
                    )
                    &&& #[trigger] planned(entries_view(entries@), *self, cut, said, r)
                },
    {
        match self.prepare(entries) {
            None => Ok(None),
            Some(prepared) => {
                let input = prepared.input.as_str();
                let summary = summarizer.summarize(input);
                assert(summarized(summarizer, input, summary));
                let ghost cut = prepared.compacted_prefix as int;
                let ghost said = summary;
                assert(!no_safe_prefix(entries_view(entries@), self.retained() as int));
                let r = match finish_plan(prepared, summary) {
                    Ok(plan) => Ok(Some(plan)),
                    Err(e) => Err(e),
                };
                assert(planned(entries_view(entries@), *self, cut, said, r));
                r
            },
        }
    }
}

/// The plan that a prepared compaction becomes with what the summarizer gave.
pub fn finish_plan(prepared: PreparedCompaction, summary: Result<String, ErrorEnvelope>) -> (r:
    Result<CompactionPlan, ErrorEnvelope>)
    ensures
        match summary_error(summary) {
            Some(e) => r is Err && r->Err_0@ == e,
            None => r == Ok::<CompactionPlan, ErrorEnvelope>(
                CompactionPlan {
                    compacted_prefix: prepared.compacted_prefix,
                    summary: summary->Ok_0,
                    entries_after_pruning: prepared.entries_after_pruning,
                    pruned_tool_results: prepared.pruned_tool_results,
                },
            ),
        },
{
    match summary {
        Err(e) => Err(e),
        Ok(text) => {
            if is_blank(&text) {
                return Err(
                    ErrorEnvelope::of(
                        ErrorCode::Internal,
                        "compaction summarizer returned an empty summary",
                    ),
                );
            }
            Ok(
                CompactionPlan {
                    compacted_prefix: prepared.compacted_prefix,
                    summary: text,
                    entries_after_pruning: prepared.entries_after_pruning,
                    pruned_tool_results: prepared.pruned_tool_results,
                },
            )
        },
    }
}

// ---------------------------------------------------------------------------
// Laws
// ---------------------------------------------------------------------------

/// A call of the compacted prefix has its result there too, and the other way
/// round; so the part that stays keeps each of its pairs whole.
pub proof fn safe_prefix_splits_no_pair(entries: Seq<EntryView>, retain: int, cut: int, id: Seq<char>)
    requires
        is_safe_prefix(entries, retain, cut),
    ensures
        call_ids(entries.take(cut)).contains(id) <==> result_ids(entries.take(cut)).contains(id),
{
    assert(call_ids(entries.take(cut)).to_set().contains(id) <==> result_ids(
        entries.take(cut),
    ).to_set().contains(id));
}

/// Pruning changes no entry's kind, so it changes neither which calls and results
/// there are nor where a conversation may be cut.
pub proof fn pruning_keeps_pairs(entries: Seq<EntryView>, max: nat, preview: nat)
    ensures
        call_ids(pruned_entries(entries, max, preview)) == call_ids(entries),
        result_ids(pruned_entries(entries, max, preview)) == result_ids(entries),
    decreases entries.len(),
{
    if entries.len() > 0 {
        pruning_keeps_pairs(entries.drop_last(), max, preview);
        assert(pruned_entries(entries, max, preview).drop_last() =~= pruned_entries(
            entries.drop_last(),
            max,
            preview,
        ));
    }
}

/// Pruning leaves every entry its kind, and its text unless it is a tool result of more
/// characters than allowed. Such a result begins with its own first characters and says how
/// many there were.
pub proof fn pruning_shortens_long_results_only(
    entries: Seq<EntryView>,
    max: nat,
    preview: nat,
    i: int,
)
    requires
        0 <= i < entries.len(),
        preview <= max,
    ensures
        ({
            let after = pruned_entries(entries, max, preview);
            let text = entries[i].text;
            &&& after.len() == entries.len()
            &&& after[i].kind == entries[i].kind
            &&& !(entries[i].kind is ToolResult) || text.len() <= max ==> after[i] == entries[i]
            &&& entries[i].kind is ToolResult && text.len() > max ==> {
                &&& after[i].text == text.subrange(0, preview as int) + "\n[tool result pruned: "@
                    + decimal(text.len()) + " chars]"@
                &&& after[i].text.subrange(0, preview as int) == text.subrange(0, preview as int)
            }
        }),
{
    let after = pruned_entries(entries, max, preview);
    let text = entries[i].text;
    if entries[i].kind is ToolResult && text.len() > max {
        assert(text.take(preview as int) =~= text.subrange(0, preview as int));
        assert(after[i].text.subrange(0, preview as int) =~= text.subrange(0, preview as int));
    }
}

/// The places of the tool results that are longer than allowed.
pub open spec fn long_results(entries: Seq<EntryView>, max: nat) -> Set<int> {
    Set::new(
        |i: int| 0 <= i < entries.len() && entries[i].kind is ToolResult && entries[i].text.len() > max,
    )
}

/// The count of pruned results is the number of tool results that are longer than allowed.
pub proof fn every_long_result_is_counted(entries: Seq<EntryView>, max: nat)
    ensures
        long_results(entries, max).finite(),
        pruned_count(entries, max) == long_results(entries, max).len(),
    decreases entries.len(),
{
    let all = long_results(entries, max);
    if entries.len() == 0 {
        assert(all =~= Set::<int>::empty());
    } else {
        let before = entries.drop_last();
        every_long_result_is_counted(before, max);
        let n = entries.len() - 1;
        let some = long_results(before, max);
        if entries.last().kind is ToolResult && entries.last().text.len() > max {
            assert(all =~= some.insert(n));
        } else {
            assert(all =~= some);
        }
    }
}

/// Texts are joined in their order, with the separator between two of them.
pub proof fn joining_puts_the_separator_between(
    a: Seq<Seq<char>>,
    b: Seq<Seq<char>>,
    x: Seq<char>,
    sep: Seq<char>,
)
    requires
        a.len() > 0,
        b.len() > 0,
    ensures
        joined(seq![x], sep) == x,
        joined(a + b, sep) == joined(a, sep) + sep + joined(b, sep),
    decreases b.len(),
{
    let all = a + b;
    assert(all.last() == b.last());
    if b.len() == 1 {
        assert(all.drop_last() =~= a);
        assert(joined(b, sep) == b[0]);
        assert(joined(all, sep) =~= joined(a, sep) + sep + joined(b, sep));
    } else {
        joining_puts_the_separator_between(a, b.drop_last(), x, sep);
        assert(all.drop_last() =~= a + b.drop_last());
        assert(joined(all, sep) =~= joined(a, sep) + sep + joined(b, sep));
    }
}

/// The summarizer is shown every entry in its order, each on a line of its own: what it is,
/// the ids of its calls or of its result, and its whole text.
pub proof fn the_summarizer_sees_every_entry(a: Seq<EntryView>, b: Seq<EntryView>, e: EntryView)
    requires
        a.len() > 0,
        b.len() > 0,
    ensures
        summary_text(a + b) == summary_text(a) + "\n"@ + summary_text(b),
        summary_text(seq![e]) == (match e.kind {
            KindView::Message => "message: "@ + e.text,
            KindView::ToolCalls(ids) => "tool_calls("@ + joined(ids, ","@) + "): "@ + e.text,
            KindView::ToolResult(id) => "tool_result("@ + id + "): "@ + e.text,
        }),
{
    let line = |e: EntryView| summary_line(e);
    joining_puts_the_separator_between(
        a.map_values(line),
        b.map_values(line),
        summary_line(e),
        "\n"@,
    );
    assert((a + b).map_values(line) =~= a.map_values(line) + b.map_values(line));
    assert(seq![e].map_values(line) =~= seq![summary_line(e)]);
}

/// A cut leaves at least as many entries as are to be kept, and no larger one would part no
/// pair.
pub proof fn a_cut_is_the_largest(entries: Seq<EntryView>, retain: int, cut: int, other: int)
    requires
        is_safe_prefix(entries, retain, cut),
    ensures
        entries.len() - cut >= retain,
        cut > 0,
        is_safe_prefix(entries, retain, other) ==> other == cut,
        cut < other <= entries.len() - retain && ids_unique(entries) ==> call_ids(
            entries.take(other),
        ).to_set() != result_ids(entries.take(other)).to_set(),
{
    if cut < other <= entries.len() - retain {
        assert(!pair_complete(entries, other));
    }
    if is_safe_prefix(entries, retain, other) {
        if cut < other {
            assert(!pair_complete(entries, other));
        }
        if other < cut {
            assert(!pair_complete(entries, cut));
        }
    }
}

/// The ids of calls and of results are those that the entries carry, in their order.
pub proof fn ids_come_from_the_entries(entries: Seq<EntryView>, e: EntryView)
    ensures
        call_ids(entries.push(e)) == call_ids(entries) + (match e.kind {
            KindView::ToolCalls(ids) => ids,
            _ => Seq::empty(),
        }),
        result_ids(entries.push(e)) == result_ids(entries) + (match e.kind {
            KindView::ToolResult(id) => seq![id],
            _ => Seq::empty(),
        }),
        call_ids(Seq::empty()).len() == 0,
        result_ids(Seq::empty()).len() == 0,
{
    assert(entries.push(e).drop_last() =~= entries);
}

/// A summary is used where there is one that says something; otherwise the summarizer's own
/// error counts, or that the summary is empty.
pub proof fn a_summary_must_say_something(said: Result<String, ErrorEnvelope>)
    ensures
        summary_error(said) is None <==> said is Ok && exists|i: int|
            0 <= i < said->Ok_0@.len() && !is_white(#[trigger] said->Ok_0@[i]),
        said is Err ==> summary_error(said) == Some(said->Err_0@),
        said is Ok && summary_error(said) is Some ==> summary_error(said)->0.code
            == ErrorCode::Internal,
{
}

/// A plan keeps the summary that was given, the cut, and the entries as pruning leaves them.
pub proof fn what_a_plan_keeps(
    entries: Seq<EntryView>,
    c: TwoStageCompactor,
    cut: int,
    said: Result<String, ErrorEnvelope>,
    r: Result<Option<CompactionPlan>, ErrorEnvelope>,
    i: int,
)
    requires
        planned(entries, c, cut, said, r),
        c.preview() <= c.max(),
        0 <= i < entries.len(),
    ensures
        r is Ok <==> said is Ok && !blank(said->Ok_0@),
        r is Ok ==> {
            &&& r->Ok_0 is Some
            &&& r->Ok_0->0.summary == said->Ok_0
            &&& r->Ok_0->0.compacted_prefix == cut
            &&& r->Ok_0->0.pruned_tool_results == long_results(entries, c.max()).len()
            &&& r->Ok_0->0.entries_after_pruning@.len() == entries.len()
            &&& r->Ok_0->0.entries_after_pruning@[i]@.kind == entries[i].kind
            &&& !(entries[i].kind is ToolResult) || entries[i].text.len() <= c.max()
                ==> r->Ok_0->0.entries_after_pruning@[i]@ == entries[i]
        },
{
    every_long_result_is_counted(entries, c.max());
    pruning_shortens_long_results_only(entries, c.max(), c.preview(), i);
    if r is Ok {
        let kept = r->Ok_0->0.entries_after_pruning@;
        assert(entries_view(kept)[i] == kept[i]@);
    }
}

/// The summarizer is given the entries before the cut, as pruning leaves them.
pub proof fn what_the_summarizer_is_given(entries: Seq<EntryView>, c: TwoStageCompactor, cut: int)
    requires
        0 <= cut <= entries.len(),
    ensures
        summary_input(entries, c, cut) == summary_text(
            pruned_entries(entries, c.max(), c.preview()).subrange(0, cut),
        ),
{
    assert(pruned_entries(entries, c.max(), c.preview()).take(cut) =~= pruned_entries(
        entries,
        c.max(),
        c.preview(),
    ).subrange(0, cut));
}

/// There is no cut where none before the entries that are kept leaves as many results as calls.
pub proof fn when_there_is_no_cut(entries: Seq<EntryView>, retain: int, cut: int)
    ensures
        no_safe_prefix(entries, retain) ==> !is_safe_prefix(entries, retain, cut),
        entries.len() <= retain ==> no_safe_prefix(entries, retain),
        no_safe_prefix(entries, retain) && 1 <= cut <= entries.len() - retain && ids_unique(entries)
            ==> call_ids(entries.take(cut)).to_set() != result_ids(entries.take(cut)).to_set(),
{
    if no_safe_prefix(entries, retain) && 1 <= cut <= entries.len() - retain {
        assert(!pair_complete(entries, cut));
    }
}

/// Entries are seen one by one, in their order.
pub proof fn entries_are_seen_in_order(entries: Seq<CompactionEntry>, i: int)
    ensures
        entries_view(entries).len() == entries.len(),
        0 <= i < entries.len() ==> entries_view(entries)[i] == entries[i]@,
{
}

} // verus!
