//! The token budget of a session, replayed from its events: what each agent
//! used itself, and what it used together with the agents below it.
use vstd::prelude::*;
use crate::names::{NameMap, NameSet};
use crate::protocol::{error, ErrorCode, ErrorEnvelope, ErrorView, Event, SequencedEvent};
use crate::session::recorded;
use crate::text::{blank, concat2, is_blank, same_text, views};

verus! {

broadcast use vstd::string::group_string_axioms;

#[derive(Debug, Clone, Copy, PartialEq, Eq, Structural)]
pub struct AgentTokenUsage {
    pub own_tokens: u64,
    pub subtree_tokens: u64,
}

impl Default for AgentTokenUsage {
    fn default() -> (r: AgentTokenUsage)
        ensures
            r == no_usage(),
    {
        AgentTokenUsage { own_tokens: 0, subtree_tokens: 0 }
    }
}

pub open spec fn no_usage() -> AgentTokenUsage {
    AgentTokenUsage { own_tokens: 0, subtree_tokens: 0 }
}

#[derive(Debug, PartialEq, Eq)]
pub struct BudgetLedger {
    root_agent_id: Option<String>,
    token_budget: Option<u64>,
    usages: NameMap<AgentTokenUsage>,
    usage_ids: NameSet,
}

#[verifier::ext_equal]
pub struct LedgerView {
    pub root: Option<Seq<char>>,
    pub budget: Option<u64>,
    pub usages: Map<Seq<char>, AgentTokenUsage>,
    pub ids: Set<Seq<char>>,
}

impl BudgetLedger {
    #[verifier::type_invariant]
    spec fn inv(self) -> bool {
        ledger_valid(self@)
    }
}

impl View for BudgetLedger {
    type V = LedgerView;

    closed spec fn view(&self) -> LedgerView {
        LedgerView {
            root: match self.root_agent_id {
                Some(root) => Some(root@),
                None => None,
            },
            budget: self.token_budget,
            usages: self.usages@,
            ids: self.usage_ids@,
        }
    }
}

impl Clone for BudgetLedger {
    fn clone(&self) -> (r: BudgetLedger)
        ensures
            r@ == self@,
    {
        proof {
            use_type_invariant(self);
        }
        let root_agent_id = match &self.root_agent_id {
            Some(root) => Some(root.clone()),
            None => None,
        };
        let usages = self.usages.clone();
        assert(usages@ =~= self.usages@) by {
            assert forall|k: Seq<char>| #[trigger] usages@.dom().contains(k) implies usages@[k]
                == self.usages@[k] by {
                assert(self.usages@.dom().contains(k));
                assert(cloned(self.usages@[k], usages@[k]));
            }
        }
        BudgetLedger {
            root_agent_id,
            token_budget: self.token_budget,
            usages,
            usage_ids: self.usage_ids.clone(),
        }
    }
}

// ---------------------------------------------------------------------------
// What an event does to a ledger
// ---------------------------------------------------------------------------

pub open spec fn empty_ledger() -> LedgerView {
    LedgerView { root: None, budget: None, usages: Map::empty(), ids: Set::empty() }
}

/// A budget is more than nothing and belongs to a root, and a root has a name.
pub open spec fn ledger_valid(l: LedgerView) -> bool {
    &&& l.budget matches Some(budget) ==> budget > 0 && l.root is Some
    &&& l.root matches Some(root) ==> !blank(root)
}

pub open spec fn internal(message: Seq<char>) -> ErrorView {
    error(ErrorCode::Internal, message)
}

/// The usage of an agent; zero where nothing was recorded.
pub open spec fn usage_of(usages: Map<Seq<char>, AgentTokenUsage>, agent: Seq<char>) -> AgentTokenUsage {
    if usages.dom().contains(agent) {
        usages[agent]
    } else {
        no_usage()
    }
}

/// A path of agents names each agent once, and none with a blank name.
pub open spec fn path_ok(path: Seq<Seq<char>>) -> bool {
    path.no_duplicates() && forall|i: int| 0 <= i < path.len() ==> !blank(#[trigger] path[i])
}

/// The ledger after a budget event, and the error that the event meets.
pub open spec fn configured(l: LedgerView, root: Seq<char>, budget: u64) -> (
    LedgerView,
    Option<ErrorView>,
) {
    if blank(root) || budget == 0 {
        (l, Some(internal("root agent id and token budget must be non-zero"@)))
    } else if l.root is None && l.budget is None {
        (LedgerView { root: Some(root), budget: Some(budget), ..l }, None)
    } else if l.root == Some(root) && l.budget == Some(budget) {
        (l, None)
    } else {
        (l, Some(internal("token budget configuration changed during a session"@)))
    }
}

/// `tokens` more of own use for `leaf`; refused where the count would overflow.
pub open spec fn own_added(
    usages: Map<Seq<char>, AgentTokenUsage>,
    leaf: Seq<char>,
    tokens: u64,
) -> (Map<Seq<char>, AgentTokenUsage>, bool) {
    let u = usage_of(usages, leaf);
    if u.own_tokens + tokens <= u64::MAX {
        (
            usages.insert(
                leaf,
                AgentTokenUsage { own_tokens: (u.own_tokens + tokens) as u64, ..u },
            ),
            true,
        )
    } else {
        (usages.insert(leaf, u), false)
    }
}

/// `tokens` more of subtree use for the first `k` agents of `path`, up to the
/// first whose count would overflow.
pub open spec fn subtree_added(
    usages: Map<Seq<char>, AgentTokenUsage>,
    path: Seq<Seq<char>>,
    k: nat,
    tokens: u64,
) -> (Map<Seq<char>, AgentTokenUsage>, bool)
    decreases k,
{
    if k == 0 {
        (usages, true)
    } else {
        let before = subtree_added(usages, path, (k - 1) as nat, tokens);
        let agent = path[k - 1];
        let u = usage_of(before.0, agent);
        if !before.1 {
            before
        } else if u.subtree_tokens + tokens <= u64::MAX {
            (
                before.0.insert(
                    agent,
                    AgentTokenUsage { subtree_tokens: (u.subtree_tokens + tokens) as u64, ..u },
                ),
                true,
            )
        } else {
            (before.0.insert(agent, u), false)
        }
    }
}

/// The ledger after a usage event, and the error that the event meets. What was
/// entered before the error stays.
pub open spec fn usage_recorded(
    l: LedgerView,
    id: Seq<char>,
    path: Seq<Seq<char>>,
    tokens: u64,
) -> (LedgerView, Option<ErrorView>) {
    if blank(id) || path.len() == 0 {
        (l, Some(internal("usage id and agent path must be non-empty"@)))
    } else if !path_ok(path) {
        (l, Some(internal("agent path contains blank or cyclic identities"@)))
    } else if l.ids.contains(id) {
        (l, Some(internal("duplicate token usage id "@ + id)))
    } else {
        let listed = LedgerView { ids: l.ids.insert(id), ..l };
        if l.root is Some && l.root != Some(path[0]) {
            (listed, Some(internal("token usage path does not start at configured root"@)))
        } else {
            let rooted = LedgerView { root: Some(path[0]), ..listed };
            let own = own_added(l.usages, path.last(), tokens);
            if !own.1 {
                (
                    LedgerView { usages: own.0, ..rooted },
                    Some(internal("token usage counter overflow"@)),
                )
            } else {
                let all = subtree_added(own.0, path, path.len(), tokens);
                (
                    LedgerView { usages: all.0, ..rooted },
                    if all.1 {
                        None
                    } else {
                        Some(internal("token usage counter overflow"@))
                    },
                )
            }
        }
    }
}

/// The ledger after any event.
pub open spec fn ledger_step(l: LedgerView, e: Event) -> (LedgerView, Option<ErrorView>) {
    match e {
        Event::TokenBudgetConfigured { root_agent_id, token_budget } => configured(
            l,
            root_agent_id@,
            token_budget,
        ),
        Event::TokenUsageRecorded { usage_id, agent_path, total_tokens, .. } => usage_recorded(
            l,
            usage_id@,
            views(agent_path@),
            total_tokens,
        ),
        _ => (l, None),
    }
}

/// The ledger of a stream, or the first error in it.
pub open spec fn ledger_of(log: Seq<Event>) -> Result<LedgerView, ErrorView>
    decreases log.len(),
{
    if log.len() == 0 {
        Ok(empty_ledger())
    } else {
        match ledger_of(log.drop_last()) {
            Err(e) => Err(e),
            Ok(l) => match ledger_step(l, log.last()) {
                (next, None) => Ok(next),
                (_, Some(e)) => Err(e),
            },
        }
    }
}

/// What is left of the root budget.
pub open spec fn remaining(l: LedgerView) -> Option<int> {
    match l.budget {
        None => None,
        Some(budget) => {
            let used: int = match l.root {
                Some(root) => usage_of(l.usages, root).subtree_tokens as int,
                None => 0,
            };
            Some(
                if used > budget {
                    0
                } else {
                    budget - used
                },
            )
        },
    }
}

/// The error of a session whose root budget is used up.
pub open spec fn budget_error(l: LedgerView) -> Option<ErrorView> {
    if remaining(l) == Some(0int) {
        Some(
            error(
                ErrorCode::ContextWindowExceeded,
                "root token budget exhausted before model sampling"@,
            ),
        )
    } else {
        None
    }
}

// ---------------------------------------------------------------------------
// The ledger
// ---------------------------------------------------------------------------

impl Default for BudgetLedger {
    fn default() -> (r: BudgetLedger)
        ensures
            r@ == empty_ledger(),
    {
        BudgetLedger {
            root_agent_id: None,
            token_budget: None,
            usages: NameMap::new(),
            usage_ids: NameSet::new(),
        }
    }
}

/// Whether `path` names each agent once, and none with a blank name.
pub fn distinct_and_named(path: &Vec<String>) -> (r: bool)
    ensures
        r == path_ok(views(path@)),
{
    let ghost all = views(path@);
    let mut seen = NameSet::new();
    let mut i: usize = 0;
    assert(views(path@.take(0)).to_set() =~= Set::<Seq<char>>::empty());
    while i < path.len()
        invariant
            i <= path@.len(),
            all == views(path@),
            forall|x: Seq<char>| seen@.contains(x) <==> exists|j: int|
                0 <= j < i && #[trigger] all[j] == x,
            forall|j: int| 0 <= j < i ==> !blank(#[trigger] all[j]),
            forall|j: int, k: int| 0 <= j < k < i ==> all[j] != all[k],
        decreases path@.len() - i,
    {
        assert(all[i as int] == path@[i as int]@);
        if is_blank(&path[i]) {
            return false;
        }
        let fresh = seen.insert(path[i].clone());
        if !fresh {
            proof {
                let j = choose|j: int| 0 <= j < i && #[trigger] all[j] == path@[i as int]@;
                assert(all[j] == all[i as int]);
            }
            return false;
        }
        assert forall|j: int| 0 <= j < i implies all[j] != all[i as int] by {}
        i = i + 1;
    }
    true
}

/// What an agent used; nothing where nothing was recorded.
fn usage_in(usages: &NameMap<AgentTokenUsage>, agent_id: &str) -> (r: AgentTokenUsage)
    ensures
        r == usage_of(usages@, agent_id@),
{
    match usages.get(agent_id) {
        Some(usage) => *usage,
        None => AgentTokenUsage { own_tokens: 0, subtree_tokens: 0 },
    }
}

/// Enters `tokens` for the last agent of a path and for each agent on it. False where a
/// count would overflow; what was entered before stays.
fn charge(usages: &mut NameMap<AgentTokenUsage>, path: &Vec<String>, tokens: u64) -> (r: bool)
    requires
        path@.len() > 0,
    ensures
        ({
            let all = views(path@);
            let own = own_added(old(usages)@, all.last(), tokens);
            (final(usages)@, r) == if own.1 {
                subtree_added(own.0, all, all.len(), tokens)
            } else {
                own
            }
        }),
{
    let ghost all = views(path@);
    let leaf: usize = path.len() - 1;
    assert(all.last() == path@[leaf as int]@);
    let own = usage_in(usages, &path[leaf]);
    match own.own_tokens.checked_add(tokens) {
        Some(sum) => {
            usages.insert(
                path[leaf].clone(),
                AgentTokenUsage { own_tokens: sum, subtree_tokens: own.subtree_tokens },
            );
        },
        None => {
            usages.insert(path[leaf].clone(), own);
            return false;
        },
    }
    let ghost charged = own_added(old(usages)@, all.last(), tokens).0;
    let mut i: usize = 0;
    while i < path.len()
        invariant
            i <= path@.len(),
            all == views(path@),
            subtree_added(charged, all, i as nat, tokens) == (usages@, true),
            own_added(old(usages)@, all.last(), tokens) == (charged, true),
        decreases path@.len() - i,
    {
        assert(all[i as int] == path@[i as int]@);
        let usage = usage_in(usages, &path[i]);
        match usage.subtree_tokens.checked_add(tokens) {
            Some(sum) => {
                usages.insert(
                    path[i].clone(),
                    AgentTokenUsage { own_tokens: usage.own_tokens, subtree_tokens: sum },
                );
            },
            None => {
                usages.insert(path[i].clone(), usage);
                proof {
                    lemma_subtree_stuck(charged, all, i + 1, tokens);
                }
                return false;
            },
        }
        i = i + 1;
    }
    true
}

impl BudgetLedger {
    /// The ledger of a session's records.
    pub fn replay(events: &[SequencedEvent]) -> (r: Result<BudgetLedger, ErrorEnvelope>)
        ensures
            match r {
                Ok(ledger) => ledger_of(recorded(events@)) == Ok::<LedgerView, ErrorView>(ledger@),
                Err(e) => ledger_of(recorded(events@)) == Err::<LedgerView, ErrorView>(e@),
            },
    {
        let mut ledger = BudgetLedger::default();
        let ghost log = recorded(events@);
        let mut i: usize = 0;
        assert(log.take(0) =~= Seq::<Event>::empty());
        while i < events.len()
            invariant
                i <= events@.len(),
                log == recorded(events@),
                ledger_of(log.take(i as int)) == Ok::<LedgerView, ErrorView>(ledger@),
            decreases events@.len() - i,
        {
            proof {
                assert(log.take(i + 1).drop_last() =~= log.take(i as int));
                assert(log.take(i + 1).last() == events@[i as int].event);
            }
            match ledger.apply(&events[i].event) {
                Ok(()) => {},
                Err(e) => {
                    proof {
                        lemma_ledger_error(log, i + 1);
                    }
                    return Err(e);
                },
            }
            i = i + 1;
        }
        assert(log.take(i as int) =~= log);
        Ok(ledger)
    }

    /// Enters one event.
    pub fn apply(&mut self, event: &Event) -> (r: Result<(), ErrorEnvelope>)
        ensures
            match r {
                Ok(()) => ledger_step(old(self)@, *event) == (final(self)@, None::<ErrorView>),
                Err(e) => ledger_step(old(self)@, *event) == (final(self)@, Some(e@)),
            },
            ledger_valid(old(self)@),
            ledger_valid(final(self)@),
            old(self)@.root is Some ==> final(self)@.root == old(self)@.root,
            old(self)@.budget is Some ==> {
                &&& final(self)@.budget == old(self)@.budget
                &&& *event matches Event::TokenBudgetConfigured { root_agent_id, token_budget }
                    ==> (r is Ok <==> old(self)@.root == Some(root_agent_id@)
                    && old(self)@.budget == Some(token_budget))
            },
    {
        proof {
            use_type_invariant(&*self);
            a_budget_stays(self@, *event);
        }
        match event {
            Event::TokenBudgetConfigured { root_agent_id, token_budget } => self.configure(
                root_agent_id,
                *token_budget,
            ),
            Event::TokenUsageRecorded { usage_id, agent_path, total_tokens, .. } => self.record(
                usage_id,
                agent_path,
                *total_tokens,
            ),
            _ => Ok(()),
        }
    }

    pub fn root_agent_id(&self) -> (r: Option<&String>)
        ensures
            match r {
                Some(root) => self@.root == Some(root@) && !blank(root@),
                None => self@.root is None,
            },
    {
        proof {
            use_type_invariant(self);
        }
        match &self.root_agent_id {
            Some(root) => Some(root),
            None => None,
        }
    }

    pub fn token_budget(&self) -> (r: Option<u64>)
        ensures
            r == self@.budget,
            r matches Some(budget) ==> budget > 0 && self@.root is Some,
    {
        proof {
            use_type_invariant(self);
        }
        self.token_budget
    }

    /// What is left of the root budget, where there is one.
    pub fn root_remaining(&self) -> (r: Option<u64>)
        ensures
            match r {
                Some(left) => remaining(self@) == Some(left as int),
                None => remaining(self@) is None,
            },
    {
        match self.token_budget {
            None => None,
            Some(budget) => {
                let used: u64 = match &self.root_agent_id {
                    Some(root) => self.agent_usage(root).subtree_tokens,
                    None => 0,
                };
                Some(budget.saturating_sub(used))
            },
        }
    }

    pub fn agent_usage(&self, agent_id: &str) -> (r: AgentTokenUsage)
        ensures
            r == usage_of(self@.usages, agent_id@),
    {
        usage_in(&self.usages, agent_id)
    }

    /// Refuses once the root budget is used up.
    pub fn ensure_can_sample(&self) -> (r: Result<(), ErrorEnvelope>)
        ensures
            match r {
                Ok(()) => budget_error(self@) is None,
                Err(e) => budget_error(self@) == Some(e@),
            },
    {
        match self.root_remaining() {
            Some(0) => Err(
                ErrorEnvelope::of(
                    ErrorCode::ContextWindowExceeded,
                    "root token budget exhausted before model sampling",
                ),
            ),
            _ => Ok(()),
        }
    }

    fn configure(&mut self, root_agent_id: &str, token_budget: u64) -> (r: Result<
        (),
        ErrorEnvelope,
    >)
        ensures
            match r {
                Ok(()) => configured(old(self)@, root_agent_id@, token_budget) == (
                    final(self)@,
                    None::<ErrorView>,
                ),
                Err(e) => configured(old(self)@, root_agent_id@, token_budget) == (
                    final(self)@,
                    Some(e@),
                ),
            },
    {
        if is_blank(root_agent_id) || token_budget == 0 {
            return Err(
                ErrorEnvelope::of(
                    ErrorCode::Internal,
                    "root agent id and token budget must be non-zero",
                ),
            );
        }
        proof {
            use_type_invariant(&*self);
        }
        let fresh = self.root_agent_id.is_none() && self.token_budget.is_none();
        if fresh {
            self.root_agent_id = Some(root_agent_id.to_owned());
            self.token_budget = Some(token_budget);
            return Ok(());
        }
        let same_root = match &self.root_agent_id {
            Some(root) => same_text(root, root_agent_id),
            None => false,
        };
        let same_budget = match self.token_budget {
            Some(budget) => budget == token_budget,
            None => false,
        };
        if same_root && same_budget {
            Ok(())
        } else {
            Err(
                ErrorEnvelope::of(
                    ErrorCode::Internal,
                    "token budget configuration changed during a session",
                ),
            )
        }
    }

    fn record(&mut self, usage_id: &str, agent_path: &Vec<String>, total_tokens: u64) -> (r: Result<
        (),
        ErrorEnvelope,
    >)
        ensures
            match r {
                Ok(()) => usage_recorded(old(self)@, usage_id@, views(agent_path@), total_tokens)
                    == (final(self)@, None::<ErrorView>),
                Err(e) => usage_recorded(old(self)@, usage_id@, views(agent_path@), total_tokens)
                    == (final(self)@, Some(e@)),
            },
    {
        let ghost path = views(agent_path@);
        if is_blank(usage_id) || agent_path.len() == 0 {
            return Err(
                ErrorEnvelope::of(ErrorCode::Internal, "usage id and agent path must be non-empty"),
            );
        }
        if !distinct_and_named(agent_path) {
            return Err(
                ErrorEnvelope::of(
                    ErrorCode::Internal,
                    "agent path contains blank or cyclic identities",
                ),
            );
        }
        proof {
            use_type_invariant(&*self);
        }
        let mut usage_ids = NameSet::new();
        std::mem::swap(&mut usage_ids, &mut self.usage_ids);
        let fresh = usage_ids.insert(usage_id.to_owned());
        self.usage_ids = usage_ids;
        if !fresh {
            assert(old(self)@.ids.insert(usage_id@) =~= old(self)@.ids);
            let message = concat2("duplicate token usage id ", usage_id);
            return Err(ErrorEnvelope::new(ErrorCode::Internal, message));
        }
        assert(path[0] == agent_path@[0]@);
        let foreign = match &self.root_agent_id {
            Some(root) => !same_text(root, &agent_path[0]),
            None => false,
        };
        if foreign {
            return Err(
                ErrorEnvelope::of(
                    ErrorCode::Internal,
                    "token usage path does not start at configured root",
                ),
            );
        }
        if self.root_agent_id.is_none() {
            self.root_agent_id = Some(agent_path[0].clone());
        }
        let mut usages: NameMap<AgentTokenUsage> = NameMap::new();
        std::mem::swap(&mut usages, &mut self.usages);
        let counted = charge(&mut usages, agent_path, total_tokens);
        self.usages = usages;
        if counted {
            Ok(())
        } else {
            Err(ErrorEnvelope::of(ErrorCode::Internal, "token usage counter overflow"))
        }
    }
}

proof fn lemma_ledger_error(log: Seq<Event>, k: int)
    requires
        0 <= k <= log.len(),
        ledger_of(log.take(k)) is Err,
    ensures
        ledger_of(log) == ledger_of(log.take(k)),
    decreases log.len() - k,
{
    if k < log.len() {
        assert(log.drop_last().take(k) =~= log.take(k));
        lemma_ledger_error(log.drop_last(), k);
    } else {
        assert(log.take(k) =~= log);
    }
}

proof fn lemma_subtree_stuck(
    usages: Map<Seq<char>, AgentTokenUsage>,
    path: Seq<Seq<char>>,
    k: int,
    tokens: u64,
)
    requires
        0 <= k <= path.len(),
        !subtree_added(usages, path, k as nat, tokens).1,
    ensures
        subtree_added(usages, path, path.len(), tokens) == subtree_added(
            usages,
            path,
            k as nat,
            tokens,
        ),
    decreases path.len() - k,
{
    if k < path.len() {
        assert(subtree_added(usages, path, (k + 1) as nat, tokens) == subtree_added(
            usages,
            path,
            k as nat,
            tokens,
        ));
        lemma_subtree_stuck(usages, path, k + 1, tokens);
    }
}

// ---------------------------------------------------------------------------
// Laws
// ---------------------------------------------------------------------------

/// The tokens of the usage events of `log` that `agent` consumed itself.
pub open spec fn own_total(log: Seq<Event>, agent: Seq<char>) -> nat
    decreases log.len(),
{
    if log.len() == 0 {
        0
    } else {
        own_total(log.drop_last(), agent) + match log.last() {
            Event::TokenUsageRecorded { agent_path, total_tokens, .. } => if agent_path@.len() > 0
                && views(agent_path@).last() == agent {
                total_tokens as nat
            } else {
                0
            },
            _ => 0,
        }
    }
}

/// The tokens of the usage events of `log` whose path leads through `agent`.
pub open spec fn subtree_total(log: Seq<Event>, agent: Seq<char>) -> nat
    decreases log.len(),
{
    if log.len() == 0 {
        0
    } else {
        subtree_total(log.drop_last(), agent) + match log.last() {
            Event::TokenUsageRecorded { agent_path, total_tokens, .. } => if views(
                agent_path@,
            ).contains(agent) {
                total_tokens as nat
            } else {
                0
            },
            _ => 0,
        }
    }
}

proof fn lemma_subtree_added_at(
    usages: Map<Seq<char>, AgentTokenUsage>,
    path: Seq<Seq<char>>,
    k: nat,
    tokens: u64,
    agent: Seq<char>,
)
    requires
        k <= path.len(),
        path.no_duplicates(),
        subtree_added(usages, path, k, tokens).1,
    ensures
        usage_of(subtree_added(usages, path, k, tokens).0, agent).own_tokens == usage_of(
            usages,
            agent,
        ).own_tokens,
        usage_of(subtree_added(usages, path, k, tokens).0, agent).subtree_tokens == usage_of(
            usages,
            agent,
        ).subtree_tokens + (if path.take(k as int).contains(agent) {
            tokens as int
        } else {
            0int
        }),
    decreases k,
{
    if k > 0 {
        lemma_subtree_added_at(usages, path, (k - 1) as nat, tokens, agent);
        let shorter = path.take(k - 1);
        let longer = path.take(k as int);
        assert(longer =~= shorter.push(path[k - 1]));
        assert(!shorter.contains(path[k - 1])) by {
            if shorter.contains(path[k - 1]) {
                let j = choose|j: int| 0 <= j < shorter.len() && shorter[j] == path[k - 1];
                assert(path[j] == path[k - 1]);
            }
        }
        if longer.contains(agent) && agent != path[k - 1] {
            let j = choose|j: int| 0 <= j < longer.len() && longer[j] == agent;
            assert(shorter[j] == agent);
        }
        if shorter.contains(agent) {
            let j = choose|j: int| 0 <= j < shorter.len() && shorter[j] == agent;
            assert(longer[j] == agent);
        }
        assert(longer[k - 1] == path[k - 1]);
    } else {
        assert(path.take(0).len() == 0);
    }
}

/// Usage rolls up: in the ledger of a stream, an agent's own tokens are those of
/// the usage events that end at it, and its subtree tokens those of the usage
/// events that lead through it.
pub proof fn usage_rolls_up(log: Seq<Event>, agent: Seq<char>)
    requires
        ledger_of(log) is Ok,
    ensures
        usage_of(ledger_of(log)->Ok_0.usages, agent).own_tokens == own_total(log, agent),
        usage_of(ledger_of(log)->Ok_0.usages, agent).subtree_tokens == subtree_total(log, agent),
    decreases log.len(),
{
    if log.len() > 0 {
        usage_rolls_up(log.drop_last(), agent);
        match log.last() {
            Event::TokenUsageRecorded { usage_id, agent_path, total_tokens, .. } => {
                let path = views(agent_path@);
                let before = ledger_of(log.drop_last())->Ok_0.usages;
                let own = own_added(before, path.last(), total_tokens);
                lemma_subtree_added_at(own.0, path, path.len(), total_tokens, agent);
                assert(path.take(path.len() as int) =~= path);
            },
            _ => {},
        }
    }
}

/// A budget, once set, stays: every longer stream that replays has the same
/// budget and root.
pub proof fn budget_is_fixed(log: Seq<Event>, k: int)
    requires
        0 <= k <= log.len(),
        ledger_of(log) is Ok,
        ledger_of(log.take(k)) is Ok,
        ledger_of(log.take(k))->Ok_0.budget is Some,
        ledger_of(log.take(k))->Ok_0.root is Some,
    ensures
        ledger_of(log)->Ok_0.budget == ledger_of(log.take(k))->Ok_0.budget,
        ledger_of(log)->Ok_0.root == ledger_of(log.take(k))->Ok_0.root,
    decreases log.len() - k,
{
    if k < log.len() {
        assert(log.drop_last().take(k) =~= log.take(k));
        budget_is_fixed(log.drop_last(), k);
    } else {
        assert(log.take(k) =~= log);
    }
}

/// Once a budget is set, it stays, with its root, whatever event comes; it may be set
/// again to the same, and to nothing else. A root stays too, once there is one.
pub proof fn a_budget_stays(l: LedgerView, e: Event)
    requires
        ledger_valid(l),
    ensures
        ledger_valid(ledger_step(l, e).0),
        l.root is Some ==> ledger_step(l, e).0.root == l.root,
        l.budget is Some ==> {
            &&& ledger_step(l, e).0.budget == l.budget
            &&& e matches Event::TokenBudgetConfigured { root_agent_id, token_budget } ==> (
            ledger_step(l, e).1 is None <==> l.root == Some(root_agent_id@) && l.budget == Some(
                token_budget,
            ))
        },
{
    if let Event::TokenUsageRecorded { usage_id, agent_path, total_tokens, .. } = e {
        let path = views(agent_path@);
        if path.len() > 0 && path_ok(path) {
            assert(!blank(path[0]));
        }
    }
}

/// The ledger of every stream is valid.
pub proof fn every_ledger_is_valid(log: Seq<Event>)
    ensures
        ledger_of(log) matches Ok(l) ==> ledger_valid(l),
    decreases log.len(),
{
    if log.len() > 0 {
        every_ledger_is_valid(log.drop_last());
        if let Ok(l) = ledger_of(log.drop_last()) {
            a_budget_stays(l, log.last());
        }
    }
}

/// What replays has replayed at every earlier point too.
pub proof fn replay_holds_of_every_prefix(log: Seq<Event>, k: int)
    requires
        0 <= k <= log.len(),
        ledger_of(log) is Ok,
    ensures
        ledger_of(log.take(k)) is Ok,
{
    if ledger_of(log.take(k)) is Err {
        lemma_ledger_error(log, k);
    }
}

/// Use only grows: the remaining budget of a longer stream is never more.
pub proof fn remaining_never_grows(log: Seq<Event>, e: Event)
    requires
        ledger_of(log.push(e)) is Ok,
        ledger_of(log) is Ok,
        remaining(ledger_of(log)->Ok_0) is Some,
        ledger_of(log)->Ok_0.root is Some,
    ensures
        remaining(ledger_of(log.push(e))->Ok_0) is Some,
        remaining(ledger_of(log.push(e))->Ok_0)->0 <= remaining(ledger_of(log)->Ok_0)->0,
{
    let longer = log.push(e);
    assert(longer.drop_last() =~= log);
    assert(longer.take(log.len() as int) =~= log);
    budget_is_fixed(longer, log.len() as int);
    let root = ledger_of(log)->Ok_0.root->0;
    usage_rolls_up(log, root);
    usage_rolls_up(longer, root);
}

/// What is left of a budget is the budget less all that was used below its root, or nothing
/// where more was used. Without a budget nothing is said. Sampling is refused exactly where
/// nothing is left.
pub proof fn what_is_left_of_a_budget(log: Seq<Event>, l: LedgerView)
    requires
        ledger_of(log) == Ok::<LedgerView, ErrorView>(l),
    ensures
        l.budget is None ==> remaining(l) is None && budget_error(l) is None,
        l.budget is Some && l.root is Some ==> {
            let used = subtree_total(log, l.root->0);
            let budget = l.budget->0;
            &&& remaining(l) is Some
            &&& used <= budget ==> remaining(l)->0 + used == budget
            &&& used > budget ==> remaining(l)->0 == 0
            &&& budget_error(l) is Some <==> used >= budget
            &&& budget_error(l) is Some ==> budget_error(l)->0.code
                == ErrorCode::ContextWindowExceeded
        },
{
    if l.root is Some {
        usage_rolls_up(log, l.root->0);
    }
}

/// A budget is taken where it names an agent and is not nought, and where it is the first one
/// or the same again; otherwise nothing changes.
pub proof fn when_a_budget_is_taken(l: LedgerView, root: Seq<char>, budget: u64)
    ensures
        configured(l, root, budget).1 is None <==> {
            &&& !blank(root) && budget > 0
            &&& (l.root is None && l.budget is None) || (l.root == Some(root) && l.budget == Some(
                budget,
            ))
        },
        configured(l, root, budget).1 is None ==> {
            &&& configured(l, root, budget).0.root == Some(root)
            &&& configured(l, root, budget).0.budget == Some(budget)
            &&& configured(l, root, budget).0.usages == l.usages
            &&& configured(l, root, budget).0.ids == l.ids
        },
        configured(l, root, budget).1 is Some ==> configured(l, root, budget).0 == l,
{
}

/// Use is counted where it has an id that is not blank and that no earlier use has, and a path
/// that begins at the root and holds no blank name and no name twice. Then the last agent of
/// the path has so many tokens more of its own, and each agent of the path so many more in all;
/// nothing else changes.
pub proof fn when_use_is_counted(
    l: LedgerView,
    id: Seq<char>,
    path: Seq<Seq<char>>,
    tokens: u64,
    agent: Seq<char>,
)
    ensures
        usage_recorded(l, id, path, tokens).1 is None ==> {
            let after = usage_recorded(l, id, path, tokens).0;
            &&& !blank(id) && !l.ids.contains(id)
            &&& path.len() > 0 && path.no_duplicates()
            &&& forall|i: int| 0 <= i < path.len() ==> !blank(#[trigger] path[i])
            &&& l.root is None || l.root == Some(path[0])
            &&& after.root == Some(path[0])
            &&& after.budget == l.budget
            &&& after.ids == l.ids.insert(id)
            &&& usage_of(after.usages, agent).own_tokens == usage_of(l.usages, agent).own_tokens
                + if agent == path.last() {
                tokens as int
            } else {
                0
            }
            &&& usage_of(after.usages, agent).subtree_tokens == usage_of(
                l.usages,
                agent,
            ).subtree_tokens + if path.contains(agent) {
                tokens as int
            } else {
                0
            }
        },
        usage_recorded(l, id, path, tokens).1 is Some ==> usage_recorded(
            l,
            id,
            path,
            tokens,
        ).1->0.code == ErrorCode::Internal,
{
    if usage_recorded(l, id, path, tokens).1 is None {
        let own = own_added(l.usages, path.last(), tokens);
        lemma_added_along(own.0, path, path.len(), tokens, agent);
        assert(path.take(path.len() as int) =~= path);
    }
}

proof fn lemma_added_along(
    usages: Map<Seq<char>, AgentTokenUsage>,
    path: Seq<Seq<char>>,
    k: nat,
    tokens: u64,
    agent: Seq<char>,
)
    requires
        k <= path.len(),
        path.no_duplicates(),
        subtree_added(usages, path, k, tokens).1,
    ensures
        ({
            let after = subtree_added(usages, path, k, tokens).0;
            &&& usage_of(after, agent).own_tokens == usage_of(usages, agent).own_tokens
            &&& usage_of(after, agent).subtree_tokens == usage_of(usages, agent).subtree_tokens
                + if path.take(k as int).contains(agent) {
                tokens as int
            } else {
                0
            }
        }),
    decreases k,
{
    if k > 0 {
        lemma_added_along(usages, path, (k - 1) as nat, tokens, agent);
        let before = path.take(k - 1);
        let all = path.take(k as int);
        if before.contains(agent) {
            let i = choose|i: int| 0 <= i < before.len() && before[i] == agent;
            assert(all[i] == agent);
            assert(path[i] == agent);
            assert(path[k - 1] != agent);
        } else if path[k - 1] == agent {
            assert(all[k - 1] == agent);
        } else if all.contains(agent) {
            let i = choose|i: int| 0 <= i < all.len() && all[i] == agent;
            assert(before[i] == agent);
        }
    }
}

/// Events that are no budget and no use leave the ledger as it is.
pub proof fn other_events_leave_the_ledger(log: Seq<Event>, e: Event)
    requires
        !(e is TokenBudgetConfigured) && !(e is TokenUsageRecorded),
    ensures
        ledger_of(log.push(e)) == ledger_of(log),
        ledger_of(Seq::empty()) matches Ok(l) && l.root is None && l.budget is None && l.usages
            == Map::<Seq<char>, AgentTokenUsage>::empty() && l.ids == Set::<Seq<char>>::empty(),
{
    assert(log.push(e).drop_last() =~= log);
}

/// A path is fit where no agent comes twice in it and none is blank.
pub proof fn which_paths_are_fit(path: Seq<Seq<char>>, i: int, j: int)
    ensures
        path_ok(path) && 0 <= i < path.len() ==> !blank(path[i]),
        path_ok(path) && 0 <= i < j < path.len() ==> path[i] != path[j],
        0 <= i < path.len() && blank(path[i]) ==> !path_ok(path),
        0 <= i < j < path.len() && path[i] == path[j] ==> !path_ok(path),
        path_ok(Seq::empty()),
{
}

} // verus!
