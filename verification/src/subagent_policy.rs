//! What a subagent may use: limits, models and tools. Every check refuses unless
//! everything is allowed.
use vstd::prelude::*;
use crate::names::NameSet;
use crate::protocol::{error, ErrorCode, ErrorEnvelope, ErrorView};
use crate::text::{blank, concat3, is_blank, views};

verus! {

broadcast use vstd::string::group_string_axioms;

pub open spec fn args_invalid(message: Seq<char>) -> ErrorView {
    error(ErrorCode::ToolArgsInvalid, message)
}

pub open spec fn denied(message: Seq<char>) -> ErrorView {
    error(ErrorCode::SandboxDenied, message)
}

// ---------------------------------------------------------------------------
// Lists of names
// ---------------------------------------------------------------------------

/// No name is blank and none occurs twice.
pub open spec fn names_ok(names: Seq<Seq<char>>) -> bool {
    names.no_duplicates() && forall|i: int| 0 <= i < names.len() ==> !blank(#[trigger] names[i])
}

pub open spec fn no_blank(names: Set<Seq<char>>) -> bool {
    forall|x: Seq<char>| #[trigger] names.contains(x) ==> !blank(x)
}

pub open spec fn names_error(what: Seq<char>) -> ErrorView {
    args_invalid("subagent "@ + what + " names must be non-empty and unique"@)
}

/// The set of a list of names; refused where one is blank or occurs twice.
pub fn collect_names(names: Vec<String>, what: &str) -> (r: Result<NameSet, ErrorEnvelope>)
    ensures
        match r {
            Ok(set) => names_ok(views(names@)) && set@ == views(names@).to_set() && no_blank(set@),
            Err(e) => !names_ok(views(names@)) && e@ == names_error(what@),
        },
{
    let ghost all = views(names@);
    let mut set = NameSet::new();
    let mut i: usize = 0;
    assert(all.take(0).to_set() =~= Set::<Seq<char>>::empty());
    while i < names.len()
        invariant
            i <= names@.len(),
            all == views(names@),
            set@ == all.take(i as int).to_set(),
            all.take(i as int).no_duplicates(),
            forall|j: int| 0 <= j < i ==> !blank(#[trigger] all[j]),
        decreases names@.len() - i,
    {
        let ghost head = all.take(i as int);
        let ghost next = all.take(i + 1);
        proof {
            assert(all[i as int] == names@[i as int]@);
            assert(next =~= head.push(all[i as int]));
        }
        if is_blank(&names[i]) {
            return Err(
                ErrorEnvelope::new(
                    ErrorCode::ToolArgsInvalid,
                    concat3("subagent ", what, " names must be non-empty and unique"),
                ),
            );
        }
        let fresh = set.insert(names[i].clone());
        if !fresh {
            proof {
                let k = choose|k: int| 0 <= k < head.len() && head[k] == all[i as int];
                assert(all[k] == all[i as int]);
                assert(!all.no_duplicates());
            }
            return Err(
                ErrorEnvelope::new(
                    ErrorCode::ToolArgsInvalid,
                    concat3("subagent ", what, " names must be non-empty and unique"),
                ),
            );
        }
        proof {
            assert(set@ =~= next.to_set()) by {
                assert forall|x: Seq<char>| set@.contains(x) <==> next.to_set().contains(x) by {
                    if head.contains(x) {
                        let k = choose|k: int| 0 <= k < head.len() && head[k] == x;
                        assert(next[k] == x);
                    }
                    if next.contains(x) {
                        let k = choose|k: int| 0 <= k < next.len() && next[k] == x;
                        if k < i {
                            assert(head[k] == x);
                        }
                    }
                    assert(next[i as int] == all[i as int]);
                }
            }
            assert forall|a: int, b: int|
                0 <= a < next.len() && 0 <= b < next.len() && a != b implies next[a]
                != next[b] by {
                if a < i && b < i {
                    assert(head[a] == next[a] && head[b] == next[b]);
                } else if a < i {
                    assert(head[a] == next[a]);
                    assert(head.contains(head[a]));
                } else if b < i {
                    assert(head[b] == next[b]);
                    assert(head.contains(head[b]));
                }
            }
        }
        i = i + 1;
    }
    proof {
        assert(all.take(i as int) =~= all);
        assert forall|x: Seq<char>| #[trigger] set@.contains(x) implies !blank(x) by {
            let k = choose|k: int| 0 <= k < all.len() && all[k] == x;
            assert(!blank(all[k]));
        }
    }
    Ok(set)
}

// ---------------------------------------------------------------------------
// Policies
// ---------------------------------------------------------------------------

#[derive(Debug, PartialEq, Eq)]
pub struct SubagentPolicy {
    max_depth: u32,
    max_concurrency: u32,
    max_turns: u32,
    max_tokens: u64,
    allowed_models: NameSet,
    allowed_tools: NameSet,
    denied_tools: NameSet,
}

#[verifier::ext_equal]
pub struct PolicyView {
    pub max_depth: u32,
    pub max_concurrency: u32,
    pub max_turns: u32,
    pub max_tokens: u64,
    pub models: Set<Seq<char>>,
    pub tools: Set<Seq<char>>,
    pub denied: Set<Seq<char>>,
}

impl View for SubagentPolicy {
    type V = PolicyView;

    closed spec fn view(&self) -> PolicyView {
        PolicyView {
            max_depth: self.max_depth,
            max_concurrency: self.max_concurrency,
            max_turns: self.max_turns,
            max_tokens: self.max_tokens,
            models: self.allowed_models@,
            tools: self.allowed_tools@,
            denied: self.denied_tools@,
        }
    }
}

impl Clone for SubagentPolicy {
    fn clone(&self) -> (r: SubagentPolicy)
        ensures
            r@ == self@,
    {
        proof {
            use_type_invariant(self);
        }
        SubagentPolicy {
            max_depth: self.max_depth,
            max_concurrency: self.max_concurrency,
            max_turns: self.max_turns,
            max_tokens: self.max_tokens,
            allowed_models: self.allowed_models.clone(),
            allowed_tools: self.allowed_tools.clone(),
            denied_tools: self.denied_tools.clone(),
        }
    }
}

/// Every limit is positive and no name is blank.
pub open spec fn policy_valid(p: PolicyView) -> bool {
    &&& p.max_depth > 0
    &&& p.max_concurrency > 0
    &&& p.max_turns > 0
    &&& p.max_tokens > 0
    &&& no_blank(p.models)
    &&& no_blank(p.tools)
    &&& no_blank(p.denied)
}

/// What is wrong with the parts of a policy.
pub open spec fn policy_parts_error(
    max_depth: u32,
    max_concurrency: u32,
    max_turns: u32,
    max_tokens: u64,
    models: Seq<Seq<char>>,
    tools: Seq<Seq<char>>,
    denied_tools: Seq<Seq<char>>,
) -> Option<ErrorView> {
    if max_depth == 0 || max_concurrency == 0 || max_turns == 0 || max_tokens == 0 {
        Some(args_invalid("subagent policy limits must be greater than zero"@))
    } else if !names_ok(models) {
        Some(names_error("model"@))
    } else if !names_ok(tools) {
        Some(names_error("tool"@))
    } else if !names_ok(denied_tools) {
        Some(names_error("denied tool"@))
    } else {
        None
    }
}

/// `child` allows nothing that `parent` does not allow.
pub open spec fn within(child: PolicyView, parent: PolicyView) -> bool {
    &&& child.max_depth <= parent.max_depth
    &&& child.max_concurrency <= parent.max_concurrency
    &&& child.max_turns <= parent.max_turns
    &&& child.max_tokens <= parent.max_tokens
    &&& child.models.subset_of(parent.models)
    &&& child.tools.subset_of(parent.tools)
    &&& parent.denied.subset_of(child.denied)
}

impl SubagentPolicy {
    #[verifier::type_invariant]
    spec fn well_formed(&self) -> bool {
        policy_valid(self@)
    }

    pub fn new(
        max_depth: u32,
        max_concurrency: u32,
        max_turns: u32,
        max_tokens: u64,
        allowed_models: Vec<String>,
        allowed_tools: Vec<String>,
        denied_tools: Vec<String>,
    ) -> (r: Result<SubagentPolicy, ErrorEnvelope>)
        ensures
            match r {
                Ok(p) => {
                    &&& policy_parts_error(
                        max_depth,
                        max_concurrency,
                        max_turns,
                        max_tokens,
                        views(allowed_models@),
                        views(allowed_tools@),
                        views(denied_tools@),
                    ) is None
                    &&& p@ == (PolicyView {
                        max_depth,
                        max_concurrency,
                        max_turns,
                        max_tokens,
                        models: views(allowed_models@).to_set(),
                        tools: views(allowed_tools@).to_set(),
                        denied: views(denied_tools@).to_set(),
                    })
                },
                Err(e) => policy_parts_error(
                    max_depth,
                    max_concurrency,
                    max_turns,
                    max_tokens,
                    views(allowed_models@),
                    views(allowed_tools@),
                    views(denied_tools@),
                ) == Some(e@),
            },
    {
        if max_depth == 0 || max_concurrency == 0 || max_turns == 0 || max_tokens == 0 {
            return Err(
                ErrorEnvelope::of(
                    ErrorCode::ToolArgsInvalid,
                    "subagent policy limits must be greater than zero",
                ),
            );
        }
        let models = match collect_names(allowed_models, "model") {
            Ok(set) => set,
            Err(e) => {
                return Err(e);
            },
        };
        let tools = match collect_names(allowed_tools, "tool") {
            Ok(set) => set,
            Err(e) => {
                return Err(e);
            },
        };
        let denied = match collect_names(denied_tools, "denied tool") {
            Ok(set) => set,
            Err(e) => {
                return Err(e);
            },
        };
        Ok(
            SubagentPolicy {
                max_depth,
                max_concurrency,
                max_turns,
                max_tokens,
                allowed_models: models,
                allowed_tools: tools,
                denied_tools: denied,
            },
        )
    }

    /// A policy from sets of names that are checked already.
    pub(crate) fn from_sets(
        max_depth: u32,
        max_concurrency: u32,
        max_turns: u32,
        max_tokens: u64,
        allowed_models: NameSet,
        allowed_tools: NameSet,
        denied_tools: NameSet,
    ) -> (r: SubagentPolicy)
        requires
            max_depth > 0,
            max_concurrency > 0,
            max_turns > 0,
            max_tokens > 0,
            no_blank(allowed_models@),
            no_blank(allowed_tools@),
            no_blank(denied_tools@),
        ensures
            r@ == (PolicyView {
                max_depth,
                max_concurrency,
                max_turns,
                max_tokens,
                models: allowed_models@,
                tools: allowed_tools@,
                denied: denied_tools@,
            }),
    {
        SubagentPolicy {
            max_depth,
            max_concurrency,
            max_turns,
            max_tokens,
            allowed_models,
            allowed_tools,
            denied_tools,
        }
    }

    pub fn local_default() -> (r: SubagentPolicy)
        ensures
            r@ == local_policy(),
    {
        SubagentPolicy {
            max_depth: 1,
            max_concurrency: 1,
            max_turns: 8,
            max_tokens: 8_192,
            allowed_models: NameSet::new(),
            allowed_tools: NameSet::new(),
            denied_tools: NameSet::new(),
        }
    }

    pub fn max_depth(&self) -> (r: u32)
        ensures
            r == self@.max_depth,
    {
        self.max_depth
    }

    pub fn max_concurrency(&self) -> (r: u32)
        ensures
            r == self@.max_concurrency,
            r > 0,
    {
        proof {
            use_type_invariant(self);
        }
        self.max_concurrency
    }

    pub fn max_turns(&self) -> (r: u32)
        ensures
            r == self@.max_turns,
    {
        self.max_turns
    }

    pub fn max_tokens(&self) -> (r: u64)
        ensures
            r == self@.max_tokens,
    {
        self.max_tokens
    }

    pub fn allowed_models(&self) -> (r: &NameSet)
        ensures
            r@ == self@.models,
    {
        &self.allowed_models
    }

    pub fn allowed_tools(&self) -> (r: &NameSet)
        ensures
            r@ == self@.tools,
    {
        &self.allowed_tools
    }

    pub fn denied_tools(&self) -> (r: &NameSet)
        ensures
            r@ == self@.denied,
            no_blank(r@),
    {
        proof {
            use_type_invariant(self);
        }
        &self.denied_tools
    }

    /// Whether this policy allows nothing that `parent` does not allow.
    pub fn is_within(&self, parent: &SubagentPolicy) -> (r: bool)
        ensures
            r == within(self@, parent@),
    {
        self.max_depth <= parent.max_depth && self.max_concurrency <= parent.max_concurrency
            && self.max_turns <= parent.max_turns && self.max_tokens <= parent.max_tokens
            && self.allowed_models.is_subset(&parent.allowed_models)
            && self.allowed_tools.is_subset(&parent.allowed_tools)
            && parent.denied_tools.is_subset(&self.denied_tools)
    }
}

pub open spec fn local_policy() -> PolicyView {
    PolicyView {
        max_depth: 1,
        max_concurrency: 1,
        max_turns: 8,
        max_tokens: 8_192,
        models: Set::empty(),
        tools: Set::empty(),
        denied: Set::empty(),
    }
}

// ---------------------------------------------------------------------------
// Requests
// ---------------------------------------------------------------------------

#[derive(Debug, Clone, PartialEq, Eq)]
pub struct SubagentRequest {
    depth: u32,
    active_children: u32,
    turn_budget: u32,
    token_budget: u64,
    model: Option<String>,
    tools: NameSet,
}

#[verifier::ext_equal]
pub struct RequestView {
    pub depth: u32,
    pub active_children: u32,
    pub turn_budget: u32,
    pub token_budget: u64,
    pub model: Option<Seq<char>>,
    pub tools: Set<Seq<char>>,
}

pub open spec fn text_view(t: Option<String>) -> Option<Seq<char>> {
    match t {
        Some(s) => Some(s@),
        None => None,
    }
}

impl View for SubagentRequest {
    type V = RequestView;

    closed spec fn view(&self) -> RequestView {
        RequestView {
            depth: self.depth,
            active_children: self.active_children,
            turn_budget: self.turn_budget,
            token_budget: self.token_budget,
            model: text_view(self.model),
            tools: self.tools@,
        }
    }
}

pub open spec fn local_request() -> RequestView {
    RequestView {
        depth: 1,
        active_children: 0,
        turn_budget: 8,
        token_budget: 8_192,
        model: None,
        tools: Set::empty(),
    }
}

/// What is wrong with the parts of a request.
pub open spec fn request_parts_error(
    depth: u32,
    turn_budget: u32,
    token_budget: u64,
    model: Option<Seq<char>>,
    tools: Seq<Seq<char>>,
) -> Option<ErrorView> {
    if depth == 0 || turn_budget == 0 || token_budget == 0 {
        Some(args_invalid("subagent request budgets must be greater than zero"@))
    } else if model is Some && blank(model->0) {
        Some(args_invalid("subagent model must not be blank"@))
    } else if !names_ok(tools) {
        Some(names_error("tool"@))
    } else {
        None
    }
}

impl SubagentRequest {
    pub fn new(
        depth: u32,
        active_children: u32,
        turn_budget: u32,
        token_budget: u64,
        model: Option<String>,
        tools: Vec<String>,
    ) -> (r: Result<SubagentRequest, ErrorEnvelope>)
        ensures
            match r {
                Ok(q) => {
                    &&& request_parts_error(
                        depth,
                        turn_budget,
                        token_budget,
                        text_view(model),
                        views(tools@),
                    ) is None
                    &&& q@ == (RequestView {
                        depth,
                        active_children,
                        turn_budget,
                        token_budget,
                        model: text_view(model),
                        tools: views(tools@).to_set(),
                    })
                },
                Err(e) => request_parts_error(
                    depth,
                    turn_budget,
                    token_budget,
                    text_view(model),
                    views(tools@),
                ) == Some(e@),
            },
    {
        if depth == 0 || turn_budget == 0 || token_budget == 0 {
            return Err(
                ErrorEnvelope::of(
                    ErrorCode::ToolArgsInvalid,
                    "subagent request budgets must be greater than zero",
                ),
            );
        }
        let unnamed = match &model {
            Some(name) => is_blank(name),
            None => false,
        };
        if unnamed {
            return Err(
                ErrorEnvelope::of(ErrorCode::ToolArgsInvalid, "subagent model must not be blank"),
            );
        }
        match collect_names(tools, "tool") {
            Ok(set) => Ok(
                SubagentRequest {
                    depth,
                    active_children,
                    turn_budget,
                    token_budget,
                    model,
                    tools: set,
                },
            ),
            Err(e) => Err(e),
        }
    }

    /// A request whose parts are checked already.
    pub(crate) fn from_parts(
        depth: u32,
        active_children: u32,
        turn_budget: u32,
        token_budget: u64,
        model: Option<String>,
        tools: NameSet,
    ) -> (r: SubagentRequest)
        ensures
            r@ == (RequestView {
                depth,
                active_children,
                turn_budget,
                token_budget,
                model: text_view(model),
                tools: tools@,
            }),
    {
        SubagentRequest { depth, active_children, turn_budget, token_budget, model, tools }
    }

    pub fn local_default() -> (r: SubagentRequest)
        ensures
            r@ == local_request(),
            r.tools_listed() == Seq::<Seq<char>>::empty(),
    {
        SubagentRequest {
            depth: 1,
            active_children: 0,
            turn_budget: 8,
            token_budget: 8_192,
            model: None,
            tools: NameSet::new(),
        }
    }

    pub fn depth(&self) -> (r: u32)
        ensures
            r == self@.depth,
    {
        self.depth
    }

    pub fn active_children(&self) -> (r: u32)
        ensures
            r == self@.active_children,
    {
        self.active_children
    }

    pub fn turn_budget(&self) -> (r: u32)
        ensures
            r == self@.turn_budget,
    {
        self.turn_budget
    }

    pub fn token_budget(&self) -> (r: u64)
        ensures
            r == self@.token_budget,
    {
        self.token_budget
    }

    pub fn model(&self) -> (r: Option<&String>)
        ensures
            r is Some <==> self@.model is Some,
            r matches Some(name) ==> self@.model == Some(name@),
    {
        match &self.model {
            Some(name) => Some(name),
            None => None,
        }
    }

    pub fn tools(&self) -> (r: &NameSet)
        ensures
            r@ == self@.tools,
            r.listed() == self.tools_listed(),
    {
        &self.tools
    }

    /// The tools in dictionary order.
    pub closed spec fn tools_listed(&self) -> Seq<Seq<char>> {
        self.tools.listed()
    }
}

// ---------------------------------------------------------------------------
// Checking a delegation
// ---------------------------------------------------------------------------

/// The first reason to refuse a delegation.
pub open spec fn delegation_error(
    parent: PolicyView,
    child: PolicyView,
    request: RequestView,
) -> Option<ErrorView> {
    if !within(child, parent) {
        Some(denied("child subagent policy expands its parent policy"@))
    } else if request.depth > child.max_depth {
        Some(denied("subagent depth limit exceeded"@))
    } else if request.active_children >= child.max_concurrency {
        Some(denied("subagent concurrency limit exceeded"@))
    } else if request.turn_budget > child.max_turns {
        Some(error(ErrorCode::ContextWindowExceeded, "subagent turn budget exceeds policy"@))
    } else if request.token_budget > child.max_tokens {
        Some(error(ErrorCode::ContextWindowExceeded, "subagent token budget exceeds policy"@))
    } else if request.model is Some && !child.models.contains(request.model->0) {
        Some(denied("subagent model is not allowed"@))
    } else if !request.tools.subset_of(child.tools) || !request.tools.disjoint(child.denied) {
        Some(denied("subagent tool selection is not allowed"@))
    } else {
        None
    }
}

/// Refuses a child's policy that allows more than its parent's.
pub fn validate_child_policy(parent: &SubagentPolicy, child: &SubagentPolicy) -> (r: Result<
    (),
    ErrorEnvelope,
>)
    ensures
        r is Ok <==> within(child@, parent@),
        r matches Err(e) ==> e@ == denied("child subagent policy expands its parent policy"@),
{
    if child.is_within(parent) {
        Ok(())
    } else {
        Err(
            ErrorEnvelope::of(
                ErrorCode::SandboxDenied,
                "child subagent policy expands its parent policy",
            ),
        )
    }
}

/// Checks a child's policy against its parent's, and a request against the child's.
pub fn validate_delegation(
    parent: &SubagentPolicy,
    child: &SubagentPolicy,
    request: &SubagentRequest,
) -> (r: Result<(), ErrorEnvelope>)
    ensures
        match r {
            Ok(()) => delegation_error(parent@, child@, request@) is None,
            Err(e) => delegation_error(parent@, child@, request@) == Some(e@),
        },
{
    match validate_child_policy(parent, child) {
        Ok(()) => {},
        Err(e) => {
            return Err(e);
        },
    }
    if request.depth > child.max_depth {
        return Err(ErrorEnvelope::of(ErrorCode::SandboxDenied, "subagent depth limit exceeded"));
    }
    if request.active_children >= child.max_concurrency {
        return Err(
            ErrorEnvelope::of(ErrorCode::SandboxDenied, "subagent concurrency limit exceeded"),
        );
    }
    if request.turn_budget > child.max_turns {
        return Err(
            ErrorEnvelope::of(
                ErrorCode::ContextWindowExceeded,
                "subagent turn budget exceeds policy",
            ),
        );
    }
    if request.token_budget > child.max_tokens {
        return Err(
            ErrorEnvelope::of(
                ErrorCode::ContextWindowExceeded,
                "subagent token budget exceeds policy",
            ),
        );
    }
    let foreign_model = match &request.model {
        Some(model) => !child.allowed_models.contains(model),
        None => false,
    };
    if foreign_model {
        return Err(ErrorEnvelope::of(ErrorCode::SandboxDenied, "subagent model is not allowed"));
    }
    if !request.tools.is_subset(&child.allowed_tools) || !request.tools.is_disjoint(
        &child.denied_tools,
    ) {
        return Err(
            ErrorEnvelope::of(ErrorCode::SandboxDenied, "subagent tool selection is not allowed"),
        );
    }
    Ok(())
}

// ---------------------------------------------------------------------------
// Laws
// ---------------------------------------------------------------------------

/// A chain of policies only narrows: a grandchild within its parent is within its
/// grandparent.
pub proof fn narrowing_is_transitive(a: PolicyView, b: PolicyView, c: PolicyView)
    requires
        within(a, b),
        within(b, c),
    ensures
        within(a, c),
{
}

/// Every policy is within itself.
pub proof fn narrowing_is_reflexive(p: PolicyView)
    ensures
        within(p, p),
{
}

/// What an accepted delegation uses, the parent allows too: its depth, its budgets,
/// its model and every tool, and no tool that the parent denies.
pub proof fn accepted_delegation_stays_in_parent(
    parent: PolicyView,
    child: PolicyView,
    request: RequestView,
)
    requires
        delegation_error(parent, child, request) is None,
    ensures
        request.depth <= parent.max_depth,
        request.active_children < parent.max_concurrency,
        request.turn_budget <= parent.max_turns,
        request.token_budget <= parent.max_tokens,
        request.model is Some ==> parent.models.contains(request.model->0),
        request.tools.subset_of(parent.tools),
        request.tools.disjoint(parent.denied),
{
    assert forall|t: Seq<char>| request.tools.contains(t) implies !parent.denied.contains(t) by {
        assert(!child.denied.contains(t));
    }
}

/// A delegation is allowed exactly where the child has no limit above its parent's, no model
/// or tool that its parent has not, every denial of its parent, and where the request keeps to
/// the limits, the models and the tools of the child.
pub proof fn what_may_be_delegated(
    parent: PolicyView,
    child: PolicyView,
    request: RequestView,
)
    ensures
        delegation_error(parent, child, request) is None <==> {
            &&& child.max_depth <= parent.max_depth
            &&& child.max_concurrency <= parent.max_concurrency
            &&& child.max_turns <= parent.max_turns
            &&& child.max_tokens <= parent.max_tokens
            &&& forall|m: Seq<char>| child.models.contains(m) ==> parent.models.contains(m)
            &&& forall|t: Seq<char>| child.tools.contains(t) ==> parent.tools.contains(t)
            &&& forall|t: Seq<char>| parent.denied.contains(t) ==> child.denied.contains(t)
            &&& request.depth <= child.max_depth
            &&& request.active_children < child.max_concurrency
            &&& request.turn_budget <= child.max_turns
            &&& request.token_budget <= child.max_tokens
            &&& request.model is Some ==> child.models.contains(request.model->0)
            &&& forall|t: Seq<char>|
                request.tools.contains(t) ==> #[trigger] child.tools.contains(t)
                    && !child.denied.contains(t)
        },
        delegation_error(parent, child, request) is Some ==> {
            let code = delegation_error(parent, child, request)->0.code;
            ||| code == ErrorCode::SandboxDenied
            ||| code == ErrorCode::ContextWindowExceeded
        },
{
    if request.tools.subset_of(child.tools) && request.tools.disjoint(child.denied) {
        assert forall|t: Seq<char>| request.tools.contains(t) implies #[trigger] child.tools.contains(
            t,
        ) && !child.denied.contains(t) by {}
    }
    if forall|t: Seq<char>|
        request.tools.contains(t) ==> #[trigger] child.tools.contains(t) && !child.denied.contains(
            t,
        ) {
        assert forall|t: Seq<char>| request.tools.contains(t) implies child.tools.contains(t)
            && !child.denied.contains(t) by {
            let there = child.tools.contains(t);
        }
        assert(request.tools.subset_of(child.tools));
        assert(request.tools.disjoint(child.denied));
    }
}

/// A budget beyond the policy's is told apart from anything else that the policy refuses.
pub proof fn budgets_are_told_apart(parent: PolicyView, child: PolicyView, request: RequestView)
    requires
        delegation_error(parent, child, request) is Some,
        within(child, parent),
        request.depth <= child.max_depth,
        request.active_children < child.max_concurrency,
    ensures
        delegation_error(parent, child, request)->0.code == ErrorCode::ContextWindowExceeded
            <==> request.turn_budget > child.max_turns || request.token_budget > child.max_tokens,
{
}

/// The parts of a policy are refused where a limit is nought or a list holds a blank name or
/// the same name twice.
pub proof fn parts_of_a_policy(
    max_depth: u32,
    max_concurrency: u32,
    max_turns: u32,
    max_tokens: u64,
    models: Seq<Seq<char>>,
    tools: Seq<Seq<char>>,
    denied_tools: Seq<Seq<char>>,
)
    ensures
        policy_parts_error(
            max_depth,
            max_concurrency,
            max_turns,
            max_tokens,
            models,
            tools,
            denied_tools,
        ) is None <==> {
            &&& max_depth > 0 && max_concurrency > 0 && max_turns > 0 && max_tokens > 0
            &&& models.no_duplicates() && tools.no_duplicates() && denied_tools.no_duplicates()
            &&& forall|i: int| 0 <= i < models.len() ==> !blank(#[trigger] models[i])
            &&& forall|i: int| 0 <= i < tools.len() ==> !blank(#[trigger] tools[i])
            &&& forall|i: int| 0 <= i < denied_tools.len() ==> !blank(#[trigger] denied_tools[i])
        },
        policy_parts_error(
            max_depth,
            max_concurrency,
            max_turns,
            max_tokens,
            models,
            tools,
            denied_tools,
        ) is Some ==> policy_parts_error(
            max_depth,
            max_concurrency,
            max_turns,
            max_tokens,
            models,
            tools,
            denied_tools,
        )->0.code == ErrorCode::ToolArgsInvalid,
{
}

/// The parts of a request are refused where a budget is nought, the model is blank, or the
/// list of tools holds a blank name or the same name twice.
pub proof fn parts_of_a_request(
    depth: u32,
    turn_budget: u32,
    token_budget: u64,
    model: Option<Seq<char>>,
    tools: Seq<Seq<char>>,
)
    ensures
        request_parts_error(depth, turn_budget, token_budget, model, tools) is None <==> {
            &&& depth > 0 && turn_budget > 0 && token_budget > 0
            &&& model is Some ==> !blank(model->0)
            &&& tools.no_duplicates()
            &&& forall|i: int| 0 <= i < tools.len() ==> !blank(#[trigger] tools[i])
        },
        request_parts_error(depth, turn_budget, token_budget, model, tools) is Some
            ==> request_parts_error(depth, turn_budget, token_budget, model, tools)->0.code
            == ErrorCode::ToolArgsInvalid,
{
}

/// What a local child asks for is what its own policy allows, and it may be delegated under a
/// parent with that policy.
pub proof fn local_children_may_be_delegated()
    ensures
        delegation_error(local_policy(), local_policy(), local_request()) is None,
        local_request().turn_budget == local_policy().max_turns == 8,
        local_request().token_budget == local_policy().max_tokens == 8192,
        local_request().depth == local_policy().max_depth == 1,
        local_policy().max_concurrency == 1 && local_request().active_children == 0,
        local_request().model is None,
        local_request().tools == Set::<Seq<char>>::empty(),
{
}

/// A list of names is fit where no name comes twice in it and none is blank.
pub proof fn which_names_are_fit(names: Seq<Seq<char>>, i: int, j: int)
    ensures
        names_ok(names) && 0 <= i < names.len() ==> !blank(names[i]),
        names_ok(names) && 0 <= i < j < names.len() ==> names[i] != names[j],
        0 <= i < names.len() && blank(names[i]) ==> !names_ok(names),
        0 <= i < j < names.len() && names[i] == names[j] ==> !names_ok(names),
        names_ok(Seq::empty()),
{
}

} // verus!
