//! Roles of subagents: a strict JSON document, the catalog of roles, and the
//! subtasks that roles are narrowed to.
use vstd::prelude::*;
use crate::json::{
    items_view, json_document, lemma_array_view, lemma_object_view, member_of, members_view, Json,
    JsonView,
};
use crate::names::{NameMap, NameSet};
use crate::protocol::{ErrorCode, ErrorEnvelope, ErrorView};
use crate::subagent::{task_ok, SubagentTask, TaskView};
use crate::subagent_policy::{
    args_invalid, delegation_error, no_blank, validate_delegation, PolicyView, RequestView,
    SubagentPolicy, SubagentRequest,
};
use crate::text::{
    blank, byte_len, bytes_in, chars_of, concat2, concat3, concat4, contains_char, is_alnum,
    is_ascii_alnum, is_blank, is_white, same_text, views,
};

verus! {

broadcast use vstd::string::group_string_axioms;

/// The most bytes that a text of a role may have.
pub const MAX_TEXT_LEN: usize = 4_096;

pub const BUILTIN_ROLES_JSON: &'static str = "[
  {
    \"nickname\": \"researcher\",
    \"description\": \"Read-only repository researcher\",
    \"instructions\": \"Inspect evidence and return a concise, source-grounded report.\",
    \"model\": \"deepseek-chat\",
    \"allowed_tools\": [\"read\"],
    \"denied_tools\": []
  }
]";

// ---------------------------------------------------------------------------
// Roles
// ---------------------------------------------------------------------------

#[derive(Debug, PartialEq, Eq)]
pub struct AgentRole {
    nickname: String,
    description: String,
    instructions: String,
    model: String,
    allowed_tools: NameSet,
    denied_tools: NameSet,
}

#[verifier::ext_equal]
pub struct RoleView {
    pub nickname: Seq<char>,
    pub description: Seq<char>,
    pub instructions: Seq<char>,
    pub model: Seq<char>,
    pub allowed: Set<Seq<char>>,
    pub denied: Set<Seq<char>>,
}

impl View for AgentRole {
    type V = RoleView;

    closed spec fn view(&self) -> RoleView {
        RoleView {
            nickname: self.nickname@,
            description: self.description@,
            instructions: self.instructions@,
            model: self.model@,
            allowed: self.allowed_tools@,
            denied: self.denied_tools@,
        }
    }
}

/// Nothing in a role is blank.
pub open spec fn role_ok(r: RoleView) -> bool {
    &&& !blank(r.nickname)
    &&& !blank(r.description)
    &&& !blank(r.instructions)
    &&& !blank(r.model)
    &&& no_blank(r.allowed)
    &&& no_blank(r.denied)
}

impl Clone for AgentRole {
    fn clone(&self) -> (r: AgentRole)
        ensures
            r@ == self@,
    {
        proof {
            use_type_invariant(self);
        }
        AgentRole {
            nickname: self.nickname.clone(),
            description: self.description.clone(),
            instructions: self.instructions.clone(),
            model: self.model.clone(),
            allowed_tools: self.allowed_tools.clone(),
            denied_tools: self.denied_tools.clone(),
        }
    }
}

/// The policy that a role's subagent gets: the budget, the role's model and tools,
/// and everything denied that the parent or the role denies.
pub open spec fn role_policy(r: RoleView, b: BudgetView, parent: PolicyView) -> PolicyView {
    PolicyView {
        max_depth: b.depth,
        max_concurrency: parent.max_concurrency,
        max_turns: b.turns,
        max_tokens: b.tokens,
        models: set![r.model],
        tools: r.allowed,
        denied: parent.denied.union(r.denied),
    }
}

/// What a role's subagent asks for: the tools that it may use and nobody denies.
pub open spec fn role_request(r: RoleView, b: BudgetView, parent: PolicyView) -> RequestView {
    RequestView {
        depth: b.depth,
        active_children: b.active_children,
        turn_budget: b.turns,
        token_budget: b.tokens,
        model: Some(r.model),
        tools: r.allowed.difference(parent.denied.union(r.denied)),
    }
}

pub open spec fn role_task(r: RoleView, i: TaskView) -> TaskView {
    TaskView { prompt: r.instructions + "\n\n"@ + i.prompt, ..i }
}

impl AgentRole {
    #[verifier::type_invariant]
    spec fn well_formed(&self) -> bool {
        role_ok(self@)
    }

    pub fn nickname(&self) -> (r: &String)
        ensures
            r@ == self@.nickname,
    {
        &self.nickname
    }

    pub fn description(&self) -> (r: &String)
        ensures
            r@ == self@.description,
    {
        &self.description
    }

    pub fn instructions(&self) -> (r: &String)
        ensures
            r@ == self@.instructions,
    {
        &self.instructions
    }

    pub fn model(&self) -> (r: &String)
        ensures
            r@ == self@.model,
    {
        &self.model
    }

    pub fn allowed_tools(&self) -> (r: &NameSet)
        ensures
            r@ == self@.allowed,
    {
        &self.allowed_tools
    }

    pub fn denied_tools(&self) -> (r: &NameSet)
        ensures
            r@ == self@.denied,
    {
        &self.denied_tools
    }

    /// Narrows the role to a subtask under the parent's policy.
    pub fn build_subtask(
        &self,
        identity: &RoleTaskIdentity,
        budget: &RoleTaskBudget,
        parent_policy: &SubagentPolicy,
    ) -> (r: Result<RoleSubtask, ErrorEnvelope>)
        ensures
            ({
                let policy = role_policy(self@, budget@, parent_policy@);
                let request = role_request(self@, budget@, parent_policy@);
                match r {
                    Ok(subtask) => {
                        &&& delegation_error(parent_policy@, policy, request) is None
                        &&& subtask@ == (SubtaskView {
                            role_nickname: self@.nickname,
                            task: role_task(self@, identity@),
                            request,
                            child_policy: policy,
                        })
                    },
                    Err(e) => delegation_error(parent_policy@, policy, request) == Some(e@),
                }
            }),
    {
        proof {
            use_type_invariant(self);
            use_type_invariant(identity);
            use_type_invariant(budget);
        }
        let denied = parent_policy.denied_tools().union(&self.denied_tools);
        let mut models = NameSet::new();
        models.insert(self.model.clone());
        assert(models@ =~= set![self@.model]);
        let child_policy = SubagentPolicy::from_sets(
            budget.depth,
            parent_policy.max_concurrency(),
            budget.turns,
            budget.tokens,
            models,
            self.allowed_tools.clone(),
            denied,
        );
        let tools = self.allowed_tools.difference(child_policy.denied_tools());
        let request = SubagentRequest::from_parts(
            budget.depth,
            budget.active_children,
            budget.turns,
            budget.tokens,
            Some(self.model.clone()),
            tools,
        );
        match validate_delegation(parent_policy, &child_policy, &request) {
            Ok(()) => {},
            Err(e) => {
                return Err(e);
            },
        }
        let prompt = concat3(&self.instructions, "\n\n", &identity.prompt);
        proof {
            let k = choose|k: int|
                0 <= k < self.instructions@.len() && !crate::text::is_white(
                    #[trigger] self.instructions@[k],
                );
            assert(prompt@[k] == self.instructions@[k]);
            assert(!blank(prompt@));
        }
        match SubagentTask::with_lineage(
            identity.task_id.clone(),
            prompt,
            identity.parent_id.clone(),
            identity.child_id.clone(),
        ) {
            Ok(task) => Ok(
                RoleSubtask {
                    role_nickname: self.nickname.clone(),
                    task,
                    request,
                    child_policy,
                },
            ),
            Err(e) => Err(e),
        }
    }
}

/// Who a role's task is for.
#[derive(Debug, PartialEq, Eq)]
pub struct RoleTaskIdentity {
    task_id: String,
    prompt: String,
    parent_id: String,
    child_id: String,
}

impl View for RoleTaskIdentity {
    type V = TaskView;

    closed spec fn view(&self) -> TaskView {
        TaskView {
            id: self.task_id@,
            prompt: self.prompt@,
            parent_id: self.parent_id@,
            child_id: self.child_id@,
        }
    }
}

impl Clone for RoleTaskIdentity {
    fn clone(&self) -> (r: RoleTaskIdentity)
        ensures
            r@ == self@,
    {
        proof {
            use_type_invariant(self);
        }
        RoleTaskIdentity {
            task_id: self.task_id.clone(),
            prompt: self.prompt.clone(),
            parent_id: self.parent_id.clone(),
            child_id: self.child_id.clone(),
        }
    }
}

/// The first thing that is wrong with an identity.
pub open spec fn identity_error(t: TaskView) -> Option<ErrorView> {
    if text_error("task_id"@, t.id, false) is Some {
        text_error("task_id"@, t.id, false)
    } else if text_error("prompt"@, t.prompt, false) is Some {
        text_error("prompt"@, t.prompt, false)
    } else if text_error("parent_id"@, t.parent_id, false) is Some {
        text_error("parent_id"@, t.parent_id, false)
    } else {
        text_error("child_id"@, t.child_id, false)
    }
}

impl RoleTaskIdentity {
    #[verifier::type_invariant]
    spec fn well_formed(&self) -> bool {
        task_ok(self@)
    }

    pub fn new(task_id: String, prompt: String, parent_id: String, child_id: String) -> (r: Result<
        RoleTaskIdentity,
        ErrorEnvelope,
    >)
        ensures
            ({
                let t = TaskView {
                    id: task_id@,
                    prompt: prompt@,
                    parent_id: parent_id@,
                    child_id: child_id@,
                };
                match r {
                    Ok(identity) => identity_error(t) is None && identity@ == t,
                    Err(e) => identity_error(t) == Some(e@),
                }
            }),
    {
        match validate_text("task_id", &task_id, false) {
            Ok(()) => {},
            Err(e) => {
                return Err(e);
            },
        }
        match validate_text("prompt", &prompt, false) {
            Ok(()) => {},
            Err(e) => {
                return Err(e);
            },
        }
        match validate_text("parent_id", &parent_id, false) {
            Ok(()) => {},
            Err(e) => {
                return Err(e);
            },
        }
        match validate_text("child_id", &child_id, false) {
            Ok(()) => {},
            Err(e) => {
                return Err(e);
            },
        }
        Ok(RoleTaskIdentity { task_id, prompt, parent_id, child_id })
    }
}

/// What a role's task may use.
#[derive(Debug, Clone, Copy, PartialEq, Eq)]
pub struct RoleTaskBudget {
    depth: u32,
    active_children: u32,
    turns: u32,
    tokens: u64,
}

pub struct BudgetView {
    pub depth: u32,
    pub active_children: u32,
    pub turns: u32,
    pub tokens: u64,
}

impl View for RoleTaskBudget {
    type V = BudgetView;

    closed spec fn view(&self) -> BudgetView {
        BudgetView {
            depth: self.depth,
            active_children: self.active_children,
            turns: self.turns,
            tokens: self.tokens,
        }
    }
}

impl RoleTaskBudget {
    #[verifier::type_invariant]
    spec fn well_formed(&self) -> bool {
        self.depth > 0 && self.turns > 0 && self.tokens > 0
    }

    pub fn new(depth: u32, active_children: u32, turns: u32, tokens: u64) -> (r: Result<
        RoleTaskBudget,
        ErrorEnvelope,
    >)
        ensures
            match r {
                Ok(b) => {
                    &&& depth > 0 && turns > 0 && tokens > 0
                    &&& b@ == (BudgetView { depth, active_children, turns, tokens })
                },
                Err(e) => {
                    &&& depth == 0 || turns == 0 || tokens == 0
                    &&& e@ == args_invalid("role task budgets must be greater than zero"@)
                },
            },
    {
        if depth == 0 || turns == 0 || tokens == 0 {
            return Err(
                ErrorEnvelope::of(
                    ErrorCode::ToolArgsInvalid,
                    "role task budgets must be greater than zero",
                ),
            );
        }
        Ok(RoleTaskBudget { depth, active_children, turns, tokens })
    }
}

/// A subtask that is ready to run.
#[derive(Debug, Clone, PartialEq, Eq)]
pub struct RoleSubtask {
    role_nickname: String,
    task: SubagentTask,
    request: SubagentRequest,
    child_policy: SubagentPolicy,
}

pub struct SubtaskView {
    pub role_nickname: Seq<char>,
    pub task: TaskView,
    pub request: RequestView,
    pub child_policy: PolicyView,
}

impl View for RoleSubtask {
    type V = SubtaskView;

    closed spec fn view(&self) -> SubtaskView {
        SubtaskView {
            role_nickname: self.role_nickname@,
            task: self.task@,
            request: self.request@,
            child_policy: self.child_policy@,
        }
    }
}

impl RoleSubtask {
    pub fn role_nickname(&self) -> (r: &String)
        ensures
            r@ == self@.role_nickname,
    {
        &self.role_nickname
    }

    pub fn task(&self) -> (r: &SubagentTask)
        ensures
            r@ == self@.task,
    {
        &self.task
    }

    pub fn request(&self) -> (r: &SubagentRequest)
        ensures
            r@ == self@.request,
    {
        &self.request
    }

    pub fn child_policy(&self) -> (r: &SubagentPolicy)
        ensures
            r@ == self@.child_policy,
    {
        &self.child_policy
    }
}

// ---------------------------------------------------------------------------
// The catalog
// ---------------------------------------------------------------------------

pub open spec fn roles_view(roles: Seq<AgentRole>) -> Seq<RoleView> {
    roles.map_values(|r: AgentRole| r@)
}

/// A nickname that an earlier role of the list has.
pub open spec fn repeats(roles: Seq<RoleView>, i: int) -> bool {
    exists|j: int| 0 <= j < i && (#[trigger] roles[j]).nickname == roles[i].nickname
}

pub open spec fn duplicate_error(nickname: Seq<char>) -> ErrorView {
    args_invalid("duplicate role nickname: "@ + nickname)
}

/// The roles by their nicknames.
#[derive(Debug, PartialEq, Eq)]
pub struct RoleCatalog {
    roles: NameMap<AgentRole>,
}

impl RoleCatalog {
    /// Each role is held under its own nickname.
    #[verifier::type_invariant]
    spec fn inv(self) -> bool {
        forall|k: Seq<char>| #[trigger] self.roles@.dom().contains(k) ==> self.roles@[k]@.nickname
            == k
    }
}

impl View for RoleCatalog {
    type V = Map<Seq<char>, RoleView>;

    closed spec fn view(&self) -> Map<Seq<char>, RoleView> {
        self.roles@.map_values(|r: AgentRole| r@)
    }
}

impl Clone for RoleCatalog {
    fn clone(&self) -> (r: RoleCatalog)
        ensures
            r@ == self@,
    {
        proof {
            use_type_invariant(self);
        }
        let roles = self.roles.clone();
        proof {
            assert forall|k: Seq<char>| #[trigger] roles@.dom().contains(k) implies roles@[k]@
                == self.roles@[k]@ by {
                assert(self.roles@.dom().contains(k));
                assert(cloned(self.roles@[k], roles@[k]));
            }
        }
        let r = RoleCatalog { roles };
        assert(r@ =~= self@);
        r
    }
}

/// `catalog` holds exactly the roles of the list.
pub open spec fn catalogs(catalog: Map<Seq<char>, RoleView>, roles: Seq<RoleView>) -> bool {
    &&& forall|i: int| 0 <= i < roles.len() ==> !#[trigger] repeats(roles, i)
    &&& forall|k: Seq<char>| #[trigger]
        catalog.dom().contains(k) <==> exists|i: int|
            0 <= i < roles.len() && (#[trigger] roles[i]).nickname == k
    &&& forall|i: int|
        0 <= i < roles.len() ==> catalog[(#[trigger] roles[i]).nickname] == roles[i]
}

/// The roles of the built-in document, with those of the user's after them.
pub open spec fn combined_roles(
    builtin: Result<Seq<RoleView>, ErrorView>,
    user: Option<Result<Seq<RoleView>, ErrorView>>,
) -> Result<Seq<RoleView>, ErrorView> {
    match builtin {
        Err(e) => Err(e),
        Ok(first) => match user {
            None => Ok(first),
            Some(Err(e)) => Err(e),
            Some(Ok(second)) => Ok(first + second),
        },
    }
}

pub open spec fn user_roles(user_json: Option<&str>) -> Option<Result<Seq<RoleView>, ErrorView>> {
    match user_json {
        None => None,
        Some(json) => Some(roles_document(json@)),
    }
}

/// What a catalog of a list of roles comes to: the catalog, or the first nickname
/// that occurs twice.
pub open spec fn catalog_result(
    r: Result<RoleCatalog, ErrorEnvelope>,
    roles: Seq<RoleView>,
) -> bool {
    match r {
        Ok(catalog) => catalogs(catalog@, roles),
        Err(e) => exists|i: int|
            {
                &&& 0 <= i < roles.len()
                &&& #[trigger] repeats(roles, i)
                &&& forall|j: int| 0 <= j < i ==> !#[trigger] repeats(roles, j)
                &&& e@ == duplicate_error(roles[i].nickname)
            },
    }
}

impl RoleCatalog {
    /// The built-in roles and the user's.
    pub fn with_builtins(user_json: Option<&str>) -> (r: Result<RoleCatalog, ErrorEnvelope>)
        ensures
            match combined_roles(roles_document(BUILTIN_ROLES_JSON@), user_roles(user_json)) {
                Err(e) => r is Err && r->Err_0@ == e,
                Ok(roles) => catalog_result(r, roles),
            },
    {
        let mut roles = match parse_roles(BUILTIN_ROLES_JSON) {
            Ok(roles) => roles,
            Err(e) => {
                return Err(e);
            },
        };
        match user_json {
            None => {},
            Some(json) => {
                let mut more = match parse_roles(json) {
                    Ok(more) => more,
                    Err(e) => {
                        return Err(e);
                    },
                };
                let ghost first = roles@;
                let ghost second = more@;
                roles.append(&mut more);
                assert(roles_view(roles@) =~= roles_view(first) + roles_view(second));
            },
        }
        RoleCatalog::from_roles(roles)
    }

    pub fn from_roles(roles: Vec<AgentRole>) -> (r: Result<RoleCatalog, ErrorEnvelope>)
        ensures
            catalog_result(r, roles_view(roles@)),
    {
        let ghost all = roles_view(roles@);
        let mut map: NameMap<AgentRole> = NameMap::new();
        let mut i: usize = 0;
        while i < roles.len()
            invariant
                i <= roles@.len(),
                all == roles_view(roles@),
                forall|j: int| 0 <= j < i ==> !#[trigger] repeats(all, j),
                forall|k: Seq<char>| #[trigger]
                    map@.dom().contains(k) <==> exists|j: int|
                        0 <= j < i && (#[trigger] all[j]).nickname == k,
                forall|j: int|
                    0 <= j < i ==> map@[(#[trigger] all[j]).nickname]@ == all[j],
            decreases roles@.len() - i,
        {
            assert(all[i as int] == roles@[i as int]@);
            let nickname = roles[i].nickname().clone();
            if map.contains_key(&nickname) {
                assert(repeats(all, i as int));
                return Err(
                    ErrorEnvelope::new(
                        ErrorCode::ToolArgsInvalid,
                        concat2("duplicate role nickname: ", &nickname),
                    ),
                );
            }
            assert(!repeats(all, i as int));
            map.insert(nickname, roles[i].clone());
            proof {
                assert forall|k: Seq<char>| #[trigger] map@.dom().contains(k) implies exists|j: int|
                    0 <= j < i + 1 && (#[trigger] all[j]).nickname == k by {
                    if k == nickname@ {
                        assert(all[i as int].nickname == k);
                    }
                }
            }
            i = i + 1;
        }
        assert forall|k: Seq<char>| #[trigger] map@.dom().contains(k) implies map@[k]@.nickname
            == k by {
            let j = choose|j: int| 0 <= j < i && (#[trigger] all[j]).nickname == k;
            assert(map@[all[j].nickname]@ == all[j]);
        }
        let catalog = RoleCatalog { roles: map };
        assert(catalogs(catalog@, all));
        Ok(catalog)
    }

    pub fn get(&self, nickname: &str) -> (r: Result<&AgentRole, ErrorEnvelope>)
        ensures
            match r {
                Ok(role) => {
                    &&& self@.dom().contains(nickname@)
                    &&& role@ == self@[nickname@]
                    &&& role@.nickname == nickname@
                },
                Err(e) => !self@.dom().contains(nickname@) && e@ == args_invalid(
                    "unknown role nickname: "@ + nickname@,
                ),
            },
    {
        proof {
            use_type_invariant(self);
        }
        match self.roles.get(nickname) {
            Some(role) => Ok(role),
            None => Err(
                ErrorEnvelope::new(
                    ErrorCode::ToolArgsInvalid,
                    concat2("unknown role nickname: ", nickname),
                ),
            ),
        }
    }

    /// The nicknames in dictionary order.
    pub fn nicknames(&self) -> (r: &Vec<String>)
        ensures
            crate::names::ascending(views(r@)),
            views(r@).to_set() == self@.dom(),
            forall|k: Seq<char>| #[trigger]
                self@.dom().contains(k) ==> self@[k].nickname == k,
    {
        proof {
            use_type_invariant(self);
        }
        let r = self.roles.keys();
        assert(self@.dom() =~= self.roles@.dom());
        r
    }
}

// ---------------------------------------------------------------------------
// Reading roles
// ---------------------------------------------------------------------------

/// Letters, digits and `. _ - /`.
pub open spec fn is_identifier(s: Seq<char>) -> bool {
    forall|i: int| 0 <= i < s.len() ==> is_identifier_char(#[trigger] s[i])
}

pub open spec fn is_identifier_char(c: char) -> bool {
    is_alnum(c) || c == '.' || c == '_' || c == '-' || c == '/'
}

/// What is wrong with a text of a role.
pub open spec fn text_error(field: Seq<char>, value: Seq<char>, identifier: bool) -> Option<
    ErrorView,
> {
    if blank(value) || byte_len(value) > MAX_TEXT_LEN || value.contains('\0') {
        Some(args_invalid("role field "@ + field + " is blank or invalid"@))
    } else if identifier && !is_identifier(value) {
        Some(args_invalid("role field "@ + field + " is not a safe identifier"@))
    } else {
        None
    }
}

fn identifier_text(value: &str) -> (r: bool)
    ensures
        r == is_identifier(value@),
{
    let chars = chars_of(value);
    let mut i: usize = 0;
    while i < chars.len()
        invariant
            i <= chars@.len(),
            chars@ == value@,
            forall|j: int| 0 <= j < i ==> is_identifier_char(#[trigger] chars@[j]),
        decreases chars@.len() - i,
    {
        let c = chars[i];
        if !(is_ascii_alnum(c) || c == '.' || c == '_' || c == '-' || c == '/') {
            assert(!is_identifier_char(value@[i as int]));
            return false;
        }
        i = i + 1;
    }
    true
}

/// Checks a text of a role.
pub fn validate_text(field: &str, value: &str, identifier: bool) -> (r: Result<(), ErrorEnvelope>)
    ensures
        match r {
            Ok(()) => text_error(field@, value@, identifier) is None,
            Err(e) => text_error(field@, value@, identifier) == Some(e@),
        },
{
    if is_blank(value) || bytes_in(value) > MAX_TEXT_LEN || contains_char(value, '\0') {
        return Err(
            ErrorEnvelope::new(
                ErrorCode::ToolArgsInvalid,
                concat3("role field ", field, " is blank or invalid"),
            ),
        );
    }
    if identifier && !identifier_text(value) {
        return Err(
            ErrorEnvelope::new(
                ErrorCode::ToolArgsInvalid,
                concat3("role field ", field, " is not a safe identifier"),
            ),
        );
    }
    Ok(())
}

pub open spec fn is_role_field(name: Seq<char>) -> bool {
    ||| name == "nickname"@
    ||| name == "description"@
    ||| name == "instructions"@
    ||| name == "model"@
    ||| name == "allowed_tools"@
    ||| name == "denied_tools"@
}

fn role_field(name: &str) -> (r: bool)
    ensures
        r == is_role_field(name@),
{
    same_text(name, "nickname") || same_text(name, "description") || same_text(name, "instructions")
        || same_text(name, "model") || same_text(name, "allowed_tools") || same_text(
        name,
        "denied_tools",
    )
}

/// The first member of an object that no role has, or that one is missing.
pub open spec fn fields_error(members: Seq<(Seq<char>, JsonView)>) -> Option<ErrorView> {
    match first_unknown(members) {
        Some(name) => Some(args_invalid("unknown role field: "@ + name)),
        None => if members.len() != 6 {
            Some(args_invalid("role is missing one or more required fields"@))
        } else {
            None
        },
    }
}

pub open spec fn first_unknown(members: Seq<(Seq<char>, JsonView)>) -> Option<Seq<char>>
    decreases members.len(),
{
    if members.len() == 0 {
        None
    } else if first_unknown(members.drop_last()) is Some {
        first_unknown(members.drop_last())
    } else if !is_role_field(members.last().0) {
        Some(members.last().0)
    } else {
        None
    }
}

proof fn lemma_first_unknown(members: Seq<(Seq<char>, JsonView)>, k: int)
    requires
        0 <= k <= members.len(),
        first_unknown(members.take(k)) is Some,
    ensures
        first_unknown(members) == first_unknown(members.take(k)),
    decreases members.len() - k,
{
    if k < members.len() {
        assert(members.drop_last().take(k) =~= members.take(k));
        lemma_first_unknown(members.drop_last(), k);
    } else {
        assert(members.take(k) =~= members);
    }
}

fn reject_unknown_fields(members: &Vec<(String, Json)>) -> (r: Result<(), ErrorEnvelope>)
    ensures
        match r {
            Ok(()) => fields_error(members_view(members@)) is None,
            Err(e) => fields_error(members_view(members@)) == Some(e@),
        },
{
    let ghost all = members_view(members@);
    let mut i: usize = 0;
    assert(all.take(0) =~= Seq::<(Seq<char>, JsonView)>::empty());
    while i < members.len()
        invariant
            i <= members@.len(),
            all == members_view(members@),
            first_unknown(all.take(i as int)) is None,
        decreases members@.len() - i,
    {
        proof {
            assert(all.take(i + 1).drop_last() =~= all.take(i as int));
            assert(all.take(i + 1).last() == (members@[i as int].0@, members@[i as int].1@));
        }
        if !role_field(&members[i].0) {
            proof {
                lemma_first_unknown(all, i + 1);
            }
            return Err(
                ErrorEnvelope::new(
                    ErrorCode::ToolArgsInvalid,
                    concat2("unknown role field: ", &members[i].0),
                ),
            );
        }
        i = i + 1;
    }
    assert(all.take(i as int) =~= all);
    if members.len() != 6 {
        return Err(
            ErrorEnvelope::of(
                ErrorCode::ToolArgsInvalid,
                "role is missing one or more required fields",
            ),
        );
    }
    Ok(())
}

/// A text field of a role.
pub open spec fn string_field(j: JsonView, field: Seq<char>, identifier: bool) -> Result<
    Seq<char>,
    ErrorView,
> {
    match member_of(j, field) {
        Some(JsonView::Text(t)) => match text_error(field, t, identifier) {
            Some(e) => Err(e),
            None => Ok(t),
        },
        _ => Err(args_invalid("role field "@ + field + " must be a string"@)),
    }
}

fn required_string(j: &Json, field: &str, identifier: bool) -> (r: Result<String, ErrorEnvelope>)
    ensures
        match r {
            Ok(t) => string_field(j@, field@, identifier) == Ok::<Seq<char>, ErrorView>(t@)
                && !blank(t@),
            Err(e) => string_field(j@, field@, identifier) == Err::<Seq<char>, ErrorView>(e@),
        },
{
    match j.get(field) {
        Some(Json::Text(t)) => match validate_text(field, t, identifier) {
            Ok(()) => Ok(t.clone()),
            Err(e) => Err(e),
        },
        _ => Err(
            ErrorEnvelope::new(
                ErrorCode::ToolArgsInvalid,
                concat3("role field ", field, " must be a string"),
            ),
        ),
    }
}

/// The names of a list, or the first error in it.
pub open spec fn names_of(items: Seq<JsonView>, field: Seq<char>) -> Result<
    Set<Seq<char>>,
    ErrorView,
>
    decreases items.len(),
{
    if items.len() == 0 {
        Ok(Set::empty())
    } else {
        match names_of(items.drop_last(), field) {
            Err(e) => Err(e),
            Ok(names) => match items.last() {
                JsonView::Text(name) => if text_error(field, name, true) is Some {
                    Err(text_error(field, name, true)->0)
                } else if names.contains(name) {
                    Err(
                        args_invalid("duplicate name in role field "@ + field + ": "@ + name),
                    )
                } else {
                    Ok(names.insert(name))
                },
                _ => Err(args_invalid("role field "@ + field + " must contain strings"@)),
            },
        }
    }
}

proof fn lemma_names_error(items: Seq<JsonView>, field: Seq<char>, k: int)
    requires
        0 <= k <= items.len(),
        names_of(items.take(k), field) is Err,
    ensures
        names_of(items, field) == names_of(items.take(k), field),
    decreases items.len() - k,
{
    if k < items.len() {
        assert(items.drop_last().take(k) =~= items.take(k));
        lemma_names_error(items.drop_last(), field, k);
    } else {
        assert(items.take(k) =~= items);
    }
}

/// A list of names of a role.
pub open spec fn names_field(j: JsonView, field: Seq<char>) -> Result<Set<Seq<char>>, ErrorView> {
    match member_of(j, field) {
        Some(JsonView::Array(items)) => names_of(items, field),
        _ => Err(args_invalid("role field "@ + field + " must be an array"@)),
    }
}

fn required_names(j: &Json, field: &str) -> (r: Result<NameSet, ErrorEnvelope>)
    ensures
        match r {
            Ok(set) => names_field(j@, field@) == Ok::<Set<Seq<char>>, ErrorView>(set@) && no_blank(
                set@,
            ),
            Err(e) => names_field(j@, field@) == Err::<Set<Seq<char>>, ErrorView>(e@),
        },
{
    match j.get(field) {
        Some(Json::Array(items)) => {
            proof {
                lemma_array_view(*items);
            }
            let ghost all = items_view(items@);
            let mut names = NameSet::new();
            let mut i: usize = 0;
            assert(all.take(0) =~= Seq::<JsonView>::empty());
            while i < items.len()
                invariant
                    i <= items@.len(),
                    all == items_view(items@),
                    names_of(all.take(i as int), field@) == Ok::<Set<Seq<char>>, ErrorView>(names@),
                    no_blank(names@),
                    member_of(j@, field@) == Some(JsonView::Array(all)),
                decreases items@.len() - i,
            {
                proof {
                    assert(all.take(i + 1).drop_last() =~= all.take(i as int));
                    assert(all.take(i + 1).last() == items@[i as int]@);
                    if names_of(all.take(i + 1), field@) is Err {
                        lemma_names_error(all, field@, i + 1);
                    }
                }
                match &items[i] {
                    Json::Text(name) => {
                        match validate_text(field, name, true) {
                            Ok(()) => {},
                            Err(e) => {
                                return Err(e);
                            },
                        }
                        if !names.insert(name.clone()) {
                            return Err(
                                ErrorEnvelope::new(
                                    ErrorCode::ToolArgsInvalid,
                                    concat4("duplicate name in role field ", field, ": ", name),
                                ),
                            );
                        }
                    },
                    _ => {
                        return Err(
                            ErrorEnvelope::new(
                                ErrorCode::ToolArgsInvalid,
                                concat3("role field ", field, " must contain strings"),
                            ),
                        );
                    },
                }
                i = i + 1;
            }
            assert(all.take(i as int) =~= all);
            Ok(names)
        },
        _ => Err(
            ErrorEnvelope::new(
                ErrorCode::ToolArgsInvalid,
                concat3("role field ", field, " must be an array"),
            ),
        ),
    }
}

/// A role, or the first thing that is wrong with it.
pub open spec fn role_of(j: JsonView) -> Result<RoleView, ErrorView> {
    match j {
        JsonView::Object(members) => match fields_error(members) {
            Some(e) => Err(e),
            None => match string_field(j, "nickname"@, true) {
                Err(e) => Err(e),
                Ok(nickname) => match string_field(j, "description"@, false) {
                    Err(e) => Err(e),
                    Ok(description) => match string_field(j, "instructions"@, false) {
                        Err(e) => Err(e),
                        Ok(instructions) => match string_field(j, "model"@, true) {
                            Err(e) => Err(e),
                            Ok(model) => match names_field(j, "allowed_tools"@) {
                                Err(e) => Err(e),
                                Ok(allowed) => match names_field(j, "denied_tools"@) {
                                    Err(e) => Err(e),
                                    Ok(denied) => Ok(
                                        RoleView {
                                            nickname,
                                            description,
                                            instructions,
                                            model,
                                            allowed,
                                            denied,
                                        },
                                    ),
                                },
                            },
                        },
                    },
                },
            },
        },
        _ => Err(args_invalid("each role must be a JSON object"@)),
    }
}

fn parse_role(j: &Json) -> (r: Result<AgentRole, ErrorEnvelope>)
    ensures
        match r {
            Ok(role) => role_of(j@) == Ok::<RoleView, ErrorView>(role@),
            Err(e) => role_of(j@) == Err::<RoleView, ErrorView>(e@),
        },
{
    match j {
        Json::Object(members) => {
            proof {
                lemma_object_view(*members);
            }
            match reject_unknown_fields(members) {
                Ok(()) => {},
                Err(e) => {
                    return Err(e);
                },
            }
        },
        _ => {
            return Err(
                ErrorEnvelope::of(ErrorCode::ToolArgsInvalid, "each role must be a JSON object"),
            );
        },
    }
    let nickname = match required_string(j, "nickname", true) {
        Ok(t) => t,
        Err(e) => {
            return Err(e);
        },
    };
    let description = match required_string(j, "description", false) {
        Ok(t) => t,
        Err(e) => {
            return Err(e);
        },
    };
    let instructions = match required_string(j, "instructions", false) {
        Ok(t) => t,
        Err(e) => {
            return Err(e);
        },
    };
    let model = match required_string(j, "model", true) {
        Ok(t) => t,
        Err(e) => {
            return Err(e);
        },
    };
    let allowed_tools = match required_names(j, "allowed_tools") {
        Ok(set) => set,
        Err(e) => {
            return Err(e);
        },
    };
    let denied_tools = match required_names(j, "denied_tools") {
        Ok(set) => set,
        Err(e) => {
            return Err(e);
        },
    };
    Ok(AgentRole { nickname, description, instructions, model, allowed_tools, denied_tools })
}

/// The roles of a list, or the first error in it.
pub open spec fn roles_of(items: Seq<JsonView>) -> Result<Seq<RoleView>, ErrorView>
    decreases items.len(),
{
    if items.len() == 0 {
        Ok(Seq::empty())
    } else {
        match roles_of(items.drop_last()) {
            Err(e) => Err(e),
            Ok(roles) => match role_of(items.last()) {
                Err(e) => Err(e),
                Ok(role) => Ok(roles.push(role)),
            },
        }
    }
}

proof fn lemma_roles_error(items: Seq<JsonView>, k: int)
    requires
        0 <= k <= items.len(),
        roles_of(items.take(k)) is Err,
    ensures
        roles_of(items) == roles_of(items.take(k)),
    decreases items.len() - k,
{
    if k < items.len() {
        assert(items.drop_last().take(k) =~= items.take(k));
        lemma_roles_error(items.drop_last(), k);
    } else {
        assert(items.take(k) =~= items);
    }
}

/// The roles of a JSON value.
pub open spec fn roles_in(j: JsonView) -> Result<Seq<RoleView>, ErrorView> {
    match j {
        JsonView::Array(items) => roles_of(items),
        _ => Err(args_invalid("role document must be a JSON array"@)),
    }
}

/// The roles of a JSON text.
pub open spec fn roles_document(text: Seq<char>) -> Result<Seq<RoleView>, ErrorView> {
    match json_document(text) {
        Err(e) => Err(args_invalid("invalid role JSON: "@ + e)),
        Ok(j) => roles_in(j),
    }
}

/// Reads the roles of a JSON value.
pub fn roles_from_json(j: &Json) -> (r: Result<Vec<AgentRole>, ErrorEnvelope>)
    ensures
        match r {
            Ok(roles) => roles_in(j@) == Ok::<Seq<RoleView>, ErrorView>(roles_view(roles@)),
            Err(e) => roles_in(j@) == Err::<Seq<RoleView>, ErrorView>(e@),
        },
{
    match j {
        Json::Array(items) => {
            proof {
                lemma_array_view(*items);
            }
            let ghost all = items_view(items@);
            let mut roles: Vec<AgentRole> = Vec::new();
            let mut i: usize = 0;
            assert(all.take(0) =~= Seq::<JsonView>::empty());
            assert(roles_view(roles@) =~= Seq::<RoleView>::empty());
            while i < items.len()
                invariant
                    i <= items@.len(),
                    all == items_view(items@),
                    j@ == JsonView::Array(all),
                    roles_of(all.take(i as int)) == Ok::<Seq<RoleView>, ErrorView>(
                        roles_view(roles@),
                    ),
                decreases items@.len() - i,
            {
                let ghost before = roles@;
                proof {
                    assert(all.take(i + 1).drop_last() =~= all.take(i as int));
                    assert(all.take(i + 1).last() == items@[i as int]@);
                }
                match parse_role(&items[i]) {
                    Ok(role) => {
                        roles.push(role);
                        assert(roles_view(roles@) =~= roles_view(before).push(role@));
                    },
                    Err(e) => {
                        proof {
                            lemma_roles_error(all, i + 1);
                        }
                        return Err(e);
                    },
                }
                i = i + 1;
            }
            assert(all.take(i as int) =~= all);
            Ok(roles)
        },
        _ => Err(
            ErrorEnvelope::of(ErrorCode::ToolArgsInvalid, "role document must be a JSON array"),
        ),
    }
}

/// Reads a role document: a JSON array of roles with exactly their six fields.
pub fn parse_roles(json: &str) -> (r: Result<Vec<AgentRole>, ErrorEnvelope>)
    ensures
        match r {
            Ok(roles) => roles_document(json@) == Ok::<Seq<RoleView>, ErrorView>(
                roles_view(roles@),
            ),
            Err(e) => roles_document(json@) == Err::<Seq<RoleView>, ErrorView>(e@),
        },
{
    match Json::parse(json) {
        Err(e) => Err(
            ErrorEnvelope::new(ErrorCode::ToolArgsInvalid, concat2("invalid role JSON: ", &e)),
        ),
        Ok(j) => roles_from_json(&j),
    }
}

// ---------------------------------------------------------------------------
// Laws
// ---------------------------------------------------------------------------

/// A role never expands its parent: a subtask that is built asks only for what the
/// parent's policy allows.
pub proof fn role_never_expands_parent(r: RoleView, b: BudgetView, parent: PolicyView)
    requires
        delegation_error(parent, role_policy(r, b, parent), role_request(r, b, parent)) is None,
    ensures
        b.depth <= parent.max_depth,
        b.turns <= parent.max_turns,
        b.tokens <= parent.max_tokens,
        parent.models.contains(r.model),
        r.allowed.subset_of(parent.tools),
        role_request(r, b, parent).tools.disjoint(parent.denied),
{
    assert(set![r.model].contains(r.model));
}

/// The prompt of a role's task begins with the instructions of the role and ends with the
/// prompt of the identity, with a blank line between them; the rest is that of the identity. So
/// two prompts give two tasks.
pub proof fn a_task_carries_its_prompt(r: RoleView, i: TaskView, other: TaskView)
    ensures
        ({
            let task = role_task(r, i);
            let n = r.instructions.len() as int;
            &&& task.prompt.len() == n + 2 + i.prompt.len()
            &&& task.prompt.subrange(0, n) == r.instructions
            &&& task.prompt[n] == '\n'
            &&& task.prompt[n + 1] == '\n'
            &&& task.prompt.subrange(n + 2, task.prompt.len() as int) == i.prompt
            &&& task.id == i.id
            &&& task.parent_id == i.parent_id
            &&& task.child_id == i.child_id
        }),
        i.prompt != other.prompt ==> role_task(r, i).prompt != role_task(r, other).prompt,
{
    reveal_strlit("\n\n");
    let n = r.instructions.len() as int;
    let a = role_task(r, i).prompt;
    let b = role_task(r, other).prompt;
    assert(a.subrange(0, n) =~= r.instructions);
    assert(a.subrange(n + 2, a.len() as int) =~= i.prompt);
    assert(b.subrange(n + 2, b.len() as int) =~= other.prompt);
}

/// What a role asks for is what its budget and its own lists say: its model, the budget's
/// numbers, and each tool that it allows and that neither it nor its parent denies.
pub proof fn a_role_asks_for_its_own(
    r: RoleView,
    b: BudgetView,
    parent: PolicyView,
    tool: Seq<char>,
    model: Seq<char>,
)
    ensures
        role_request(r, b, parent).depth == b.depth,
        role_request(r, b, parent).active_children == b.active_children,
        role_request(r, b, parent).turn_budget == b.turns,
        role_request(r, b, parent).token_budget == b.tokens,
        role_request(r, b, parent).model == Some(r.model),
        role_request(r, b, parent).tools.contains(tool) <==> r.allowed.contains(tool)
            && !r.denied.contains(tool) && !parent.denied.contains(tool),
        role_policy(r, b, parent).max_depth == b.depth,
        role_policy(r, b, parent).max_turns == b.turns,
        role_policy(r, b, parent).max_tokens == b.tokens,
        role_policy(r, b, parent).max_concurrency == parent.max_concurrency,
        role_policy(r, b, parent).models.contains(model) <==> model == r.model,
        role_policy(r, b, parent).tools.contains(tool) <==> r.allowed.contains(tool),
        role_policy(r, b, parent).denied.contains(tool) <==> r.denied.contains(tool)
            || parent.denied.contains(tool),
{
}

/// A text is fit for a field where it has a character that is not white, is no longer than
/// four thousand and ninety-six bytes, holds no zero character and, as an identifier, nothing
/// but letters, digits, dots, dashes, underscores and slashes.
pub proof fn fit_texts(field: Seq<char>, value: Seq<char>, identifier: bool)
    ensures
        text_error(field, value, identifier) is None <==> {
            &&& exists|i: int| 0 <= i < value.len() && !is_white(#[trigger] value[i])
            &&& byte_len(value) <= 4096
            &&& forall|i: int| 0 <= i < value.len() ==> #[trigger] value[i] != '\0'
            &&& identifier ==> forall|i: int|
                0 <= i < value.len() ==> {
                    ||| 'a' <= #[trigger] value[i] <= 'z'
                    ||| 'A' <= value[i] <= 'Z'
                    ||| '0' <= value[i] <= '9'
                    ||| value[i] == '.'
                    ||| value[i] == '_'
                    ||| value[i] == '-'
                    ||| value[i] == '/'
                }
        },
        text_error(field, value, identifier) is Some ==> text_error(
            field,
            value,
            identifier,
        )->0.code == ErrorCode::ToolArgsInvalid,
{
    if identifier && !is_identifier(value) {
        let k = choose|k: int| 0 <= k < value.len() && !is_identifier_char(#[trigger] value[k]);
        assert(!is_identifier_char(value[k]));
    }
    if identifier && is_identifier(value) {
        assert forall|i: int| 0 <= i < value.len() implies {
            ||| 'a' <= #[trigger] value[i] <= 'z'
            ||| 'A' <= value[i] <= 'Z'
            ||| '0' <= value[i] <= '9'
            ||| value[i] == '.'
            ||| value[i] == '_'
            ||| value[i] == '-'
            ||| value[i] == '/'
        } by {
            assert(is_identifier_char(value[i]));
        }
    }
    if value.contains('\0') {
        let k = choose|k: int| 0 <= k < value.len() && value[k] == '\0';
        assert(value[k] == '\0');
    }
}

/// An identity is refused for one of its four texts, the first that is not fit.
pub proof fn an_identity_needs_four_fit_texts(t: TaskView, field: Seq<char>)
    ensures
        identity_error(t) is None <==> {
            &&& text_error(field, t.id, false) is None
            &&& text_error(field, t.prompt, false) is None
            &&& text_error(field, t.parent_id, false) is None
            &&& text_error(field, t.child_id, false) is None
        },
{
}

/// A role that was read has the six members and no other, each read from the member of its
/// name: four texts, and two lists of names without repetition.
pub proof fn a_role_is_read_by_its_names(j: JsonView, r: RoleView, name: Seq<char>, k: int)
    requires
        role_of(j) == Ok::<RoleView, ErrorView>(r),
    ensures
        j is Object,
        j->Object_0.len() == 6,
        0 <= k < 6 ==> ({
            let found = j->Object_0[k].0;
            ||| found == "nickname"@
            ||| found == "description"@
            ||| found == "instructions"@
            ||| found == "model"@
            ||| found == "allowed_tools"@
            ||| found == "denied_tools"@
        }),
        member_of(j, "nickname"@) == Some(JsonView::Text(r.nickname)),
        member_of(j, "description"@) == Some(JsonView::Text(r.description)),
        member_of(j, "instructions"@) == Some(JsonView::Text(r.instructions)),
        member_of(j, "model"@) == Some(JsonView::Text(r.model)),
        is_identifier(r.nickname) && is_identifier(r.model),
        member_of(j, "allowed_tools"@) matches Some(JsonView::Array(items)) && (r.allowed.contains(
            name,
        ) <==> items.contains(JsonView::Text(name))),
        member_of(j, "denied_tools"@) matches Some(JsonView::Array(items)) && (r.denied.contains(
            name,
        ) <==> items.contains(JsonView::Text(name))),
{
    let members = j->Object_0;
    if 0 <= k < 6 {
        lemma_all_known(members, k);
    }
    if let Some(JsonView::Array(items)) = member_of(j, "allowed_tools"@) {
        names_are_the_texts(items, "allowed_tools"@, name);
    }
    if let Some(JsonView::Array(items)) = member_of(j, "denied_tools"@) {
        names_are_the_texts(items, "denied_tools"@, name);
    }
}

proof fn lemma_all_known(members: Seq<(Seq<char>, JsonView)>, k: int)
    requires
        first_unknown(members) is None,
        0 <= k < members.len(),
    ensures
        is_role_field(members[k].0),
    decreases members.len(),
{
    if k < members.len() - 1 {
        lemma_all_known(members.drop_last(), k);
    }
}

/// A list of names that was read holds exactly the texts of the list, each fit as an
/// identifier and none of them twice.
pub proof fn names_are_the_texts(items: Seq<JsonView>, field: Seq<char>, name: Seq<char>)
    requires
        names_of(items, field) is Ok,
    ensures
        names_of(items, field)->Ok_0.contains(name) <==> items.contains(JsonView::Text(name)),
        forall|i: int|
            0 <= i < items.len() ==> #[trigger] items[i] is Text && text_error(
                field,
                items[i]->Text_0,
                true,
            ) is None,
        items.no_duplicates(),
    decreases items.len(),
{
    if items.len() > 0 {
        let before = items.drop_last();
        let last = items.last()->Text_0;
        names_are_the_texts(before, field, name);
        names_are_the_texts(before, field, last);
        assert(items =~= before.push(JsonView::Text(last)));
        if items.contains(JsonView::Text(name)) {
            let i = choose|i: int| 0 <= i < items.len() && items[i] == JsonView::Text(name);
            if i < before.len() {
                assert(before[i] == JsonView::Text(name));
            }
        }
        if before.contains(JsonView::Text(name)) {
            let i = choose|i: int| 0 <= i < before.len() && before[i] == JsonView::Text(name);
            assert(items[i] == JsonView::Text(name));
        }
        if name == last {
            assert(items[items.len() - 1] == JsonView::Text(name));
        }
        assert forall|i: int, k: int| 0 <= i < k < items.len() implies items[i] != items[k] by {
            if k == items.len() - 1 {
                assert(before[i] == items[i]);
                if items[i] == items[k] {
                    assert(before.contains(JsonView::Text(last)));
                }
            } else {
                assert(before[i] == items[i] && before[k] == items[k]);
            }
        }
    }
}

/// The roles of a document are those of its items, in their order; a document that is no list
/// has none.
pub proof fn a_document_lists_its_roles(j: JsonView, i: int)
    ensures
        roles_in(j) is Ok ==> {
            &&& j is Array
            &&& roles_in(j)->Ok_0.len() == j->Array_0.len()
            &&& 0 <= i < j->Array_0.len() ==> role_of(j->Array_0[i]) == Ok::<RoleView, ErrorView>(
                roles_in(j)->Ok_0[i],
            )
        },
        roles_in(j) is Err ==> roles_in(j)->Err_0.code == ErrorCode::ToolArgsInvalid,
{
    if let JsonView::Array(items) = j {
        lemma_roles_each(items, i);
    }
}

proof fn lemma_roles_each(items: Seq<JsonView>, i: int)
    ensures
        roles_of(items) is Ok ==> roles_of(items)->Ok_0.len() == items.len() && (0 <= i
            < items.len() ==> role_of(items[i]) == Ok::<RoleView, ErrorView>(
            roles_of(items)->Ok_0[i],
        )),
        roles_of(items) is Err ==> roles_of(items)->Err_0.code == ErrorCode::ToolArgsInvalid,
    decreases items.len(),
{
    if items.len() > 0 {
        lemma_roles_each(items.drop_last(), i);
        lemma_role_code(items.last());
    }
}

proof fn lemma_role_code(j: JsonView)
    ensures
        role_of(j) is Err ==> role_of(j)->Err_0.code == ErrorCode::ToolArgsInvalid,
{
    if let Some(JsonView::Array(items)) = member_of(j, "allowed_tools"@) {
        lemma_names_code(items, "allowed_tools"@);
    }
    if let Some(JsonView::Array(items)) = member_of(j, "denied_tools"@) {
        lemma_names_code(items, "denied_tools"@);
    }
}

proof fn lemma_names_code(items: Seq<JsonView>, field: Seq<char>)
    ensures
        names_of(items, field) is Err ==> names_of(items, field)->Err_0.code
            == ErrorCode::ToolArgsInvalid,
    decreases items.len(),
{
    if items.len() > 0 {
        lemma_names_code(items.drop_last(), field);
    }
}

/// The roles of the user come after those that are built in, and none is left out.
pub proof fn users_add_to_the_roles(
    builtin: Seq<RoleView>,
    user: Seq<RoleView>,
    i: int,
    k: int,
)
    requires
        0 <= i < builtin.len(),
        0 <= k < user.len(),
    ensures
        combined_roles(Ok(builtin), None) == Ok::<Seq<RoleView>, ErrorView>(builtin),
        combined_roles(Ok(builtin), Some(Ok(user))) matches Ok(all) && all.len() == builtin.len()
            + user.len() && all[i] == builtin[i] && all[builtin.len() + k] == user[k],
{
}

/// A catalog holds each of the roles under its nickname and no other; where a nickname comes
/// twice there is none, and the error names the first that does.
pub proof fn what_a_catalog_holds(
    r: Result<RoleCatalog, ErrorEnvelope>,
    roles: Seq<RoleView>,
    i: int,
    k: int,
    name: Seq<char>,
)
    requires
        catalog_result(r, roles),
    ensures
        r is Ok ==> {
            &&& 0 <= i < roles.len() ==> r->Ok_0@.dom().contains(roles[i].nickname)
                && r->Ok_0@[roles[i].nickname] == roles[i]
            &&& 0 <= i < k < roles.len() ==> roles[i].nickname != roles[k].nickname
            &&& r->Ok_0@.dom().contains(name) ==> exists|j: int|
                0 <= j < roles.len() && (#[trigger] roles[j]).nickname == name
        },
        r is Err ==> r->Err_0@.code == ErrorCode::ToolArgsInvalid && exists|a: int, b: int|
            #![trigger roles[a], roles[b]]
            0 <= a < b < roles.len() && roles[a].nickname == roles[b].nickname
                && r->Err_0@.message == "duplicate role nickname: "@ + roles[b].nickname,
{
    if r is Ok {
        if 0 <= i < k < roles.len() {
            assert(!repeats(roles, k));
        }
    } else {
        let b = choose|b: int|
            {
                &&& 0 <= b < roles.len()
                &&& #[trigger] repeats(roles, b)
                &&& forall|j: int| 0 <= j < b ==> !#[trigger] repeats(roles, j)
                &&& r->Err_0@ == duplicate_error(roles[b].nickname)
            };
        let a = choose|a: int| 0 <= a < b && (#[trigger] roles[a]).nickname == roles[b].nickname;
        assert(roles[a].nickname == roles[b].nickname);
    }
}

/// A document that is no JSON, or no list, is refused.
pub proof fn which_documents_are_refused(text: Seq<char>)
    ensures
        json_document(text) is Err ==> roles_document(text) is Err && roles_document(
            text,
        )->Err_0.code == ErrorCode::ToolArgsInvalid,
        json_document(text) is Ok && !(json_document(text)->Ok_0 is Array) ==> roles_document(
            text,
        ) is Err,
        json_document(text) is Ok ==> roles_document(text) == roles_in(json_document(text)->Ok_0),
{
}

/// A role with six fit members is read.
pub proof fn a_fit_role_is_read(
    j: JsonView,
    nickname: Seq<char>,
    description: Seq<char>,
    instructions: Seq<char>,
    model: Seq<char>,
    allowed: Seq<JsonView>,
    denied: Seq<JsonView>,
)
    requires
        j is Object && fields_error(j->Object_0) is None,
        member_of(j, "nickname"@) == Some(JsonView::Text(nickname)),
        member_of(j, "description"@) == Some(JsonView::Text(description)),
        member_of(j, "instructions"@) == Some(JsonView::Text(instructions)),
        member_of(j, "model"@) == Some(JsonView::Text(model)),
        member_of(j, "allowed_tools"@) == Some(JsonView::Array(allowed)),
        member_of(j, "denied_tools"@) == Some(JsonView::Array(denied)),
        text_error("nickname"@, nickname, true) is None,
        text_error("description"@, description, false) is None,
        text_error("instructions"@, instructions, false) is None,
        text_error("model"@, model, true) is None,
        names_of(allowed, "allowed_tools"@) is Ok,
        names_of(denied, "denied_tools"@) is Ok,
    ensures
        role_of(j) matches Ok(r) && r.nickname == nickname && r.description == description
            && r.instructions == instructions && r.model == model && r.allowed == names_of(
            allowed,
            "allowed_tools"@,
        )->Ok_0 && r.denied == names_of(denied, "denied_tools"@)->Ok_0,
{
}

/// A list of fit names, none of them twice, is read.
pub proof fn fit_names_are_read(items: Seq<JsonView>, field: Seq<char>, name: Seq<char>)
    requires
        names_of(items, field) is Ok,
        text_error(field, name, true) is None,
        !items.contains(JsonView::Text(name)),
    ensures
        names_of(Seq::empty(), field) == Ok::<Set<Seq<char>>, ErrorView>(Set::empty()),
        names_of(items.push(JsonView::Text(name)), field) == Ok::<Set<Seq<char>>, ErrorView>(
            names_of(items, field)->Ok_0.insert(name),
        ),
{
    assert(items.push(JsonView::Text(name)).drop_last() =~= items);
    names_are_the_texts(items, field, name);
}

/// Six members with the names of a role are its fields; any other name is refused, the first
/// one by name.
pub proof fn which_fields_are_a_role(
    members: Seq<(Seq<char>, JsonView)>,
    value: JsonView,
    name: Seq<char>,
)
    ensures
        first_unknown(Seq::empty()) is None,
        first_unknown(members) is None && is_role_field(name) ==> first_unknown(
            members.push((name, value)),
        ) is None,
        first_unknown(members) is None && !is_role_field(name) ==> first_unknown(
            members.push((name, value)),
        ) == Some(name),
        first_unknown(members) is Some ==> first_unknown(members.push((name, value)))
            == first_unknown(members),
        fields_error(members) is None <==> first_unknown(members) is None && members.len() == 6,
        first_unknown(members) is Some ==> fields_error(members)->0.message
            == "unknown role field: "@ + first_unknown(members)->0,
        is_role_field(name) <==> name == "nickname"@ || name == "description"@ || name
            == "instructions"@ || name == "model"@ || name == "allowed_tools"@ || name
            == "denied_tools"@,
{
    assert(members.push((name, value)).drop_last() =~= members);
}

} // verus!
