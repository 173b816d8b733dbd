//! What every entry point of the harness shares: its configuration, the guard on
//! results, the memory tool, and bringing a session back.
use vstd::prelude::*;
use crate::agent_loop::{AgentLoop, Phase};
use crate::chat_turn::EventSource;
use crate::exec_tool::{text_array_schema, text_member, typed};
use crate::held::Held;
use crate::inbox::empty_inbox;
use crate::json::{
    a_written_number_is_read_back, json_text, lemma_member_at, lemma_object_view, member_of,
    members_view, no_members, number_value, object, text_list, text_value, texts_of, uint_of,
    with_member, Json, JsonView,
};
use crate::loop_guard::LoopGuard;
use crate::model_provider::{
    calls_message, messages_view, plain_message, result_message, CallView, ChatMessage, ChatModel,
    MessageView, ToolCallRequest,
};
use crate::protocol::{
    error, one_member, outcome_json, ErrorCode, ErrorEnvelope, ErrorView, Event, MemoryScope,
    MemorySource, ModelCallSpec, ModelSurfaceEntry, ModelSurfaceMessage, ModelToolCall, OutcomeView,
    SequencedEvent, ToolOutcome,
};
use crate::result_guard::{ToolResultContext, ToolResultDecision, ToolResultMiddleware};
use crate::session::{recorded, Handed, SessionStore, StoredEvents};
use crate::text::{
    blank, byte_len, bytes_in, concat4, decimal, first_chars, is_blank,
    same_text, take_chars, views,
};
use crate::tools::{ToolAudit, ToolDispatcher, ToolExecution, ToolSpec};
use crate::url::{parse_url, parsed_view, url_of, UrlParts, UrlView};

verus! {

broadcast use vstd::string::group_string_axioms;

/// The size above which a result is replaced by a preview.
pub const DEFAULT_RESULT_BYTES: usize = 262144;

pub const DEFAULT_LOOP_REMIND_AFTER: u32 = 3;

pub const DEFAULT_LOOP_REJECT_AFTER: u32 = 8;

/// How many characters of a replaced result are kept.
pub const RESULT_PREVIEW_CHARS: usize = 2000;

// ---------------------------------------------------------------------------
// Configuration
// ---------------------------------------------------------------------------

/// The configuration as it was given.
#[derive(Debug, PartialEq, Eq, Clone)]
pub struct HostConfig {
    pub base_url: String,
    pub model: String,
    pub fetch_allow: Vec<String>,
    pub workspace: String,
    pub plugin_root: Option<String>,
}

/// The configuration once it is known to be usable; its paths are canonical.
#[derive(Debug, PartialEq, Eq, Clone)]
pub struct ValidatedHostConfig {
    pub base_url: String,
    pub model: String,
    pub fetch_allow: Vec<String>,
    pub workspace: String,
    pub plugin_root: Option<String>,
}

/// Why a path cannot be used.
pub open spec fn path_error(what: Seq<char>, path: Seq<char>, e: Seq<char>) -> Seq<char> {
    what + " does not exist or is inaccessible: "@ + path + " ("@ + e + ")"@
}

/// Why a provider cannot be used, given how its URL was parsed.
pub open spec fn provider_error(parsed: Result<UrlView, Seq<char>>) -> Option<Seq<char>> {
    match parsed {
        Err(e) => Some(e),
        Ok(url) => if url.scheme != "https"@ || url.host is None {
            Some("provider base_url must be an https URL with a host"@)
        } else {
            None
        },
    }
}

pub fn check_provider(parsed: &Result<UrlParts, String>) -> (r: Result<(), String>)
    ensures
        match r {
            Ok(()) => provider_error(parsed_view(*parsed)) is None,
            Err(e) => provider_error(parsed_view(*parsed)) == Some(e@),
        },
{
    match parsed {
        Err(e) => Err(e.clone()),
        Ok(url) => {
            if !same_text(&url.scheme, "https") || url.host.is_none() {
                Err("provider base_url must be an https URL with a host".to_string())
            } else {
                Ok(())
            }
        },
    }
}

/// The first thing that is wrong with a configuration, given how its paths and its
/// URL came out.
pub open spec fn config_error(
    c: HostConfig,
    workspace: Result<String, String>,
    parsed: Result<UrlView, Seq<char>>,
    plugin_root: Result<String, String>,
) -> Option<Seq<char>> {
    if workspace is Err {
        Some(path_error("workspace"@, c.workspace@, workspace->Err_0@))
    } else if provider_error(parsed) is Some {
        provider_error(parsed)
    } else if blank(c.model@) {
        Some("model must not be blank"@)
    } else if c.plugin_root is Some && plugin_root is Err {
        Some(path_error("plugin root"@, c.plugin_root->0@, plugin_root->Err_0@))
    } else {
        None
    }
}

fn bad_path(what: &str, path: &str, e: &str) -> (r: String)
    ensures
        r@ == path_error(what@, path@, e@),
{
    let head = concat4(what, " does not exist or is inaccessible: ", path, " (");
    let r = crate::text::concat3(&head, e, ")");
    assert(r@ =~= path_error(what@, path@, e@));
    r
}

impl HostConfig {
    /// The configuration of a start without arguments in a given directory.
    pub fn in_directory(workspace: String) -> (r: HostConfig)
        ensures
            r.base_url@ == "https://api.deepseek.com/v1"@,
            r.model@ == "deepseek-chat"@,
            r.fetch_allow@.len() == 0,
            r.workspace == workspace,
            r.plugin_root is None,
    {
        HostConfig {
            base_url: "https://api.deepseek.com/v1".to_string(),
            model: "deepseek-chat".to_string(),
            fetch_allow: Vec::new(),
            workspace,
            plugin_root: None,
        }
    }

    /// Checks a configuration. `workspace` and `plugin_root` are what the file system
    /// made of the two paths; the second counts only where there is a plugin root.
    pub fn validate(
        self,
        workspace: Result<String, String>,
        plugin_root: Result<String, String>,
    ) -> (r: Result<ValidatedHostConfig, String>)
        ensures
            ({
                let e = config_error(self, workspace, url_of(self.base_url@), plugin_root);
                match r {
                    Err(found) => e == Some(found@),
                    Ok(v) => {
                        &&& e is None
                        &&& v.base_url == self.base_url
                        &&& v.model == self.model
                        &&& v.fetch_allow == self.fetch_allow
                        &&& workspace == Ok::<String, String>(v.workspace)
                        &&& self.plugin_root is Some ==> v.plugin_root == Some(plugin_root->Ok_0)
                        &&& self.plugin_root is None ==> v.plugin_root is None
                    },
                }
            }),
    {
        let parsed = parse_url(&self.base_url);
        self.validate_with(workspace, &parsed, plugin_root)
    }

    /// Checks a configuration whose URL is parsed already.
    pub fn validate_with(
        self,
        workspace: Result<String, String>,
        parsed: &Result<UrlParts, String>,
        plugin_root: Result<String, String>,
    ) -> (r: Result<ValidatedHostConfig, String>)
        ensures
            ({
                let e = config_error(self, workspace, parsed_view(*parsed), plugin_root);
                match r {
                    Err(found) => e == Some(found@),
                    Ok(v) => {
                        &&& e is None
                        &&& v.base_url == self.base_url
                        &&& v.model == self.model
                        &&& v.fetch_allow == self.fetch_allow
                        &&& workspace == Ok::<String, String>(v.workspace)
                        &&& self.plugin_root is Some ==> v.plugin_root == Some(plugin_root->Ok_0)
                        &&& self.plugin_root is None ==> v.plugin_root is None
                    },
                }
            }),
    {
        let workspace = match workspace {
            Ok(workspace) => workspace,
            Err(e) => {
                return Err(bad_path("workspace", &self.workspace, &e));
            },
        };
        match check_provider(parsed) {
            Ok(()) => {},
            Err(e) => {
                return Err(e);
            },
        }
        if is_blank(&self.model) {
            return Err("model must not be blank".to_string());
        }
        let plugin_root = match self.plugin_root {
            None => None,
            Some(root) => match plugin_root {
                Ok(canonical) => Some(canonical),
                Err(e) => {
                    return Err(bad_path("plugin root", &root, &e));
                },
            },
        };
        Ok(
            ValidatedHostConfig {
                base_url: self.base_url,
                model: self.model,
                fetch_allow: self.fetch_allow,
                workspace,
                plugin_root,
            },
        )
    }
}

impl ValidatedHostConfig {
    /// How the model of the configuration is called.
    pub fn model_spec(&self) -> (r: ModelCallSpec)
        ensures
            r.model@ == self.model@,
            r.base_url@ == self.base_url@,
            r.temperature is None,
    {
        ModelCallSpec {
            model: self.model.clone(),
            base_url: self.base_url.clone(),
            temperature: None,
        }
    }
}

/// The loop guard of a production host.
pub fn default_loop_guard() -> (r: LoopGuard)
    ensures
        r.remind_after == DEFAULT_LOOP_REMIND_AFTER,
        r.reject_after == DEFAULT_LOOP_REJECT_AFTER,
{
    LoopGuard { remind_after: DEFAULT_LOOP_REMIND_AFTER, reject_after: DEFAULT_LOOP_REJECT_AFTER }
}

// ---------------------------------------------------------------------------
// The guard on results
// ---------------------------------------------------------------------------

/// Replaces results that are too large by a preview.
#[derive(Debug)]
pub struct ProductionResultMiddleware {
    max_result_bytes: usize,
}

/// The preview that stands for a result that is too large.
pub open spec fn preview_of(text: Seq<char>) -> JsonView {
    JsonView::Object(
        seq![
            ("original_bytes"@, JsonView::Number(decimal(byte_len(text)))),
            ("preview"@, JsonView::Text(first_chars(text, RESULT_PREVIEW_CHARS as nat))),
            ("truncated_by_result_guard"@, JsonView::Bool(true)),
        ],
    )
}

/// The replacement for a result, where one is due.
pub open spec fn replacement_for(outcome: OutcomeView, limit: nat) -> Option<OutcomeView> {
    match outcome {
        OutcomeView::Success { value } => if byte_len(json_text(value)) > limit {
            Some(OutcomeView::Success { value: preview_of(json_text(value)) })
        } else {
            None
        },
        OutcomeView::Failure { .. } => None,
    }
}

impl Default for ProductionResultMiddleware {
    fn default() -> (r: ProductionResultMiddleware)
        ensures
            r.limit() == DEFAULT_RESULT_BYTES,
    {
        ProductionResultMiddleware { max_result_bytes: DEFAULT_RESULT_BYTES }
    }
}

impl ProductionResultMiddleware {
    pub closed spec fn limit(&self) -> nat {
        self.max_result_bytes as nat
    }

    /// A guard with a limit of its own, which must not be zero.
    pub fn with_max_result_bytes(max_result_bytes: usize) -> (r: Result<
        ProductionResultMiddleware,
        String,
    >)
        ensures
            max_result_bytes == 0 ==> r is Err && r->Err_0@
                == "max_result_bytes must be greater than zero"@,
            max_result_bytes > 0 ==> r is Ok && r->Ok_0.limit() == max_result_bytes,
    {
        if max_result_bytes == 0 {
            return Err("max_result_bytes must be greater than zero".to_string());
        }
        Ok(ProductionResultMiddleware { max_result_bytes })
    }
}

impl ToolResultMiddleware for ProductionResultMiddleware {
    fn inspect(&self, context: &ToolResultContext) -> (r: Result<ToolResultDecision, ErrorEnvelope>)
        ensures
            r is Ok,
            match replacement_for(context.outcome@, self.limit()) {
                None => r->Ok_0 is Allow,
                Some(o) => r->Ok_0 matches ToolResultDecision::Redact(found) && found@ == o,
            },
    {
        match context.outcome {
            ToolOutcome::Success { value } => {
                let serialized = value.render();
                let bytes: usize = bytes_in(&serialized);
                if bytes > self.max_result_bytes {
                    let preview = take_chars(&serialized, RESULT_PREVIEW_CHARS);
                    let m = with_member(no_members(), "original_bytes", number_value(bytes as u64));
                    let m = with_member(m, "preview", Json::Text(preview));
                    let m = with_member(m, "truncated_by_result_guard", Json::Bool(true));
                    let replacement = object(m);
                    assert(replacement@->Object_0 =~= preview_of(serialized@)->Object_0);
                    return Ok(
                        ToolResultDecision::Redact(ToolOutcome::Success { value: replacement }),
                    );
                }
                Ok(ToolResultDecision::Allow)
            },
            ToolOutcome::Failure { .. } => Ok(ToolResultDecision::Allow),
        }
    }
}

/// A result within the limit is never touched, and a failure never is.
pub proof fn small_results_pass(value: JsonView, e: ErrorView, limit: nat)
    ensures
        byte_len(json_text(value)) <= limit ==> replacement_for(
            OutcomeView::Success { value },
            limit,
        ) is None,
        replacement_for(OutcomeView::Failure { error: e }, limit) is None,
{
}

// ---------------------------------------------------------------------------
// Tools
// ---------------------------------------------------------------------------

/// The limit on the size of a memory.
pub trait MemoryLimit {
    fn validate_memory_size(&self, text: &str) -> Result<(), ErrorEnvelope>;
}

/// Why the text of a memory is refused before its size is looked at.
pub open spec fn memory_text_error(args: JsonView) -> Option<ErrorView> {
    match text_member(args, "text"@) {
        None => Some(error(ErrorCode::ToolArgsInvalid, "missing string argument: text"@)),
        Some(text) => if blank(text) {
            Some(error(ErrorCode::ToolArgsInvalid, "memory text must not be empty"@))
        } else {
            None
        },
    }
}

/// The tags in the arguments.
pub open spec fn memory_tags(args: JsonView) -> Seq<Seq<char>> {
    match member_of(args, "tags"@) {
        Some(list) => texts_of(list),
        None => Seq::empty(),
    }
}

/// A run of the memory tool, given what was found of the size of its text.
pub open spec fn is_memory_run(
    args: JsonView,
    size: Result<(), ErrorEnvelope>,
    run: ToolExecution,
) -> bool {
    match memory_text_error(args) {
        Some(e) => run.outcome@ == (OutcomeView::Failure { error: e }) && run.audits@.len() == 0,
        None => match size {
            Err(e) => run.outcome@ == (OutcomeView::Failure { error: e@ }) && run.audits@.len()
                == 0,
            Ok(()) => {
                let text = text_member(args, "text"@)->0;
                &&& run.outcome@ == (OutcomeView::Success {
                    value: JsonView::Object(
                        seq![("recorded"@, JsonView::Bool(true)), ("text"@, JsonView::Text(text))],
                    ),
                })
                &&& run.audits@.len() == 1
                &&& run.audits@[0] matches ToolAudit::MemoryRecorded { text: kept, tags, source, scope } && {
                    &&& source == MemorySource::Model
                    &&& scope == MemoryScope::LineageOnly
                    &&& kept@ == text
                    &&& views(tags@) == memory_tags(args)
                }
            },
        },
    }
}

fn memory_text(args: &Json) -> (r: Result<String, ErrorEnvelope>)
    ensures
        match r {
            Err(e) => memory_text_error(args@) == Some(e@),
            Ok(text) => memory_text_error(args@) is None && text_member(args@, "text"@) == Some(
                text@,
            ),
        },
{
    match args.get("text") {
        Some(Json::Text(text)) => {
            if is_blank(text) {
                Err(ErrorEnvelope::of(ErrorCode::ToolArgsInvalid, "memory text must not be empty"))
            } else {
                Ok(text.clone())
            }
        },
        _ => Err(ErrorEnvelope::of(ErrorCode::ToolArgsInvalid, "missing string argument: text")),
    }
}

/// Runs the memory tool on a text whose size was looked at already.
pub fn memory_execution(args: &Json, size: Result<(), ErrorEnvelope>) -> (r: ToolExecution)
    ensures
        is_memory_run(args@, size, r),
{
    let text = match memory_text(args) {
        Ok(text) => text,
        Err(error) => {
            return ToolExecution::new(ToolOutcome::Failure { error });
        },
    };
    match size {
        Err(error) => {
            return ToolExecution::new(ToolOutcome::Failure { error });
        },
        Ok(()) => {},
    }
    let tags = match args.get("tags") {
        Some(list) => list.texts(),
        None => {
            let none: Vec<String> = Vec::new();
            assert(views(none@) =~= Seq::empty());
            none
        },
    };
    let m = with_member(no_members(), "recorded", Json::Bool(true));
    let m = with_member(m, "text", Json::Text(text.clone()));
    let value = object(m);
    assert(value@->Object_0 =~= seq![
        ("recorded"@, JsonView::Bool(true)),
        ("text"@, JsonView::Text(text@)),
    ]);
    let mut audits: Vec<ToolAudit> = Vec::new();
    audits.push(
        ToolAudit::MemoryRecorded {
            text,
            tags,
            source: MemorySource::Model,
            scope: MemoryScope::LineageOnly,
        },
    );
    ToolExecution { outcome: ToolOutcome::Success { value }, audits }
}

/// Runs the memory tool.
pub fn memory_write<M: MemoryLimit>(args: &Json, limit: &M) -> (r: ToolExecution)
    ensures
        memory_text_error(args@) matches Some(e) ==> r.outcome@ == (OutcomeView::Failure {
            error: e,
        }) && r.audits@.len() == 0,
        memory_text_error(args@) is None ==> exists|text: &str, size: Result<(), ErrorEnvelope>|
            {
                &&& text_member(args@, "text"@) == Some(text@)
                &&& #[trigger] call_ensures(M::validate_memory_size, (limit, text), size)
                &&& is_memory_run(args@, size, r)
            },
{
    match memory_text(args) {
        Err(error) => ToolExecution::new(ToolOutcome::Failure { error }),
        Ok(owned) => {
            let text = owned.as_str();
            let size = limit.validate_memory_size(text);
            assert(call_ensures(M::validate_memory_size, (limit, text), size));
            memory_execution(args, size)
        },
    }
}

/// The schema of an object whose only required member is a text.
pub open spec fn required_text(name: Seq<char>, properties: JsonView) -> JsonView {
    JsonView::Object(
        seq![
            ("properties"@, properties),
            ("required"@, JsonView::Array(seq![JsonView::Text(name)])),
            ("type"@, JsonView::Text("object"@)),
        ],
    )
}

fn required_text_schema(name: &str, properties: Json) -> (r: Json)
    ensures
        r@ == required_text(name@, properties@),
{
    let m = with_member(no_members(), "properties", properties);
    let m = with_member(m, "required", text_list(name));
    let m = with_member(m, "type", text_value("object"));
    let r = object(m);
    assert(r@->Object_0 =~= required_text(name@, properties@)->Object_0);
    r
}

/// The memory tool as it is registered.
pub fn memory_tool_spec() -> (r: ToolSpec)
    ensures
        r.name@ == "memory_write"@,
        r.description@ == "把一条跨会话记忆事实写入事件流（会随 resume/fork 重放恢复）"@,
        r.parameters_schema@ == required_text(
            "text"@,
            JsonView::Object(
                seq![
                    (
                        "tags"@,
                        JsonView::Object(
                            seq![
                                ("items"@, typed("string"@)),
                                ("type"@, JsonView::Text("array"@)),
                            ],
                        ),
                    ),
                    ("text"@, typed("string"@)),
                ],
            ),
        ),
        !r.escalation_capable,
        r.timeout_ms is None,
{
    let m = with_member(no_members(), "tags", text_array_schema());
    let m = with_member(m, "text", one_member("type", text_value("string")));
    let properties = object(m);
    assert(properties@->Object_0 =~= seq![
        (
            "tags"@,
            JsonView::Object(
                seq![("items"@, typed("string"@)), ("type"@, JsonView::Text("array"@))],
            ),
        ),
        ("text"@, typed("string"@)),
    ]);
    ToolSpec {
        name: "memory_write".to_string(),
        description: "把一条跨会话记忆事实写入事件流（会随 resume/fork 重放恢复）".to_string(),
        parameters_schema: required_text_schema("text", properties),
        escalation_capable: false,
        timeout_ms: None,
    }
}

/// A tool with a text parameter as it is registered.
pub fn text_tool_spec(name: &str, description: &str, parameter: &str) -> (r: ToolSpec)
    ensures
        r.name@ == name@,
        r.description@ == description@,
        r.parameters_schema@ == required_text(
            parameter@,
            JsonView::Object(seq![(parameter@, typed("string"@))]),
        ),
        !r.escalation_capable,
        r.timeout_ms is None,
{
    let properties = one_member(parameter, one_member("type", text_value("string")));
    ToolSpec {
        name: name.to_owned(),
        description: description.to_owned(),
        parameters_schema: required_text_schema(parameter, properties),
        escalation_capable: false,
        timeout_ms: None,
    }
}

/// A run of the echo tool: it gives its text back.
pub fn echo_outcome(args: &Json) -> (r: ToolOutcome)
    ensures
        r@ == (OutcomeView::Success {
            value: JsonView::Object(
                seq![
                    (
                        "echoed"@,
                        match member_of(args@, "text"@) {
                            Some(text) => text,
                            None => JsonView::Null,
                        },
                    ),
                ],
            ),
        }),
{
    let echoed = match args.get("text") {
        Some(text) => text.clone(),
        None => Json::Null,
    };
    ToolOutcome::Success { value: one_member("echoed", echoed) }
}

/// A tool as the model is told of it. Its parameters may fail to be worked out.
#[derive(Debug)]
pub struct AdvertisedTool {
    pub name: String,
    pub description: String,
    pub parameters: Result<Json, ErrorEnvelope>,
}

/// What a call says to ask for a wider sandbox mode: which one, and why.
pub open spec fn escalation_members() -> Seq<(Seq<char>, JsonView)> {
    seq![("justification"@, typed("string"@)), ("sandbox_permissions"@, typed("string"@))]
}

/// The properties of a schema, with those of an escalation after them.
pub open spec fn widened_member(member: (Seq<char>, JsonView)) -> (Seq<char>, JsonView) {
    match member.1 {
        JsonView::Object(properties) => if member.0 == "properties"@ {
            (member.0, JsonView::Object(properties + escalation_members()))
        } else {
            member
        },
        _ => member,
    }
}

/// A schema whose calls may ask for a wider sandbox mode.
pub open spec fn with_escalation(schema: JsonView) -> JsonView {
    match schema {
        JsonView::Object(members) => JsonView::Object(
            members.map_values(|m: (Seq<char>, JsonView)| widened_member(m)),
        ),
        _ => schema,
    }
}

fn copied_members(members: &Vec<(String, Json)>) -> (r: Vec<(String, Json)>)
    ensures
        members_view(r@) == members_view(members@),
{
    let mut r: Vec<(String, Json)> = Vec::new();
    let mut i: usize = 0;
    assert(members_view(r@) =~= members_view(members@).take(0));
    while i < members.len()
        invariant
            i <= members@.len(),
            members_view(r@) == members_view(members@).take(i as int),
        decreases members@.len() - i,
    {
        r = with_member(r, &members[i].0, members[i].1.clone());
        i = i + 1;
        assert(members_view(r@) =~= members_view(members@).take(i as int));
    }
    assert(members_view(r@) =~= members_view(members@));
    r
}

fn widened(name: &str, value: &Json) -> (r: Json)
    ensures
        (name@, r@) == widened_member((name@, value@)),
{
    match value {
        Json::Object(properties) => {
            proof {
                lemma_object_view(*properties);
            }
            if same_text(name, "properties") {
                let m = copied_members(properties);
                let m = with_member(m, "justification", one_member("type", text_value("string")));
                let m = with_member(
                    m,
                    "sandbox_permissions",
                    one_member("type", text_value("string")),
                );
                assert(members_view(m@) =~= members_view(properties@) + escalation_members());
                object(m)
            } else {
                value.clone()
            }
        },
        _ => value.clone(),
    }
}

/// A tool for the model. One that can ask for a wider sandbox mode says so in its
/// parameters where there is a restricted backend to widen.
pub fn advertise(spec: &ToolSpec, restricted_backend: bool) -> (r: AdvertisedTool)
    ensures
        r.name@ == spec.name@,
        r.description@ == spec.description@,
        r.parameters matches Ok(parameters) && parameters@ == (if restricted_backend
            && spec.escalation_capable {
            with_escalation(spec.parameters_schema@)
        } else {
            spec.parameters_schema@
        }),
{
    let parameters = match &spec.parameters_schema {
        Json::Object(members) if restricted_backend && spec.escalation_capable => {
            let ghost widened_members = members_view(members@).map_values(
                |m: (Seq<char>, JsonView)| widened_member(m),
            );
            let mut m: Vec<(String, Json)> = Vec::new();
            let mut i: usize = 0;
            assert(members_view(m@) =~= widened_members.take(0));
            while i < members.len()
                invariant
                    i <= members@.len(),
                    widened_members == members_view(members@).map_values(
                        |m: (Seq<char>, JsonView)| widened_member(m),
                    ),
                    members_view(m@) == widened_members.take(i as int),
                decreases members@.len() - i,
            {
                let value = widened(&members[i].0, &members[i].1);
                assert(members_view(members@)[i as int] == (
                    members@[i as int].0@,
                    members@[i as int].1@,
                ));
                m = with_member(m, &members[i].0, value);
                i = i + 1;
                assert(members_view(m@) =~= widened_members.take(i as int));
            }
            assert(members_view(m@) =~= widened_members);
            proof {
                lemma_object_view(*members);
            }
            object(m)
        },
        schema => schema.clone(),
    };
    AdvertisedTool {
        name: spec.name.clone(),
        description: spec.description.clone(),
        parameters: Ok(parameters),
    }
}

/// Where tools are looked up by name.
pub trait ToolSource {
    fn advertised(&self, name: &str) -> Option<AdvertisedTool>;
}

/// The entry of a tool in the list for the model.
pub open spec fn tool_entry(
    name: Seq<char>,
    description: Seq<char>,
    parameters: JsonView,
) -> JsonView {
    JsonView::Object(
        seq![
            (
                "function"@,
                JsonView::Object(
                    seq![
                        ("description"@, JsonView::Text(description)),
                        ("name"@, JsonView::Text(name)),
                        ("parameters"@, parameters),
                    ],
                ),
            ),
            ("type"@, JsonView::Text("function"@)),
        ],
    )
}

/// The list for the model, or the error of the first tool that has one.
pub open spec fn tool_entries(found: Seq<AdvertisedTool>) -> Result<Seq<JsonView>, ErrorView>
    decreases found.len(),
{
    if found.len() == 0 {
        Ok(Seq::empty())
    } else {
        match tool_entries(found.drop_last()) {
            Err(e) => Err(e),
            Ok(entries) => match found.last().parameters {
                Err(e) => Err(e@),
                Ok(parameters) => Ok(
                    entries.push(
                        tool_entry(found.last().name@, found.last().description@, parameters@),
                    ),
                ),
            },
        }
    }
}

proof fn lemma_first_error(found: Seq<AdvertisedTool>, k: int)
    requires
        0 <= k <= found.len(),
        tool_entries(found.take(k)) is Err,
    ensures
        tool_entries(found) == tool_entries(found.take(k)),
    decreases found.len() - k,
{
    if k < found.len() {
        assert(found.take(k + 1).drop_last() =~= found.take(k));
        lemma_first_error(found, k + 1);
    } else {
        assert(found.take(k) =~= found);
    }
}

/// The list of tools for the model.
pub fn tools_json(found: Vec<AdvertisedTool>) -> (r: Result<Json, ErrorEnvelope>)
    ensures
        match r {
            Ok(list) => tool_entries(found@) is Ok && list@ == JsonView::Array(
                tool_entries(found@)->Ok_0,
            ),
            Err(e) => tool_entries(found@) == Err::<Seq<JsonView>, ErrorView>(e@),
        },
{
    let mut items: Vec<Json> = Vec::new();
    assert(found@.take(0) =~= Seq::empty());
    assert(crate::json::items_view(items@) =~= Seq::empty());
    let mut i: usize = 0;
    while i < found.len()
        invariant
            i <= found@.len(),
            tool_entries(found@.take(i as int)) == Ok::<Seq<JsonView>, ErrorView>(
                crate::json::items_view(items@),
            ),
        decreases found@.len() - i,
    {
        let ghost before = items@;
        let ghost next = found@.take(i + 1);
        assert(next.drop_last() =~= found@.take(i as int));
        assert(next.last() == found@[i as int]);
        let parameters = match &found[i].parameters {
            Ok(parameters) => parameters.clone(),
            Err(e) => {
                proof {
                    lemma_first_error(found@, i + 1);
                }
                return Err(e.clone());
            },
        };
        let m = with_member(no_members(), "description", text_value(&found[i].description));
        let m = with_member(m, "name", text_value(&found[i].name));
        let m = with_member(m, "parameters", parameters);
        let function = object(m);
        let m = with_member(no_members(), "function", function);
        let entry = object(with_member(m, "type", text_value("function")));
        proof {
            let expected = tool_entry(
                found@[i as int].name@,
                found@[i as int].description@,
                parameters@,
            );
            assert(function@->Object_0 =~= expected->Object_0[0].1->Object_0);
            assert(entry@->Object_0 =~= expected->Object_0);
        }
        items.push(entry);
        assert(crate::json::items_view(items@) =~= crate::json::items_view(before).push(entry@));
        i = i + 1;
    }
    assert(found@.take(found@.len() as int) =~= found@);
    proof {
        crate::json::lemma_array_view(items);
    }
    Ok(Json::Array(items))
}

/// The tools among a list of answers.
pub open spec fn present(answers: Seq<Option<AdvertisedTool>>) -> Seq<AdvertisedTool>
    decreases answers.len(),
{
    if answers.len() == 0 {
        Seq::empty()
    } else {
        match answers.last() {
            Some(tool) => present(answers.drop_last()).push(tool),
            None => present(answers.drop_last()),
        }
    }
}

/// Whether `answer` is what the source gives for a name.
pub open spec fn is_answer<T: ToolSource>(
    source: &T,
    name: Seq<char>,
    answer: Option<AdvertisedTool>,
) -> bool {
    exists|text: &str|
        text@ == name && #[trigger] call_ensures(T::advertised, (source, text), answer)
}

/// Whether `answers` are what the source gives for the names, one by one.
pub open spec fn are_answers<T: ToolSource>(
    source: &T,
    names: Seq<Seq<char>>,
    answers: Seq<Option<AdvertisedTool>>,
) -> bool {
    &&& answers.len() == names.len()
    &&& forall|i: int|
        0 <= i < names.len() ==> is_answer(source, #[trigger] names[i], answers[i])
}

/// The list for the model of the tools with the given names, in the order of the
/// names; unknown names are left out.
pub fn openai_tools_json<T: ToolSource>(source: &T, names: &Vec<String>) -> (r: Result<
    Json,
    ErrorEnvelope,
>)
    ensures
        exists|answers: Seq<Option<AdvertisedTool>>|
            #[trigger] are_answers(source, views(names@), answers) && match r {
                Ok(list) => tool_entries(present(answers)) is Ok && list@ == JsonView::Array(
                    tool_entries(present(answers))->Ok_0,
                ),
                Err(e) => tool_entries(present(answers)) == Err::<Seq<JsonView>, ErrorView>(e@),
            },
{
    let mut found: Vec<AdvertisedTool> = Vec::new();
    let ghost mut answers: Seq<Option<AdvertisedTool>> = Seq::empty();
    let ghost all = views(names@);
    let mut i: usize = 0;
    while i < names.len()
        invariant
            i <= names@.len(),
            all == views(names@),
            answers.len() == i,
            found@ == present(answers),
            forall|j: int| 0 <= j < i ==> is_answer(source, #[trigger] all[j], answers[j]),
        decreases names@.len() - i,
    {
        let name = names[i].as_str();
        let tool = source.advertised(name);
        proof {
            assert(call_ensures(T::advertised, (source, name), tool));
            assert(all[i as int] == name@);
            assert(is_answer(source, all[i as int], tool));
            let next = answers.push(tool);
            assert(next.drop_last() =~= answers);
            answers = next;
        }
        match tool {
            Some(tool) => {
                found.push(tool);
            },
            None => {},
        }
        i = i + 1;
    }
    assert(are_answers(source, all, answers));
    tools_json(found)
}

// ---------------------------------------------------------------------------
// Bringing a session back
// ---------------------------------------------------------------------------

/// The memories of a session as the model is told of them.
pub trait MemorySummary {
    /// The summary; nothing where there are no memories.
    fn injection_summary(&self, events: &Vec<SequencedEvent>) -> Result<Option<String>, String>;
}

/// Whether a summary was injected before.
pub open spec fn injected(log: Seq<Event>, summary: Seq<char>) -> bool {
    exists|i: int|
        0 <= i < log.len() && (#[trigger] log[i] matches Event::MemoryContextInjected {
            summary: s,
        } && s@ == summary)
}

fn already_injected(records: &Vec<SequencedEvent>, summary: &str) -> (r: bool)
    ensures
        r == injected(recorded(records@), summary@),
{
    let ghost log = recorded(records@);
    let mut i: usize = 0;
    while i < records.len()
        invariant
            i <= records@.len(),
            log == recorded(records@),
            forall|j: int|
                0 <= j < i ==> !(#[trigger] log[j] matches Event::MemoryContextInjected {
                    summary: s,
                } && s@ == summary@),
        decreases records@.len() - i,
    {
        assert(log[i as int] == records@[i as int].event);
        match &records[i].event {
            Event::MemoryContextInjected { summary: existing } => {
                if same_text(existing, summary) {
                    return true;
                }
            },
            _ => {},
        }
        i = i + 1;
    }
    false
}

/// Injects a summary that was not injected before, and says whether it did.
pub fn inject_summary<S: SessionStore>(session: &mut S, summary: Option<String>) -> (r: Result<
    bool,
    String,
>)
    ensures
        final(session).intact() ==> old(session).intact(),
        !(r matches Ok(true)) ==> final(session).events() == old(session).events(),
        r matches Ok(true) ==> {
            let log = final(session).events();
            &&& summary is Some && !injected(old(session).events(), summary->0@)
            &&& log == old(session).events().push(log.last())
            &&& log.last() matches Event::MemoryContextInjected { summary: s } && s@ == summary->0@
            &&& injected(log, summary->0@)
        },
        r matches Ok(done) ==> injected_to(
            old(session).events(),
            summary,
            final(session).events(),
            done,
        ),
        if summary is Some && !injected(old(session).events(), summary->0@) {
            injection_answered(old(session).handed(), final(session).handed(), summary->0@, r)
        } else {
            r == Ok::<bool, String>(false) && final(session).handed() == old(session).handed()
        },
{
    let summary = match summary {
        Some(summary) => summary,
        None => {
            return Ok(false);
        },
    };
    match session.replay_events() {
        Err(e) => {
            return Err(e);
        },
        Ok(records) => {
            if already_injected(records, &summary) {
                return Ok(false);
            }
        },
    }
    match session.append(Event::MemoryContextInjected { summary }) {
        Ok(_) => {
            proof {
                let log = session.events();
                assert(log[log.len() - 1] == log.last());
            }
            Ok(true)
        },
        Err(e) => Err(e),
    }
}

/// A summary was handed to the session, and the answer of the session is the result.
pub open spec fn injection_answered(
    before: Seq<Handed>,
    after: Seq<Handed>,
    summary: Seq<char>,
    r: Result<bool, String>,
) -> bool {
    &&& after == before.push(after.last())
    &&& after.last().event matches Event::MemoryContextInjected { summary: s } && s@ == summary
    &&& match after.last().refused {
        None => r == Ok::<bool, String>(true),
        Some(detail) => r is Err && r->Err_0@ == detail,
    }
}

/// What becomes of a stream when the summary of its memories was looked up: it is added
/// where there is one and it was not added before. `done` says whether it was.
pub open spec fn injected_to(
    before: Seq<Event>,
    summary: Option<String>,
    after: Seq<Event>,
    done: bool,
) -> bool {
    &&& done <==> summary is Some && !injected(before, summary->0@)
    &&& if done {
        &&& after == before.push(after.last())
        &&& after.last() matches Event::MemoryContextInjected { summary: s } && s@ == summary->0@
    } else {
        after == before
    }
}

/// A summary that was looked up once is in the stream, and is not added again.
pub proof fn a_summary_is_injected_once(
    before: Seq<Event>,
    summary: String,
    after: Seq<Event>,
    done: bool,
    again: Seq<Event>,
    done_again: bool,
)
    requires
        injected_to(before, Some(summary), after, done),
        injected_to(after, Some(summary), again, done_again),
    ensures
        injected(after, summary@),
        !done_again,
        again == after,
{
    if done {
        assert(after[after.len() - 1] == after.last());
    }
}

/// `found` is what `memories` made of the stream `log`.
pub open spec fn memories_found<M: MemorySummary>(
    memories: &M,
    log: Seq<Event>,
    found: Result<Option<String>, String>,
) -> bool {
    exists|events: &Vec<SequencedEvent>|
        recorded(events@) == log && #[trigger] call_ensures(
            M::injection_summary,
            (memories, events),
            found,
        )
}

/// Injects the summary of the memories of a session unless it was injected before,
/// and says whether it did.
pub fn inject_memories<S: SessionStore, M: MemorySummary>(session: &mut S, memories: &M) -> (r:
    Result<bool, String>)
    ensures
        final(session).intact() ==> old(session).intact(),
        !(r matches Ok(true)) ==> final(session).events() == old(session).events(),
        r matches Ok(true) ==> {
            let log = final(session).events();
            &&& log == old(session).events().push(log.last())
            &&& log.last() matches Event::MemoryContextInjected { summary } && !injected(
                old(session).events(),
                summary@,
            )
        },
        exists|found: Result<Option<String>, String>|
            {
                &&& #[trigger] memories_found(memories, old(session).events(), found)
                &&& match found {
                    Err(e) => r == Err::<bool, String>(e) && final(session).handed() == old(
                        session,
                    ).handed(),
                    Ok(summary) => {
                        &&& r is Ok ==> injected_to(
                            old(session).events(),
                            summary,
                            final(session).events(),
                            r->Ok_0,
                        )
                        &&& if summary is Some && !injected(old(session).events(), summary->0@) {
                            injection_answered(
                                old(session).handed(),
                                final(session).handed(),
                                summary->0@,
                                r,
                            )
                        } else {
                            r == Ok::<bool, String>(false) && final(session).handed() == old(
                                session,
                            ).handed()
                        }
                    },
                }
            },
{
    let ghost log = session.events();
    let found = match session.replay_events() {
        Err(e) => {
            return Err(e);
        },
        Ok(records) => {
            let found = memories.injection_summary(records);
            assert(call_ensures(M::injection_summary, (memories, records), found));
            found
        },
    };
    assert(memories_found(memories, log, found));
    match found {
        Err(e) => Err(e),
        Ok(summary) => inject_summary(session, summary),
    }
}

/// The turn that started last.
pub open spec fn last_start(log: Seq<Event>) -> Option<u64>
    decreases log.len(),
{
    if log.len() == 0 {
        None
    } else {
        match log.last() {
            Event::TurnStarted { turn_id } => Some(turn_id),
            _ => last_start(log.drop_last()),
        }
    }
}

/// Whether an event ends a turn.
pub open spec fn ends(e: Event, turn: u64) -> bool {
    ||| (e matches Event::TurnCompleted { turn_id } && turn_id == turn)
    ||| (e matches Event::TurnAborted { turn_id, .. } && turn_id == turn)
}

/// Whether a turn has an end in a stream.
pub open spec fn finished(log: Seq<Event>, turn: u64) -> bool {
    exists|i: int| 0 <= i < log.len() && ends(#[trigger] log[i], turn)
}

/// The turn that started last and has no end.
pub open spec fn dangling(log: Seq<Event>) -> Option<u64> {
    match last_start(log) {
        None => None,
        Some(turn) => if finished(log, turn) {
            None
        } else {
            Some(turn)
        },
    }
}

/// What becomes of a stream when it is brought back: a turn that was cut off is aborted.
pub open spec fn recovered_to(before: Seq<Event>, after: Seq<Event>) -> bool {
    match dangling(before) {
        None => after == before,
        Some(turn) => {
            &&& after == before.push(after.last())
            &&& is_recovery(after.last(), turn)
        },
    }
}

/// The end of a turn that was cut off.
pub open spec fn is_recovery(e: Event, turn: u64) -> bool {
    e matches Event::TurnAborted { turn_id, reason } && turn_id == turn && reason@
        == "interrupted: session reopened"@
}

/// The end of a turn that was cut off was handed to the session, and the answer of the
/// session is the result.
pub open spec fn recovery_answered(
    before: Seq<Handed>,
    after: Seq<Handed>,
    turn: u64,
    r: Result<bool, String>,
) -> bool {
    &&& after == before.push(after.last())
    &&& is_recovery(after.last().event, turn)
    &&& match after.last().refused {
        None => r == Ok::<bool, String>(true),
        Some(detail) => r is Err && r->Err_0@ == detail,
    }
}

fn find_dangling(records: &Vec<SequencedEvent>) -> (r: Option<u64>)
    ensures
        r == dangling(recorded(records@)),
{
    let ghost log = recorded(records@);
    let mut started: Option<u64> = None;
    let mut i: usize = 0;
    assert(log.take(0) =~= Seq::empty());
    while i < records.len()
        invariant
            i <= records@.len(),
            log == recorded(records@),
            started == last_start(log.take(i as int)),
        decreases records@.len() - i,
    {
        let ghost next = log.take(i + 1);
        assert(next.drop_last() =~= log.take(i as int));
        assert(next.last() == records@[i as int].event);
        match &records[i].event {
            Event::TurnStarted { turn_id } => {
                started = Some(*turn_id);
            },
            _ => {},
        }
        i = i + 1;
    }
    assert(log.take(log.len() as int) =~= log);
    let turn: u64 = match started {
        None => {
            return None;
        },
        Some(turn) => turn,
    };
    let mut j: usize = 0;
    while j < records.len()
        invariant
            j <= records@.len(),
            log == recorded(records@),
            last_start(log) == Some(turn),
            forall|k: int| 0 <= k < j ==> !ends(#[trigger] log[k], turn),
        decreases records@.len() - j,
    {
        assert(log[j as int] == records@[j as int].event);
        let ended = match &records[j].event {
            Event::TurnCompleted { turn_id } => *turn_id == turn,
            Event::TurnAborted { turn_id, .. } => *turn_id == turn,
            _ => false,
        };
        if ended {
            assert(ends(log[j as int], turn));
            return None;
        }
        j = j + 1;
    }
    Some(turn)
}

/// Ends a turn that was cut off when the session was last used, and says whether
/// there was one.
pub fn recover_dangling_turn<S: SessionStore>(session: &mut S) -> (r: Result<bool, String>)
    ensures
        final(session).intact() ==> old(session).intact(),
        !(r matches Ok(true)) ==> final(session).events() == old(session).events(),
        r matches Ok(done) ==> {
            &&& done <==> dangling(old(session).events()) is Some
            &&& recovered_to(old(session).events(), final(session).events())
        },
        match dangling(old(session).events()) {
            None => r == Ok::<bool, String>(false) && final(session).handed() == old(
                session,
            ).handed(),
            Some(turn) => recovery_answered(
                old(session).handed(),
                final(session).handed(),
                turn,
                r,
            ),
        },
        r is Ok ==> dangling(final(session).events()) is None,
{
    let turn = match session.replay_events() {
        Err(e) => {
            return Err(e);
        },
        Ok(records) => find_dangling(records),
    };
    match turn {
        None => Ok(false),
        Some(turn_id) => {
            let ghost before = session.events();
            let end = Event::TurnAborted {
                turn_id,
                reason: "interrupted: session reopened".to_string(),
            };
            match session.append(end) {
                Ok(_) => {
                    proof {
                        an_aborted_turn_no_longer_dangles(before, turn_id, end);
                    }
                    Ok(true)
                },
                Err(e) => Err(e),
            }
        },
    }
}

/// Once the cut-off turn has its end, nothing is left to recover: a second recovery
/// does nothing.
pub proof fn an_aborted_turn_no_longer_dangles(log: Seq<Event>, turn: u64, end: Event)
    requires
        dangling(log) == Some(turn),
        ends(end, turn),
    ensures
        dangling(log.push(end)) is None,
{
    let next = log.push(end);
    assert(next.drop_last() =~= log);
    assert(next.last() == end);
    assert(last_start(next) == Some(turn));
    assert(ends(next[log.len() as int], turn));
}

/// The message for the model of an entry of the conversation.
pub open spec fn surface_message(m: ModelSurfaceMessage) -> MessageView {
    match m {
        ModelSurfaceMessage::SystemSummary { text } => plain_message("system"@, text@),
        ModelSurfaceMessage::User { text } => plain_message("user"@, text@),
        ModelSurfaceMessage::Assistant { text } => plain_message("assistant"@, text@),
        ModelSurfaceMessage::AssistantToolCalls { calls, .. } => calls_message(
            calls@.map_values(|c: ModelToolCall| requested_call(c)),
        ),
        ModelSurfaceMessage::ToolResult { call_id, outcome } => result_message(
            call_id@,
            json_text(outcome_json(outcome@)),
        ),
    }
}

pub open spec fn requested_call(c: ModelToolCall) -> CallView {
    CallView { id: c.id@, name: c.name@, arguments: c.arguments@ }
}

pub fn message_of(m: &ModelSurfaceMessage) -> (r: ChatMessage)
    ensures
        r@ == surface_message(*m),
{
    match m {
        ModelSurfaceMessage::SystemSummary { text } => ChatMessage::system(text.clone()),
        ModelSurfaceMessage::User { text } => ChatMessage::user(text.clone()),
        ModelSurfaceMessage::Assistant { text } => ChatMessage::assistant(text.clone()),
        ModelSurfaceMessage::AssistantToolCalls { calls, .. } => {
            let mut requests: Vec<ToolCallRequest> = Vec::new();
            let ghost expected = calls@.map_values(|c: ModelToolCall| requested_call(c));
            let mut i: usize = 0;
            while i < calls.len()
                invariant
                    i <= calls@.len(),
                    requests@.len() == i,
                    expected == calls@.map_values(|c: ModelToolCall| requested_call(c)),
                    forall|j: int| 0 <= j < i ==> (#[trigger] requests@[j])@ == expected[j],
                decreases calls@.len() - i,
            {
                requests.push(
                    ToolCallRequest {
                        id: calls[i].id.clone(),
                        name: calls[i].name.clone(),
                        arguments: calls[i].arguments.clone(),
                    },
                );
                i = i + 1;
            }
            assert(crate::model_provider::calls_view(requests@) =~= expected);
            ChatMessage::assistant_with_tool_calls(requests)
        },
        ModelSurfaceMessage::ToolResult { call_id, outcome } => ChatMessage::tool_result(
            call_id.clone(),
            outcome.to_json().render(),
        ),
    }
}

/// Why a conversation cannot be rebuilt.
pub open spec fn projection_error(e: ErrorView) -> Seq<char> {
    "model surface projection failed ("@ + variant_name(e.code) + "): "@ + e.message
}

/// The name of a code in the source.
pub open spec fn variant_name(code: ErrorCode) -> Seq<char> {
    match code {
        ErrorCode::ToolArgsInvalid => "ToolArgsInvalid"@,
        ErrorCode::SandboxDenied => "SandboxDenied"@,
        ErrorCode::ApprovalRejected => "ApprovalRejected"@,
        ErrorCode::ContextWindowExceeded => "ContextWindowExceeded"@,
        ErrorCode::ModelStreamBroken => "ModelStreamBroken"@,
        ErrorCode::SubagentCancelled => "SubagentCancelled"@,
        ErrorCode::SessionNotFound => "SessionNotFound"@,
        ErrorCode::CursorInvalid => "CursorInvalid"@,
        ErrorCode::TeamRevisionConflict => "TeamRevisionConflict"@,
        ErrorCode::TeamDependencyCycle => "TeamDependencyCycle"@,
        ErrorCode::ToolTimeout => "ToolTimeout"@,
        ErrorCode::ToolLoopDetected => "ToolLoopDetected"@,
        ErrorCode::FileRevisionConflict => "FileRevisionConflict"@,
        ErrorCode::Internal => "Internal"@,
    }
}

fn variant_text(code: ErrorCode) -> (r: &'static str)
    ensures
        r@ == variant_name(code),
{
    match code {
        ErrorCode::ToolArgsInvalid => "ToolArgsInvalid",
        ErrorCode::SandboxDenied => "SandboxDenied",
        ErrorCode::ApprovalRejected => "ApprovalRejected",
        ErrorCode::ContextWindowExceeded => "ContextWindowExceeded",
        ErrorCode::ModelStreamBroken => "ModelStreamBroken",
        ErrorCode::SubagentCancelled => "SubagentCancelled",
        ErrorCode::SessionNotFound => "SessionNotFound",
        ErrorCode::CursorInvalid => "CursorInvalid",
        ErrorCode::TeamRevisionConflict => "TeamRevisionConflict",
        ErrorCode::TeamDependencyCycle => "TeamDependencyCycle",
        ErrorCode::ToolTimeout => "ToolTimeout",
        ErrorCode::ToolLoopDetected => "ToolLoopDetected",
        ErrorCode::FileRevisionConflict => "FileRevisionConflict",
        ErrorCode::Internal => "Internal",
    }
}

/// Rebuilds the conversation from what the event stream was projected to.
pub fn rebuild_history(projected: Result<Vec<ModelSurfaceEntry>, ErrorEnvelope>) -> (r: Result<
    Vec<ChatMessage>,
    String,
>)
    ensures
        match projected {
            Err(e) => r is Err && r->Err_0@ == projection_error(e@),
            Ok(entries) => r is Ok && messages_view(r->Ok_0@) == entries@.map_values(
                |entry: ModelSurfaceEntry| surface_message(entry.message),
            ),
        },
{
    let entries = match projected {
        Ok(entries) => entries,
        Err(e) => {
            return Err(
                concat4(
                    "model surface projection failed (",
                    variant_text(e.code),
                    "): ",
                    &e.message,
                ),
            );
        },
    };
    let ghost expected = entries@.map_values(
        |entry: ModelSurfaceEntry| surface_message(entry.message),
    );
    let mut history: Vec<ChatMessage> = Vec::new();
    let mut i: usize = 0;
    while i < entries.len()
        invariant
            i <= entries@.len(),
            history@.len() == i,
            expected == entries@.map_values(
                |entry: ModelSurfaceEntry| surface_message(entry.message),
            ),
            forall|j: int| 0 <= j < i ==> (#[trigger] history@[j])@ == expected[j],
        decreases entries@.len() - i,
    {
        history.push(message_of(&entries[i].message));
        i = i + 1;
    }
    assert(messages_view(history@) =~= expected);
    Ok(history)
}

/// What the model sees of an event stream.
pub trait SurfaceProjection {
    fn project_model_surface(&self, events: &Vec<SequencedEvent>) -> Result<
        Vec<ModelSurfaceEntry>,
        ErrorEnvelope,
    >;
}

/// What was brought back of a session.
#[derive(Debug)]
pub struct PreparedSession {
    pub history: Vec<ChatMessage>,
    pub recovered_dangling_turn: bool,
    pub memories_injected: bool,
}

/// Brings a session back: a turn that was cut off gets its end, memories that are new
/// are injected, and the conversation is rebuilt from what the stream is then.
pub fn prepare_session<S: SessionStore, M: MemorySummary, P: SurfaceProjection>(
    session: &mut S,
    memories: &M,
    projection: &P,
) -> (r: Result<PreparedSession, String>)
    ensures
        final(session).intact() ==> old(session).intact(),
        r matches Ok(prepared) ==> {
            let before = old(session).events();
            let after = final(session).events();
            &&& prepared.recovered_dangling_turn <==> dangling(before) is Some
            &&& dangling(after) is None
            &&& after.len() == before.len() + (if prepared.recovered_dangling_turn {
                1int
            } else {
                0
            }) + (if prepared.memories_injected {
                1int
            } else {
                0
            })
            &&& before.is_prefix_of(after)
            &&& exists|middle: Seq<Event>, found: Option<String>|
                {
                    &&& #[trigger] memories_found(
                        memories,
                        middle,
                        Ok::<Option<String>, String>(found),
                    )
                    &&& recovered_to(before, middle)
                    &&& injected_to(middle, found, after, prepared.memories_injected)
                }
            &&& exists|events: &Vec<SequencedEvent>, entries: Vec<ModelSurfaceEntry>|
                {
                    &&& recorded(events@) == after
                    &&& #[trigger] call_ensures(
                        P::project_model_surface,
                        (projection, events),
                        Ok::<Vec<ModelSurfaceEntry>, ErrorEnvelope>(entries),
                    )
                    &&& messages_view(prepared.history@) == entries@.map_values(
                        |entry: ModelSurfaceEntry| surface_message(entry.message),
                    )
                }
        },
        r is Err ==> {
            let before = old(session).events();
            let after = final(session).events();
            ||| dangling(before) is Some && recovery_answered(
                old(session).handed(),
                final(session).handed(),
                dangling(before)->0,
                Err(r->Err_0),
            )
            ||| exists|found: String, middle: Seq<Handed>|
                {
                    &&& memories_found(memories, after, Ok::<Option<String>, String>(Some(found)))
                    &&& recovered_to(before, after)
                    &&& !injected(after, found@)
                    &&& #[trigger] injection_answered(
                        middle,
                        final(session).handed(),
                        found@,
                        Err(r->Err_0),
                    )
                }
            ||| recovered_to(before, after) && memories_found(
                memories,
                after,
                Err::<Option<String>, String>(r->Err_0),
            )
            ||| exists|
                middle: Seq<Event>,
                found: Option<String>,
                events: &Vec<SequencedEvent>,
                e: ErrorEnvelope,
            |
                {
                    &&& #[trigger] memories_found(
                        memories,
                        middle,
                        Ok::<Option<String>, String>(found),
                    )
                    &&& recovered_to(before, middle)
                    &&& exists|done: bool| #[trigger] injected_to(middle, found, after, done)
                    &&& recorded(events@) == after
                    &&& #[trigger] call_ensures(
                        P::project_model_surface,
                        (projection, events),
                        Err::<Vec<ModelSurfaceEntry>, ErrorEnvelope>(e),
                    )
                    &&& r->Err_0@ == projection_error(e@)
                }
        },
{
    let ghost before = session.events();
    let recovered_dangling_turn = match recover_dangling_turn(session) {
        Ok(recovered) => recovered,
        Err(e) => {
            return Err(e);
        },
    };
    let ghost middle = session.events();
    let ghost handed = session.handed();
    let memories_injected = match inject_memories(session, memories) {
        Ok(injected) => injected,
        Err(e) => {
            proof {
                let r = Err::<PreparedSession, String>(e);
                let found = choose|found: Result<Option<String>, String>|
                    {
                        &&& #[trigger] memories_found(memories, middle, found)
                        &&& match found {
                            Err(why) => why == e,
                            Ok(summary) => {
                                &&& summary is Some && !injected(middle, summary->0@)
                                &&& injection_answered(
                                    handed,
                                    session.handed(),
                                    summary->0@,
                                    Err(e),
                                )
                            },
                        }
                    };
                match found {
                    Err(why) => {
                        assert(memories_found(
                            memories,
                            middle,
                            Err::<Option<String>, String>(r->Err_0),
                        ));
                    },
                    Ok(summary) => {
                        let text = summary->0;
                        assert(found == Ok::<Option<String>, String>(Some(text)));
                        assert(injection_answered(
                            handed,
                            session.handed(),
                            text@,
                            Err(r->Err_0),
                        ));
                    },
                }
            }
            return Err(e);
        },
    };
    let ghost after = session.events();
    proof {
        assert(before.is_prefix_of(middle)) by {
            assert(middle.subrange(0, before.len() as int) =~= before);
        }
        assert(before.is_prefix_of(after)) by {
            assert(after.subrange(0, before.len() as int) =~= before);
        }
        if memories_injected {
            lemma_still_settled(middle, after.last());
        }
    }
    match session.replay_events() {
        Err(e) => Err(e),
        Ok(events) => {
            let projected = projection.project_model_surface(events);
            assert(call_ensures(P::project_model_surface, (projection, events), projected));
            match rebuild_history(projected) {
                Ok(history) => Ok(
                    PreparedSession { history, recovered_dangling_turn, memories_injected },
                ),
                Err(e) => Err(e),
            }
        },
    }
}

proof fn lemma_still_settled(log: Seq<Event>, e: Event)
    requires
        dangling(log) is None,
        e is MemoryContextInjected,
    ensures
        dangling(log.push(e)) is None,
{
    let next = log.push(e);
    assert(next.drop_last() =~= log);
    assert(next.last() == e);
    if last_start(log) is Some {
        let turn = last_start(log)->0;
        let i = choose|i: int| 0 <= i < log.len() && ends(#[trigger] log[i], turn);
        assert(ends(next[i], turn));
    }
}

/// A loop with everything that a production host gives it.
pub fn build_agent_loop<'a, S: SessionStore>(
    config: &ValidatedHostConfig,
    session: &'a mut S,
    tools: &'a dyn ToolDispatcher,
    chat: &'a dyn ChatModel,
    middleware: &'a dyn ToolResultMiddleware,
    tool_definitions: Json,
    history: Vec<ChatMessage>,
    external_events: &'a dyn EventSource,
) -> (r: AgentLoop<'a, S>)
    ensures
        *r.session == *old(session),
        *final(r.session) == *final(session),
        r.phase == Phase::Idle,
        r.tools == (Held { it: tools }),
        r.chat == Some(chat),
        r.model is None,
        r.call_spec matches Some(spec) && spec.model@ == config.model@ && spec.base_url@
            == config.base_url@ && spec.temperature is None,
        r.result_middleware == Some(middleware),
        r.loop_guard matches Some(guard) && guard.remind_after == DEFAULT_LOOP_REMIND_AFTER
            && guard.reject_after == DEFAULT_LOOP_REJECT_AFTER,
        r.tool_definitions == Some(tool_definitions),
        r.chat_history == history,
        r.external_events == Some(external_events),
        r.queued_from == old(session).events().len(),
        r.hooks is None,
        r.inbox@ == empty_inbox(),
        r.max_tool_rounds == 8,
        r.overflow_recovery is None,
        views(r.agent_path@) == seq!["root"@],
{
    let tools = Held { it: tools };
    let chat = Some(chat);
    let middleware = Some(middleware);
    let external_events = Some(external_events);
    let mut agent = AgentLoop::over(session, tools, None, chat, Some(config.model_spec()));
    agent.result_middleware = middleware;
    agent.loop_guard = Some(default_loop_guard());
    agent.tool_definitions = Some(tool_definitions);
    agent.chat_history = history;
    agent.queued_from = agent.session.len();
    agent.external_events = external_events;
    agent
}

/// A provider is fit where its URL is one, with the scheme `https` and a host.
pub proof fn which_providers_are_fit(url: UrlView, e: Seq<char>)
    ensures
        provider_error(Ok(url)) is None <==> url.scheme == "https"@ && url.host is Some,
        provider_error(Err(e)) == Some(e),
{
}

/// A configuration is fit where its workspace was found, its provider is fit, its model is not
/// blank and, where it names a root for plugins, that was found too.
pub proof fn which_configurations_are_fit(
    c: HostConfig,
    workspace: Result<String, String>,
    parsed: Result<UrlView, Seq<char>>,
    plugin_root: Result<String, String>,
)
    ensures
        config_error(c, workspace, parsed, plugin_root) is None <==> {
            &&& workspace is Ok
            &&& provider_error(parsed) is None
            &&& !blank(c.model@)
            &&& c.plugin_root is Some ==> plugin_root is Ok
        },
        workspace is Err ==> config_error(c, workspace, parsed, plugin_root) == Some(
            "workspace does not exist or is inaccessible: "@ + c.workspace@ + " ("@
                + workspace->Err_0@ + ")"@,
        ),
{
    reveal_strlit("workspace");
    reveal_strlit(" does not exist or is inaccessible: ");
    reveal_strlit("workspace does not exist or is inaccessible: ");
    assert("workspace"@ + " does not exist or is inaccessible: "@
        =~= "workspace does not exist or is inaccessible: "@);
}

/// A result that is too long is replaced by how long it was and its own first two thousand
/// characters.
pub proof fn long_results_are_previewed(value: JsonView, limit: nat)
    requires
        byte_len(json_text(value)) > limit,
    ensures
        ({
            let text = json_text(value);
            let shown = replacement_for(OutcomeView::Success { value }, limit);
            &&& shown is Some && shown->0 is Success
            &&& member_of(shown->0->value, "original_bytes"@) is Some
            &&& byte_len(text) <= u64::MAX ==> uint_of(
                member_of(shown->0->value, "original_bytes"@)->0,
            ) == Some(byte_len(text))
            &&& member_of(shown->0->value, "original_bytes"@) == Some(
                JsonView::Number(decimal(byte_len(text))),
            )
            &&& member_of(shown->0->value, "truncated_by_result_guard"@) == Some(
                JsonView::Bool(true),
            )
            &&& text.len() <= 2000 ==> member_of(shown->0->value, "preview"@) == Some(
                JsonView::Text(text),
            )
            &&& text.len() > 2000 ==> member_of(shown->0->value, "preview"@) == Some(
                JsonView::Text(text.subrange(0, 2000)),
            )
        }),
{
    reveal_strlit("original_bytes");
    reveal_strlit("preview");
    reveal_strlit("truncated_by_result_guard");
    assert("original_bytes"@.len() == 14);
    assert("preview"@.len() == 7);
    assert("truncated_by_result_guard"@.len() == 25);
    let text = json_text(value);
    let members = preview_of(text)->Object_0;
    lemma_member_at(members, 0);
    lemma_member_at(members, 1);
    lemma_member_at(members, 2);
    a_written_number_is_read_back(byte_len(text));
    if text.len() > 2000 {
        assert(first_chars(text, 2000) =~= text.subrange(0, 2000));
    } else {
        assert(first_chars(text, 2000) =~= text);
    }
}

/// A memory is recorded with the text and the tags that the call gave; without a text that says
/// something nothing is.
pub proof fn a_memory_is_recorded(
    args: JsonView,
    size: Result<(), ErrorEnvelope>,
    run: ToolExecution,
    text: Seq<char>,
)
    requires
        is_memory_run(args, size, run),
    ensures
        member_of(args, "text"@) == Some(JsonView::Text(text)) && !blank(text) && size is Ok ==> {
            &&& run.outcome@ is Success
            &&& member_of(run.outcome@->value, "recorded"@) == Some(JsonView::Bool(true))
            &&& member_of(run.outcome@->value, "text"@) == Some(JsonView::Text(text))
            &&& run.audits@.len() == 1
            &&& run.audits@[0] is MemoryRecorded
            &&& run.audits@[0]->text@ == text
            &&& run.audits@[0]->source == MemorySource::Model
            &&& run.audits@[0]->scope == MemoryScope::LineageOnly
            &&& member_of(args, "tags"@) is None ==> run.audits@[0]->tags@.len() == 0
            &&& member_of(args, "tags"@) is Some ==> views(run.audits@[0]->tags@) == texts_of(
                member_of(args, "tags"@)->0,
            )
        },
        !(member_of(args, "text"@) is Some && member_of(args, "text"@)->0 is Text && !blank(
            member_of(args, "text"@)->0->Text_0,
        )) ==> run.audits@.len() == 0 && (run.outcome@ matches OutcomeView::Failure { error: e }
            && e.code == ErrorCode::ToolArgsInvalid),
        size is Err ==> run.outcome@ is Failure && run.audits@.len() == 0,
{
    reveal_strlit("recorded");
    reveal_strlit("text");
    assert("recorded"@.len() == 8);
    assert("text"@.len() == 4);
    if run.outcome@ is Success {
        let members = run.outcome@->value->Object_0;
        lemma_member_at(members, 0);
        lemma_member_at(members, 1);
    }
    if member_of(args, "tags"@) is None && run.audits@.len() == 1 {
        assert(views(run.audits@[0]->tags@).len() == 0);
    }
}

/// What the model is told of a tool: its name, its description and what it takes.
pub proof fn a_tool_is_told_in_full(name: Seq<char>, description: Seq<char>, parameters: JsonView)
    ensures
        ({
            let entry = tool_entry(name, description, parameters);
            &&& member_of(entry, "type"@) == Some(JsonView::Text("function"@))
            &&& member_of(entry, "function"@) is Some
            &&& member_of(member_of(entry, "function"@)->0, "name"@) == Some(JsonView::Text(name))
            &&& member_of(member_of(entry, "function"@)->0, "description"@) == Some(
                JsonView::Text(description),
            )
            &&& member_of(member_of(entry, "function"@)->0, "parameters"@) == Some(parameters)
        }),
{
    reveal_strlit("function");
    reveal_strlit("type");
    reveal_strlit("description");
    reveal_strlit("name");
    reveal_strlit("parameters");
    assert("function"@.len() == 8);
    assert("type"@.len() == 4);
    assert("description"@.len() == 11);
    assert("name"@.len() == 4);
    assert("parameters"@.len() == 10);
    assert("type"@[0] != "name"@[0]);
    let members = tool_entry(name, description, parameters)->Object_0;
    lemma_member_at(members, 0);
    lemma_member_at(members, 1);
    let parts = members[0].1->Object_0;
    lemma_member_at(parts, 0);
    lemma_member_at(parts, 1);
    lemma_member_at(parts, 2);
}

/// The model is told of every tool that was found, in their order.
pub proof fn every_tool_is_told(found: Seq<AdvertisedTool>, i: int)
    ensures
        tool_entries(found) is Ok ==> tool_entries(found)->Ok_0.len() == found.len() && (0 <= i
            < found.len() ==> found[i].parameters is Ok && tool_entries(found)->Ok_0[i]
            == tool_entry(
            found[i].name@,
            found[i].description@,
            found[i].parameters->Ok_0@,
        )),
        tool_entries(found) is Err ==> exists|k: int|
            0 <= k < found.len() && (#[trigger] found[k]).parameters is Err
                && found[k].parameters->Err_0@ == tool_entries(found)->Err_0,
    decreases found.len(),
{
    if found.len() > 0 {
        let before = found.drop_last();
        every_tool_is_told(before, i);
        if tool_entries(before) is Err {
            let k = choose|k: int|
                0 <= k < before.len() && (#[trigger] before[k]).parameters is Err
                    && before[k].parameters->Err_0@ == tool_entries(before)->Err_0;
            assert(found[k].parameters is Err);
        } else if found.last().parameters is Err {
            assert(found[found.len() - 1].parameters is Err);
        }
    }
}

/// The tools that were found are those that answered, in their order.
pub proof fn answers_that_were_given(answers: Seq<Option<AdvertisedTool>>, tool: AdvertisedTool)
    ensures
        present(Seq::empty()).len() == 0,
        present(answers.push(Some(tool))) == present(answers).push(tool),
        present(answers.push(None)) == present(answers),
{
    assert(answers.push(Some(tool)).drop_last() =~= answers);
    assert(answers.push(None).drop_last() =~= answers);
}

/// What a tool takes, with a wider mode and a reason for it besides; the rest stays as it was.
pub proof fn a_wider_mode_may_be_asked_for(
    members: Seq<(Seq<char>, JsonView)>,
    properties: Seq<(Seq<char>, JsonView)>,
    i: int,
)
    requires
        0 <= i < members.len(),
    ensures
        ({
            let after = with_escalation(JsonView::Object(members))->Object_0;
            &&& after.len() == members.len()
            &&& after[i].0 == members[i].0
            &&& members[i].0 != "properties"@ ==> after[i] == members[i]
            &&& members[i] == ("properties"@, JsonView::Object(properties)) ==> after[i].1
                == JsonView::Object(
                properties + seq![
                    (
                        "justification"@,
                        JsonView::Object(seq![("type"@, JsonView::Text("string"@))]),
                    ),
                    (
                        "sandbox_permissions"@,
                        JsonView::Object(seq![("type"@, JsonView::Text("string"@))]),
                    ),
                ],
            )
        }),
{
}

/// Which turn dangles: the last one that was started, where nothing ended it.
pub proof fn which_turn_dangles(log: Seq<Event>, e: Event, turn: u64)
    ensures
        dangling(Seq::empty()) is None,
        last_start(log.push(Event::TurnStarted { turn_id: turn })) == Some(turn),
        !(e is TurnStarted) ==> last_start(log.push(e)) == last_start(log),
        dangling(log) == Some(turn) ==> last_start(log) == Some(turn) && forall|i: int|
            0 <= i < log.len() ==> !ends(#[trigger] log[i], turn),
        ends(e, turn) <==> (e is TurnCompleted && e->TurnCompleted_turn_id == turn) || (
        e is TurnAborted && e->TurnAborted_turn_id == turn),
{
    assert(log.push(Event::TurnStarted { turn_id: turn }).drop_last() =~= log);
    assert(log.push(e).drop_last() =~= log);
}

/// A session that is opened again with a turn that dangles says that it was interrupted, once;
/// any other stays as it is.
pub proof fn what_opening_again_says(before: Seq<Event>, after: Seq<Event>, turn: u64)
    requires
        recovered_to(before, after),
    ensures
        dangling(before) is None ==> after == before,
        dangling(before) == Some(turn) ==> {
            &&& after.len() == before.len() + 1
            &&& after.last() is TurnAborted
            &&& after.last()->TurnAborted_turn_id == turn
            &&& after.last()->TurnAborted_reason@ == "interrupted: session reopened"@
            &&& dangling(after) is None
        },
{
    if dangling(before) == Some(turn) {
        assert(after == before.push(after.last()));
        an_aborted_turn_no_longer_dangles(before, turn, after.last());
    }
}

/// What the model sees of a message: who said it and what; of calls their names and arguments,
/// and of a result the id that it answers.
pub proof fn what_the_model_sees(
    text: String,
    id: String,
    outcome: ToolOutcome,
    calls: Vec<ModelToolCall>,
    i: int,
)
    ensures
        surface_message(ModelSurfaceMessage::SystemSummary { text }).role == "system"@,
        surface_message(ModelSurfaceMessage::SystemSummary { text }).content == text@,
        surface_message(ModelSurfaceMessage::User { text }).role == "user"@,
        surface_message(ModelSurfaceMessage::User { text }).content == text@,
        surface_message(ModelSurfaceMessage::Assistant { text }).role == "assistant"@,
        surface_message(ModelSurfaceMessage::Assistant { text }).content == text@,
        surface_message(ModelSurfaceMessage::ToolResult { call_id: id, outcome }).role == "tool"@,
        surface_message(ModelSurfaceMessage::ToolResult { call_id: id, outcome }).tool_call_id
            == Some(id@),
        surface_message(ModelSurfaceMessage::ToolResult { call_id: id, outcome }).content
            == json_text(outcome_json(outcome@)),
        0 <= i < calls@.len() ==> requested_call(calls@[i]).id == calls@[i].id@ && requested_call(
            calls@[i],
        ).name == calls@[i].name@ && requested_call(calls@[i]).arguments == calls@[i].arguments@,
{
}

/// The names of the codes in what is told of a failed projection.
pub proof fn codes_in_a_failed_projection(a: ErrorCode, b: ErrorCode, message: Seq<char>)
    ensures
        variant_name(ErrorCode::ToolArgsInvalid) == "ToolArgsInvalid"@,
        variant_name(ErrorCode::SandboxDenied) == "SandboxDenied"@,
        variant_name(ErrorCode::ApprovalRejected) == "ApprovalRejected"@,
        variant_name(ErrorCode::ContextWindowExceeded) == "ContextWindowExceeded"@,
        variant_name(ErrorCode::ModelStreamBroken) == "ModelStreamBroken"@,
        variant_name(ErrorCode::SubagentCancelled) == "SubagentCancelled"@,
        variant_name(ErrorCode::SessionNotFound) == "SessionNotFound"@,
        variant_name(ErrorCode::CursorInvalid) == "CursorInvalid"@,
        variant_name(ErrorCode::TeamRevisionConflict) == "TeamRevisionConflict"@,
        variant_name(ErrorCode::TeamDependencyCycle) == "TeamDependencyCycle"@,
        variant_name(ErrorCode::ToolTimeout) == "ToolTimeout"@,
        variant_name(ErrorCode::ToolLoopDetected) == "ToolLoopDetected"@,
        variant_name(ErrorCode::FileRevisionConflict) == "FileRevisionConflict"@,
        variant_name(ErrorCode::Internal) == "Internal"@,
        projection_error(ErrorView { code: a, message }) == "model surface projection failed ("@
            + variant_name(a) + "): "@ + message,
{
}

/// A summary is told once: where it is on record already nothing is added.
pub proof fn when_a_summary_is_told(
    before: Seq<Event>,
    summary: Option<String>,
    after: Seq<Event>,
    done: bool,
)
    requires
        injected_to(before, summary, after, done),
    ensures
        summary is None ==> !done && after == before,
        summary is Some && !done ==> after == before && exists|i: int|
            0 <= i < before.len() && #[trigger] before[i] is MemoryContextInjected
                && before[i]->MemoryContextInjected_summary@ == summary->0@,
        done ==> {
            &&& after.len() == before.len() + 1
            &&& after.last() is MemoryContextInjected
            &&& after.last()->MemoryContextInjected_summary@ == summary->0@
        },
{
}

/// What a tool with one text takes: the text must be given.
pub proof fn what_a_tool_with_a_text_takes(name: Seq<char>, properties: JsonView)
    ensures
        member_of(required_text(name, properties), "required"@) == Some(
            JsonView::Array(seq![JsonView::Text(name)]),
        ),
        member_of(required_text(name, properties), "type"@) == Some(JsonView::Text("object"@)),
        member_of(required_text(name, properties), "properties"@) == Some(properties),
{
    reveal_strlit("properties");
    reveal_strlit("required");
    reveal_strlit("type");
    assert("properties"@.len() == 10);
    assert("required"@.len() == 8);
    assert("type"@.len() == 4);
    let members = required_text(name, properties)->Object_0;
    lemma_member_at(members, 0);
    lemma_member_at(members, 1);
    lemma_member_at(members, 2);
}

/// A summary and a recovery are one record each, and whether the session took it is answered.
pub proof fn what_is_answered_of_a_record(
    before: Seq<Handed>,
    after: Seq<Handed>,
    summary: Seq<char>,
    turn: u64,
    r: Result<bool, String>,
)
    ensures
        injection_answered(before, after, summary, r) ==> {
            &&& after.len() == before.len() + 1
            &&& after.last().event is MemoryContextInjected
            &&& after.last().event->MemoryContextInjected_summary@ == summary
            &&& r is Ok <==> after.last().refused is None
            &&& r is Ok ==> r->Ok_0
            &&& r is Err ==> r->Err_0@ == after.last().refused->0
        },
        recovery_answered(before, after, turn, r) ==> {
            &&& after.len() == before.len() + 1
            &&& after.last().event is TurnAborted
            &&& after.last().event->TurnAborted_turn_id == turn
            &&& after.last().event->TurnAborted_reason@ == "interrupted: session reopened"@
            &&& r is Ok <==> after.last().refused is None
            &&& r is Ok ==> r->Ok_0
            &&& r is Err ==> r->Err_0@ == after.last().refused->0
        },
{
}

/// Every tool is asked for under its own name, in the order of the names.
pub proof fn every_tool_is_asked_for<T: ToolSource>(
    source: &T,
    names: Seq<Seq<char>>,
    answers: Seq<Option<AdvertisedTool>>,
    i: int,
)
    requires
        are_answers(source, names, answers),
        0 <= i < names.len(),
    ensures
        answers.len() == names.len(),
        exists|text: &str|
            text@ == names[i] && #[trigger] call_ensures(T::advertised, (source, text), answers[i]),
{
    let name = names[i];
    assert(is_answer(source, name, answers[i]));
}

} // verus!
