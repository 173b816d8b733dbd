//! What the loop asks of the tools, and what it gets back.
use vstd::prelude::*;
use crate::json::{member_of, texts_are_read_back, texts_of, Json, JsonView};
use crate::protocol::{
    error, ErrorCode, ErrorEnvelope, ErrorView, MemoryScope, MemorySource, ToolOutcome,
};
use crate::text::{concat2, views};

verus! {

broadcast use vstd::string::group_string_axioms;

/// A fact about a run of a tool that goes into the event stream.
#[derive(Debug, PartialEq, Eq, Clone)]
pub enum ToolAudit {
    ApprovalDecided { approved: bool },
    MemoryRecorded {
        text: String,
        tags: Vec<String>,
        source: MemorySource,
        scope: MemoryScope,
    },
}

/// A run of a tool.
#[derive(Debug, PartialEq, Eq)]
pub struct ToolExecution {
    pub outcome: ToolOutcome,
    pub audits: Vec<ToolAudit>,
}

impl ToolExecution {
    /// A run that left nothing to record but its outcome.
    pub fn new(outcome: ToolOutcome) -> (r: ToolExecution)
        ensures
            r.outcome == outcome,
            r.audits@.len() == 0,
    {
        ToolExecution { outcome, audits: Vec::new() }
    }
}

/// A tool as it is registered.
#[derive(Debug, PartialEq, Eq)]
pub struct ToolSpec {
    pub name: String,
    pub description: String,
    pub parameters_schema: Json,
    /// Whether the tool can ask for a wider sandbox mode.
    pub escalation_capable: bool,
    pub timeout_ms: Option<u64>,
}

/// The arguments that a tool needs.
pub open spec fn required_arguments(schema: JsonView) -> Seq<Seq<char>> {
    match member_of(schema, "required"@) {
        None => Seq::empty(),
        Some(names) => texts_of(names),
    }
}

/// The first of some names that the arguments have no value for.
pub open spec fn first_missing(names: Seq<Seq<char>>, args: JsonView) -> Option<Seq<char>>
    decreases names.len(),
{
    if names.len() == 0 {
        None
    } else {
        match first_missing(names.drop_last(), args) {
            Some(name) => Some(name),
            None => if member_of(args, names.last()) is None {
                Some(names.last())
            } else {
                None
            },
        }
    }
}

proof fn lemma_first_missing(names: Seq<Seq<char>>, args: JsonView, k: int)
    requires
        0 <= k <= names.len(),
        first_missing(names.take(k), args) is Some,
    ensures
        first_missing(names, args) == first_missing(names.take(k), args),
    decreases names.len() - k,
{
    if k < names.len() {
        assert(names.take(k + 1).drop_last() =~= names.take(k));
        lemma_first_missing(names, args, k + 1);
    } else {
        assert(names.take(k) =~= names);
    }
}

/// What a call is answered that lacks an argument.
pub open spec fn missing_argument_error(name: Seq<char>) -> ErrorView {
    error(ErrorCode::ToolArgsInvalid, "missing required argument: "@ + name)
}

/// Checks that the arguments of a call hold everything that the tool needs.
pub fn check_arguments(spec: &ToolSpec, args: &Json) -> (r: Result<(), ErrorEnvelope>)
    ensures
        match first_missing(required_arguments(spec.parameters_schema@), args@) {
            None => r is Ok,
            Some(name) => r is Err && r->Err_0@ == missing_argument_error(name),
        },
{
    let required = match spec.parameters_schema.get("required") {
        None => {
            return Ok(());
        },
        Some(names) => names.texts(),
    };
    let ghost names = views(required@);
    let mut i: usize = 0;
    assert(names.take(0) =~= Seq::<Seq<char>>::empty());
    while i < required.len()
        invariant
            i <= required@.len(),
            names == views(required@),
            names == required_arguments(spec.parameters_schema@),
            first_missing(names.take(i as int), args@) is None,
        decreases required@.len() - i,
    {
        proof {
            assert(names.take(i + 1).drop_last() =~= names.take(i as int));
            assert(names.take(i + 1).last() == required@[i as int]@);
        }
        if args.get(&required[i]).is_none() {
            proof {
                lemma_first_missing(names, args@, i + 1);
            }
            return Err(
                ErrorEnvelope::new(
                    ErrorCode::ToolArgsInvalid,
                    concat2("missing required argument: ", &required[i]),
                ),
            );
        }
        i = i + 1;
    }
    assert(names.take(i as int) =~= names);
    Ok(())
}

/// The tools that a loop can call.
pub trait ToolDispatcher {
    /// Runs a tool; nothing where no tool has the name.
    fn dispatch_with_audit(&self, name: &str, args: &Json) -> Option<ToolExecution>;

    /// Whether the tool comes from a plugin, whose results are not to be trusted.
    fn is_plugin_tool(&self, name: &str) -> bool;
}

/// The tools were asked to run `name` and gave `r`.
pub open spec fn dispatched<D: ToolDispatcher + ?Sized>(
    tools: &D,
    name: &str,
    args: &Json,
    r: Option<ToolExecution>,
) -> bool {
    call_ensures(D::dispatch_with_audit, (tools, name, args), r)
}

/// The same, by what the arguments hold.
pub open spec fn ran_tool<D: ToolDispatcher + ?Sized>(
    tools: &D,
    name: Seq<char>,
    args: JsonView,
    r: Option<ToolExecution>,
) -> bool {
    exists|n: &str, a: Json| #[trigger] dispatched(tools, n, &a, r) && n@ == name && a@ == args
}

/// What tools give for a name and arguments.
pub open spec fn runs_of<D: ToolDispatcher + ?Sized>(tools: &D) -> spec_fn(
    Seq<char>,
    JsonView,
    Option<ToolExecution>,
) -> bool {
    |name: Seq<char>, args: JsonView, r: Option<ToolExecution>| ran_tool(tools, name, args, r)
}

/// The tools were asked whether `name` comes from a plugin and said `r`.
pub open spec fn plugin_said<D: ToolDispatcher + ?Sized>(tools: &D, name: &str, r: bool) -> bool {
    call_ensures(D::is_plugin_tool, (tools, name), r)
}

pub open spec fn says_plugin<D: ToolDispatcher + ?Sized>(
    tools: &D,
    name: Seq<char>,
    r: bool,
) -> bool {
    exists|n: &str| #[trigger] plugin_said(tools, n, r) && n@ == name
}

// ---------------------------------------------------------------------------
// Laws
// ---------------------------------------------------------------------------

/// The argument that is missing is the first of the required ones that the call does not
/// give; where there is none, each is given.
pub proof fn the_first_missing_argument(names: Seq<Seq<char>>, args: JsonView, i: int)
    ensures
        first_missing(names, args) is None ==> (0 <= i < names.len() ==> member_of(
            args,
            names[i],
        ) is Some),
        first_missing(names, args) matches Some(name) ==> member_of(args, name) is None && exists|
            k: int,
        |
            {
                &&& 0 <= k < names.len()
                &&& #[trigger] names[k] == name
                &&& forall|j: int| 0 <= j < k ==> member_of(args, #[trigger] names[j]) is Some
            },
        missing_argument_error(names[0]).code == ErrorCode::ToolArgsInvalid,
        missing_argument_error(names[0]).message == "missing required argument: "@ + names[0],
    decreases names.len(),
{
    if names.len() > 0 {
        let before = names.drop_last();
        the_first_missing_argument(before, args, i);
        if let Some(name) = first_missing(before, args) {
            let k = choose|k: int|
                {
                    &&& 0 <= k < before.len()
                    &&& #[trigger] before[k] == name
                    &&& forall|j: int| 0 <= j < k ==> member_of(args, #[trigger] before[j]) is Some
                };
            assert(names[k] == name);
            assert forall|j: int| 0 <= j < k implies member_of(args, #[trigger] names[j]) is Some by {
                assert(before[j] == names[j]);
            }
        } else if let Some(name) = first_missing(names, args) {
            assert(names[names.len() - 1] == name);
            assert forall|j: int| 0 <= j < names.len() - 1 implies member_of(
                args,
                #[trigger] names[j],
            ) is Some by {
                lemma_given_before(before, args, j);
                assert(before[j] == names[j]);
            }
        }
    }
}

proof fn lemma_given_before(names: Seq<Seq<char>>, args: JsonView, i: int)
    requires
        0 <= i < names.len(),
    ensures
        first_missing(names, args) is None ==> member_of(args, names[i]) is Some,
    decreases names.len(),
{
    if i < names.len() - 1 {
        lemma_given_before(names.drop_last(), args, i);
    }
}

/// The arguments that are required are the texts of the list under that name.
pub proof fn which_arguments_are_required(schema: JsonView, texts: Seq<Seq<char>>)
    ensures
        member_of(schema, "required"@) is None ==> required_arguments(schema).len() == 0,
        member_of(schema, "required"@) == Some(
            JsonView::Array(texts.map_values(|t: Seq<char>| JsonView::Text(t))),
        ) ==> required_arguments(schema) == texts,
{
    texts_are_read_back(texts);
}

/// A tool is run under its own name and with the arguments of its call.
pub proof fn which_tool_is_run<D: ToolDispatcher + ?Sized>(
    tools: &D,
    name: Seq<char>,
    args: JsonView,
    r: Option<ToolExecution>,
    plugin: bool,
)
    ensures
        ran_tool(tools, name, args, r) ==> exists|n: &str, a: Json| #[trigger]
            dispatched(tools, n, &a, r) && n@ == name && a@ == args,
        (runs_of(tools))(name, args, r) <==> ran_tool(tools, name, args, r),
        says_plugin(tools, name, plugin) ==> exists|n: &str| #[trigger]
            plugin_said(tools, n, plugin) && n@ == name,
{
}

} // verus!
