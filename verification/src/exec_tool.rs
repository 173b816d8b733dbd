//! The tool that runs a command in a restricted child process.
use vstd::prelude::*;
use crate::approval::{
    approve_escalation, consulted, escalation_args_error, evaluated, validate_escalation_args,
    AnswerView, Approver, AuthorizationContextProvider, EscalationRequest,
};
use crate::json::{
    a_written_number_is_read_back, lemma_member_at, member_of, no_members, number_value, object,
    text_list, text_value, texts_are_read_back, texts_of, uint_of, with_member, Json, JsonView,
};
use crate::protocol::{
    error, one_member, AuthorizationView, ErrorCode, ErrorEnvelope, ErrorView, OutcomeView,
    ToolOutcome,
};
use crate::sandbox_exec::{CommandSpec, ExecutionOutput, RestrictedBackend, RestrictedProcessPool};
use crate::sandbox_policy::{a_mode_has_one_name, mode_named, SandboxMode};
use crate::text::{
    blank, chars_of, concat2, concat3, debug_text, decimal, is_digit, lossy_text, quoted,
    utf8_lossy, views,
};
use crate::tools::{ToolAudit, ToolExecution, ToolSpec};

verus! {

broadcast use vstd::string::group_string_axioms;

// ---------------------------------------------------------------------------
// The arguments
// ---------------------------------------------------------------------------

/// The mode that a value names: by its name, or as an object with the name as its
/// only member and nothing in it.
pub open spec fn mode_in(value: JsonView) -> Option<SandboxMode> {
    match value {
        JsonView::Text(name) => mode_named(name),
        JsonView::Object(members) => if members.len() == 1 && members[0].1 is Null {
            mode_named(members[0].0)
        } else {
            None
        },
        _ => None,
    }
}

/// The text of a number without a fraction and without an exponent.
pub open spec fn is_whole(number: Seq<char>) -> bool {
    forall|i: int| 0 <= i < number.len() ==> (is_digit(#[trigger] number[i]) || number[i] == '-')
}

/// A value as an error names it.
pub open spec fn value_kind(value: JsonView) -> Seq<char> {
    match value {
        JsonView::Null => "null"@,
        JsonView::Bool(b) => if b {
            "boolean `true`"@
        } else {
            "boolean `false`"@
        },
        JsonView::Number(t) => if is_whole(t) {
            "integer `"@ + t + "`"@
        } else {
            "floating point `"@ + t + "`"@
        },
        JsonView::Text(t) => "string "@ + debug_text(t),
        JsonView::Array(_) => "sequence"@,
        JsonView::Object(_) => "map"@,
    }
}

pub open spec fn unknown_mode(name: Seq<char>) -> Seq<char> {
    "unknown variant `"@ + name
        + "`, expected one of `read-only`, `workspace-write`, `danger-full-access`"@
}

/// Why a value names no mode.
pub open spec fn mode_error(value: JsonView) -> ErrorView {
    error(
        ErrorCode::ApprovalRejected,
        "invalid sandbox_permissions: "@ + match value {
            JsonView::Text(name) => unknown_mode(name),
            JsonView::Object(members) => if members.len() != 1 {
                "invalid value: map, expected map with a single key"@
            } else if mode_named(members[0].0) is None {
                unknown_mode(members[0].0)
            } else {
                "invalid type: "@ + value_kind(members[0].1) + ", expected unit"@
            },
            _ => "invalid type: "@ + value_kind(value) + ", expected string or map"@,
        },
    )
}

/// The text of the member `name`; nothing where there is none or it is no text.
pub open spec fn text_member(args: JsonView, name: Seq<char>) -> Option<Seq<char>> {
    match member_of(args, name) {
        Some(JsonView::Text(t)) => Some(t),
        _ => None,
    }
}

/// The mode that the arguments ask for.
pub open spec fn requested_mode(args: JsonView) -> Option<SandboxMode> {
    match member_of(args, "sandbox_permissions"@) {
        Some(value) => mode_in(value),
        None => None,
    }
}

/// Why the arguments are refused before anything is done.
pub open spec fn exec_args_error(args: JsonView) -> Option<ErrorView> {
    match member_of(args, "sandbox_permissions"@) {
        Some(value) => if mode_in(value) is None {
            Some(mode_error(value))
        } else {
            escalation_args_error(mode_in(value), text_member(args, "justification"@))
        },
        None => escalation_args_error(None, text_member(args, "justification"@)),
    }
}

/// The mode and the justification of an escalation; an escalation has both.
#[derive(Debug)]
pub struct ExecRequest {
    pub mode: Option<SandboxMode>,
    pub justification: Option<String>,
}

fn whole(number: &str) -> (r: bool)
    ensures
        r == is_whole(number@),
{
    let chars = chars_of(number);
    let mut i: usize = 0;
    while i < chars.len()
        invariant
            i <= chars@.len(),
            chars@ == number@,
            forall|j: int|
                0 <= j < i ==> (is_digit(#[trigger] number@[j]) || number@[j] == '-'),
        decreases chars@.len() - i,
    {
        let c = chars[i];
        if !('0' <= c && c <= '9') && c != '-' {
            assert(!is_digit(number@[i as int]));
            return false;
        }
        assert(is_digit(number@[i as int]) || number@[i as int] == '-');
        i = i + 1;
    }
    true
}

fn kind_of(value: &Json) -> (r: String)
    ensures
        r@ == value_kind(value@),
{
    match value {
        Json::Null => "null".to_string(),
        Json::Bool(true) => "boolean `true`".to_string(),
        Json::Bool(false) => "boolean `false`".to_string(),
        Json::Number(t) => {
            if whole(t) {
                concat3("integer `", t, "`")
            } else {
                concat3("floating point `", t, "`")
            }
        },
        Json::Text(t) => concat2("string ", &quoted(t)),
        Json::Array(_) => "sequence".to_string(),
        Json::Object(_) => "map".to_string(),
    }
}

fn invalid_mode(detail: &str) -> (r: ErrorEnvelope)
    ensures
        r@ == error(ErrorCode::ApprovalRejected, "invalid sandbox_permissions: "@ + detail@),
{
    ErrorEnvelope::new(
        ErrorCode::ApprovalRejected,
        concat2("invalid sandbox_permissions: ", detail),
    )
}

fn unknown_mode_error(name: &str) -> (r: ErrorEnvelope)
    ensures
        r@ == error(
            ErrorCode::ApprovalRejected,
            "invalid sandbox_permissions: "@ + unknown_mode(name@),
        ),
{
    invalid_mode(
        &concat3(
            "unknown variant `",
            name,
            "`, expected one of `read-only`, `workspace-write`, `danger-full-access`",
        ),
    )
}

fn parse_mode(value: &Json) -> (r: Result<SandboxMode, ErrorEnvelope>)
    ensures
        match r {
            Ok(mode) => mode_in(value@) == Some(mode),
            Err(e) => mode_in(value@) is None && e@ == mode_error(value@),
        },
{
    match value {
        Json::Text(name) => match SandboxMode::from_label(name) {
            Some(mode) => Ok(mode),
            None => Err(unknown_mode_error(name)),
        },
        Json::Object(members) => {
            proof {
                crate::json::lemma_object_view(*members);
                assert(crate::json::members_view(members@).len() == members@.len());
            }
            if members.len() != 1 {
                return Err(invalid_mode("invalid value: map, expected map with a single key"));
            }
            assert(crate::json::members_view(members@)[0] == (members@[0].0@, members@[0].1@));
            let mode = match SandboxMode::from_label(&members[0].0) {
                Some(mode) => mode,
                None => {
                    return Err(unknown_mode_error(&members[0].0));
                },
            };
            match &members[0].1 {
                Json::Null => Ok(mode),
                other => Err(
                    invalid_mode(&concat3("invalid type: ", &kind_of(other), ", expected unit")),
                ),
            }
        },
        _ => Err(
            invalid_mode(&concat3("invalid type: ", &kind_of(value), ", expected string or map")),
        ),
    }
}

/// Reads the escalation that the arguments ask for.
pub fn exec_request(args: &Json) -> (r: Result<ExecRequest, ErrorEnvelope>)
    ensures
        match r {
            Ok(request) => {
                &&& exec_args_error(args@) is None
                &&& request.mode == requested_mode(args@)
                &&& request.mode is Some <==> request.justification is Some
                &&& request.justification matches Some(j) ==> text_member(
                    args@,
                    "justification"@,
                ) == Some(j@)
            },
            Err(e) => exec_args_error(args@) == Some(e@),
        },
{
    let mode = match args.get("sandbox_permissions") {
        Some(value) => match parse_mode(value) {
            Ok(mode) => Some(mode),
            Err(e) => {
                return Err(e);
            },
        },
        None => None,
    };
    let justification = match args.get("justification") {
        Some(Json::Text(t)) => Some(t),
        _ => None,
    };
    let checked = validate_escalation_args(
        mode,
        match justification {
            Some(t) => Some(t.as_str()),
            None => None,
        },
    );
    match checked {
        Ok(()) => Ok(
            ExecRequest {
                mode,
                justification: match justification {
                    Some(t) => Some(t.clone()),
                    None => None,
                },
            },
        ),
        Err(e) => Err(e),
    }
}

/// The command that the arguments ask for.
pub open spec fn is_exec_command(command: CommandSpec, args: JsonView) -> bool {
    &&& command.program@ == (match text_member(args, "program"@) {
        Some(program) => program,
        None => ""@,
    })
    &&& views(command.args@) == (match member_of(args, "args"@) {
        Some(list) => texts_of(list),
        None => Seq::empty(),
    })
    &&& command.current_dir is None
}

pub fn exec_command(args: &Json) -> (r: CommandSpec)
    ensures
        is_exec_command(r, args@),
{
    let mut command = match args.get("program") {
        Some(Json::Text(program)) => CommandSpec::new(program),
        _ => CommandSpec::new(""),
    };
    match args.get("args") {
        Some(list) => {
            let texts = list.texts();
            let mut i: usize = 0;
            assert(views(command.args@) =~= views(texts@).take(0));
            while i < texts.len()
                invariant
                    i <= texts@.len(),
                    views(command.args@) == views(texts@).take(i as int),
                    command.current_dir is None,
                    command.program@ == (match text_member(args@, "program"@) {
                        Some(program) => program,
                        None => ""@,
                    }),
                decreases texts@.len() - i,
            {
                let ghost before = command.args@;
                command = command.arg(&texts[i]);
                proof {
                    assert(command.args@ =~= before.push(command.args@.last()));
                    assert(views(command.args@) =~= views(before).push(texts@[i as int]@));
                    assert(views(texts@).take(i + 1) =~= views(texts@).take(i as int).push(
                        texts@[i as int]@,
                    ));
                }
                i = i + 1;
            }
            assert(views(texts@).take(texts@.len() as int) =~= views(texts@));
        },
        None => {
            assert(views(command.args@) =~= Seq::empty());
        },
    }
    command
}

// ---------------------------------------------------------------------------
// The outcome
// ---------------------------------------------------------------------------

/// What a run comes to. Only a restricted child of this process counts.
pub open spec fn restricted_outcome_of(
    run: Result<ExecutionOutput, String>,
    own_process_id: u32,
) -> OutcomeView {
    match run {
        Ok(output) => if output.restricted && output.process_id != own_process_id {
            OutcomeView::Success {
                value: JsonView::Object(
                    seq![
                        ("exit_code"@, JsonView::Number(decimal(output.exit_code as nat))),
                        ("process_id"@, JsonView::Number(decimal(output.process_id as nat))),
                        ("restricted"@, JsonView::Bool(output.restricted)),
                        ("stderr"@, JsonView::Text(utf8_lossy(output.stderr@))),
                        ("stdout"@, JsonView::Text(utf8_lossy(output.stdout@))),
                    ],
                ),
            }
        } else {
            OutcomeView::Failure {
                error: error(
                    ErrorCode::SandboxDenied,
                    "restricted backend did not prove child-process isolation"@,
                ),
            }
        },
        Err(e) => OutcomeView::Failure {
            error: error(
                ErrorCode::SandboxDenied,
                "restricted process execution failed: "@ + e@,
            ),
        },
    }
}

pub fn restricted_outcome(run: Result<ExecutionOutput, String>, own_process_id: u32) -> (r:
    ToolOutcome)
    ensures
        r@ == restricted_outcome_of(run, own_process_id),
{
    match run {
        Ok(output) => {
            if !(output.restricted && output.process_id != own_process_id) {
                return ToolOutcome::Failure {
                    error: ErrorEnvelope::of(
                        ErrorCode::SandboxDenied,
                        "restricted backend did not prove child-process isolation",
                    ),
                };
            }
            let m = with_member(no_members(), "exit_code", number_value(output.exit_code as u64));
            let m = with_member(m, "process_id", number_value(output.process_id as u64));
            let m = with_member(m, "restricted", Json::Bool(output.restricted));
            let m = with_member(m, "stderr", Json::Text(lossy_text(&output.stderr)));
            let m = with_member(m, "stdout", Json::Text(lossy_text(&output.stdout)));
            let value = object(m);
            proof {
                let expected = restricted_outcome_of(run, own_process_id)->value;
                assert(value@->Object_0 =~= expected->Object_0);
            }
            ToolOutcome::Success { value }
        },
        Err(e) => ToolOutcome::Failure {
            error: ErrorEnvelope::new(
                ErrorCode::SandboxDenied,
                concat2("restricted process execution failed: ", &e),
            ),
        },
    }
}

/// Whether `outcome` is that of a run of the command of `args`.
pub open spec fn ran<B: RestrictedBackend>(
    pool: RestrictedProcessPool<B>,
    args: JsonView,
    own_process_id: u32,
    command: CommandSpec,
    run: Result<ExecutionOutput, String>,
    outcome: OutcomeView,
) -> bool {
    &&& is_exec_command(command, args)
    &&& call_ensures(B::execute, (&pool.inner(), &command), run)
    &&& outcome == restricted_outcome_of(run, own_process_id)
}

/// Runs the command of `args`. One that asks for a wider mode runs only when the
/// escalation is granted, and the decision is recorded.
pub fn execute_restricted<B: RestrictedBackend>(
    args: &Json,
    pool: &RestrictedProcessPool<B>,
    approver: Option<&dyn Approver>,
    context_provider: Option<&dyn AuthorizationContextProvider>,
    own_process_id: u32,
) -> (r: ToolExecution)
    ensures
        exec_args_error(args@) matches Some(e) ==> r.outcome@ == (OutcomeView::Failure {
            error: e,
        }) && r.audits@.len() == 0,
        exec_args_error(args@) is None && requested_mode(args@) is None ==> {
            &&& r.audits@.len() == 0
            &&& exists|command: CommandSpec, run: Result<ExecutionOutput, String>| #[trigger]
                ran(*pool, args@, own_process_id, command, run, r.outcome@)
        },
        exec_args_error(args@) is None && requested_mode(args@) is Some ==> exists|
            found: Option<Result<AuthorizationView, ErrorView>>,
            answer: AnswerView,
        |
            {
                let verdict = #[trigger] evaluated(
                    SandboxMode::ReadOnly,
                    requested_mode(args@)->0,
                    found,
                    answer,
                );
                &&& consulted(
                    SandboxMode::ReadOnly,
                    requested_mode(args@)->0,
                    text_member(args@, "justification"@)->0,
                    approver,
                    context_provider,
                    found,
                    answer,
                )
                &&& r.audits@ == seq![
                    ToolAudit::ApprovalDecided { approved: verdict.result is Ok },
                ]
                &&& match verdict.result {
                    Ok(_) => exists|command: CommandSpec, run: Result<ExecutionOutput, String>|
                     #[trigger]
                        ran(*pool, args@, own_process_id, command, run, r.outcome@),
                    Err(e) => r.outcome@ == (OutcomeView::Failure { error: e }),
                }
            },
{
    let request = match exec_request(args) {
        Ok(request) => request,
        Err(error) => {
            return ToolExecution::new(ToolOutcome::Failure { error });
        },
    };
    let mut audits: Vec<ToolAudit> = Vec::new();
    match (request.mode, request.justification) {
        (Some(requested_mode), Some(justification)) => {
            let asked = EscalationRequest { requested_mode, justification };
            let evaluation = approve_escalation(
                SandboxMode::ReadOnly,
                asked,
                approver,
                context_provider,
            );
            match evaluation.result {
                Ok(_) => {
                    audits.push(ToolAudit::ApprovalDecided { approved: true });
                },
                Err(error) => {
                    audits.push(ToolAudit::ApprovalDecided { approved: false });
                    return ToolExecution { outcome: ToolOutcome::Failure { error }, audits };
                },
            }
        },
        _ => {},
    }
    let command = exec_command(args);
    let run = pool.execute(&command);
    let ghost found = run;
    let outcome = restricted_outcome(run, own_process_id);
    assert(ran(*pool, args@, own_process_id, command, found, outcome@));
    ToolExecution { outcome, audits }
}

// ---------------------------------------------------------------------------
// The tool
// ---------------------------------------------------------------------------

/// The object schema with the given members.
pub open spec fn typed(name: Seq<char>) -> JsonView {
    JsonView::Object(seq![("type"@, JsonView::Text(name))])
}

/// The parameters of the tool: a program and a list of texts.
pub open spec fn exec_parameters() -> JsonView {
    JsonView::Object(
        seq![
            ("additionalProperties"@, JsonView::Bool(false)),
            (
                "properties"@,
                JsonView::Object(
                    seq![
                        (
                            "args"@,
                            JsonView::Object(
                                seq![
                                    ("items"@, typed("string"@)),
                                    ("type"@, JsonView::Text("array"@)),
                                ],
                            ),
                        ),
                        ("program"@, typed("string"@)),
                    ],
                ),
            ),
            ("required"@, JsonView::Array(seq![JsonView::Text("program"@)])),
            ("type"@, JsonView::Text("object"@)),
        ],
    )
}

/// The schema of a list of texts.
pub fn text_array_schema() -> (r: Json)
    ensures
        r@ == JsonView::Object(
            seq![("items"@, typed("string"@)), ("type"@, JsonView::Text("array"@))],
        ),
{
    let m = with_member(no_members(), "items", one_member("type", text_value("string")));
    let r = object(with_member(m, "type", text_value("array")));
    assert(r@->Object_0 =~= seq![
        ("items"@, typed("string"@)),
        ("type"@, JsonView::Text("array"@)),
    ]);
    r
}

/// The tool as it is registered.
pub fn exec_tool_spec() -> (r: ToolSpec)
    ensures
        r.name@ == "exec"@,
        r.description@ == "在 OS 受限子进程中执行外部命令"@,
        r.parameters_schema@ == exec_parameters(),
        r.escalation_capable,
        r.timeout_ms is None,
{
    let m = with_member(no_members(), "args", text_array_schema());
    let m = with_member(m, "program", one_member("type", text_value("string")));
    let properties = object(m);
    assert(properties@->Object_0 =~= exec_parameters()->Object_0[1].1->Object_0);
    let m = with_member(no_members(), "additionalProperties", Json::Bool(false));
    let m = with_member(m, "properties", properties);
    let m = with_member(m, "required", text_list("program"));
    let m = with_member(m, "type", text_value("object"));
    let parameters_schema = object(m);
    assert(parameters_schema@->Object_0 =~= exec_parameters()->Object_0);
    ToolSpec {
        name: "exec".to_string(),
        description: "在 OS 受限子进程中执行外部命令".to_string(),
        parameters_schema,
        escalation_capable: true,
        timeout_ms: None,
    }
}

// ---------------------------------------------------------------------------
// Laws
// ---------------------------------------------------------------------------

/// A run in isolation is a success, and its value gives back what the process came to: the
/// exit code and the id as numbers, and both outputs as text. So runs that differ in their exit
/// code have different outcomes.
pub proof fn an_outcome_tells_the_run(output: ExecutionOutput, own_process_id: u32)
    requires
        output.restricted,
        output.process_id != own_process_id,
    ensures
        ({
            let outcome = restricted_outcome_of(Ok(output), own_process_id);
            &&& outcome is Success
            &&& member_of(outcome->value, "exit_code"@) is Some
            &&& uint_of(member_of(outcome->value, "exit_code"@)->0) == Some(output.exit_code as nat)
            &&& member_of(outcome->value, "process_id"@) is Some
            &&& uint_of(member_of(outcome->value, "process_id"@)->0) == Some(
                output.process_id as nat,
            )
            &&& member_of(outcome->value, "restricted"@) == Some(JsonView::Bool(true))
            &&& member_of(outcome->value, "stdout"@) == Some(
                JsonView::Text(utf8_lossy(output.stdout@)),
            )
            &&& member_of(outcome->value, "stderr"@) == Some(
                JsonView::Text(utf8_lossy(output.stderr@)),
            )
        }),
{
    reveal_strlit("exit_code");
    reveal_strlit("process_id");
    reveal_strlit("restricted");
    reveal_strlit("stderr");
    reveal_strlit("stdout");
    assert("exit_code"@.len() == 9);
    assert("process_id"@.len() == 10);
    assert("restricted"@.len() == 10);
    assert("stderr"@.len() == 6);
    assert("stdout"@.len() == 6);
    assert("process_id"@[0] != "restricted"@[0]);
    assert("stderr"@[3] != "stdout"@[3]);
    let members = restricted_outcome_of(Ok(output), own_process_id)->value->Object_0;
    lemma_member_at(members, 0);
    lemma_member_at(members, 1);
    lemma_member_at(members, 2);
    lemma_member_at(members, 3);
    lemma_member_at(members, 4);
    a_written_number_is_read_back(output.exit_code as nat);
    a_written_number_is_read_back(output.process_id as nat);
}

/// Two runs in isolation with different exit codes have different outcomes.
pub proof fn exit_codes_show(a: ExecutionOutput, b: ExecutionOutput, own_process_id: u32)
    requires
        a.restricted && a.process_id != own_process_id,
        b.restricted && b.process_id != own_process_id,
        a.exit_code != b.exit_code,
    ensures
        restricted_outcome_of(Ok(a), own_process_id) != restricted_outcome_of(
            Ok(b),
            own_process_id,
        ),
{
    an_outcome_tells_the_run(a, own_process_id);
    an_outcome_tells_the_run(b, own_process_id);
}

/// A run that was not kept apart from this process, or that failed, is refused by the sandbox.
pub proof fn runs_that_were_not_isolated_fail(
    run: Result<ExecutionOutput, String>,
    own_process_id: u32,
)
    requires
        run is Err || !run->Ok_0.restricted || run->Ok_0.process_id == own_process_id,
    ensures
        restricted_outcome_of(run, own_process_id) matches OutcomeView::Failure { error: e }
            && e.code == ErrorCode::SandboxDenied && (run is Err ==> e.message
            == "restricted process execution failed: "@ + run->Err_0@),
{
}

/// The sandbox that a call asks for is named as a text, or as the only member of an object
/// with nothing in it.
pub proof fn a_call_names_its_sandbox(args: JsonView, mode: SandboxMode, name: Seq<char>)
    requires
        name == mode.name(),
    ensures
        member_of(args, "sandbox_permissions"@) is None ==> requested_mode(args) is None,
        member_of(args, "sandbox_permissions"@) == Some(JsonView::Text(name)) ==> requested_mode(
            args,
        ) == Some(mode),
        member_of(args, "sandbox_permissions"@) == Some(
            JsonView::Object(seq![(name, JsonView::Null)]),
        ) ==> requested_mode(args) == Some(mode),
        requested_mode(args) == Some(mode) ==> {
            let value = member_of(args, "sandbox_permissions"@)->0;
            ||| value == JsonView::Text(name)
            ||| value == JsonView::Object(seq![(name, JsonView::Null)])
        },
{
    a_mode_has_one_name(mode, name);
    if let Some(JsonView::Text(given)) = member_of(args, "sandbox_permissions"@) {
        a_mode_has_one_name(mode, given);
    }
    if let Some(JsonView::Object(members)) = member_of(args, "sandbox_permissions"@) {
        if members.len() == 1 {
            a_mode_has_one_name(mode, members[0].0);
            assert(members =~= seq![members[0]]);
        }
    }
}

/// The command of a call is the program that the arguments name, with the texts of their
/// list, in the directory of this process.
pub proof fn a_command_is_read_from_its_call(
    command: CommandSpec,
    args: JsonView,
    program: Seq<char>,
    items: Seq<JsonView>,
    texts: Seq<Seq<char>>,
)
    requires
        is_exec_command(command, args),
        member_of(args, "program"@) == Some(JsonView::Text(program)),
        member_of(args, "args"@) == Some(JsonView::Array(items)),
        items == texts.map_values(|t: Seq<char>| JsonView::Text(t)),
    ensures
        command.program@ == program,
        command.args@.len() == texts.len(),
        forall|i: int| 0 <= i < texts.len() ==> #[trigger] command.args@[i]@ == texts[i],
        command.current_dir is None,
{
    texts_are_read_back(texts);
    assert(views(command.args@) =~= texts);
    assert forall|i: int| 0 <= i < texts.len() implies #[trigger] command.args@[i]@ == texts[i] by {
        assert(views(command.args@)[i] == command.args@[i]@);
    }
}

/// The tool asks for a program, which must be given, and takes a list of texts.
pub proof fn the_tool_asks_for_a_program()
    ensures
        member_of(exec_parameters(), "required"@) == Some(
            JsonView::Array(seq![JsonView::Text("program"@)]),
        ),
        member_of(exec_parameters(), "type"@) == Some(JsonView::Text("object"@)),
        member_of(exec_parameters(), "additionalProperties"@) == Some(JsonView::Bool(false)),
        member_of(exec_parameters(), "properties"@) matches Some(properties) && member_of(
            properties,
            "program"@,
        ) is Some && member_of(member_of(properties, "program"@)->0, "type"@) == Some(
            JsonView::Text("string"@),
        ) && member_of(properties, "args"@) is Some && member_of(
            member_of(properties, "args"@)->0,
            "type"@,
        ) == Some(JsonView::Text("array"@)),
{
    reveal_strlit("additionalProperties");
    reveal_strlit("properties");
    reveal_strlit("required");
    reveal_strlit("type");
    reveal_strlit("args");
    reveal_strlit("program");
    reveal_strlit("items");
    assert("additionalProperties"@.len() == 20);
    assert("properties"@.len() == 10);
    assert("required"@.len() == 8);
    assert("type"@.len() == 4);
    assert("args"@.len() == 4);
    assert("program"@.len() == 7);
    assert("items"@.len() == 5);
    assert("type"@[0] != "args"@[0]);
    let members = exec_parameters()->Object_0;
    lemma_member_at(members, 0);
    lemma_member_at(members, 1);
    lemma_member_at(members, 2);
    lemma_member_at(members, 3);
    let properties = members[1].1->Object_0;
    lemma_member_at(properties, 0);
    lemma_member_at(properties, 1);
    lemma_member_at(properties[0].1->Object_0, 1);
    lemma_member_at(properties[1].1->Object_0, 0);
}

/// A call is refused where the sandbox it names is none, or where one is named without a reason
/// or a reason is given without one.
pub proof fn which_calls_are_refused(args: JsonView)
    ensures
        member_of(args, "sandbox_permissions"@) is Some && requested_mode(args) is None
            ==> exec_args_error(args) is Some,
        member_of(args, "sandbox_permissions"@) is None ==> (exec_args_error(args) is None <==> !(
        member_of(args, "justification"@) is Some && member_of(args, "justification"@)->0 is Text)),
        requested_mode(args) is Some ==> (exec_args_error(args) is None <==> member_of(
            args,
            "justification"@,
        ) is Some && member_of(args, "justification"@)->0 is Text && !blank(
            member_of(args, "justification"@)->0->Text_0,
        )),
        exec_args_error(args) is Some ==> exec_args_error(args)->0.code
            == ErrorCode::ApprovalRejected,
{
}

/// What is told of a sandbox that is none: the name that was given, or what was given in place
/// of one.
pub proof fn what_is_told_of_a_wrong_sandbox(name: Seq<char>, items: Seq<JsonView>, b: bool)
    ensures
        mode_error(JsonView::Text(name)).message
            == "invalid sandbox_permissions: "@ + ("unknown variant `"@ + name
            + "`, expected one of `read-only`, `workspace-write`, `danger-full-access`"@),
        mode_error(JsonView::Null).message == "invalid sandbox_permissions: "@ + (
        "invalid type: "@ + "null"@ + ", expected string or map"@),
        mode_error(JsonView::Array(items)).message == "invalid sandbox_permissions: "@ + (
        "invalid type: "@ + "sequence"@ + ", expected string or map"@),
        value_kind(JsonView::Bool(true)) == "boolean `true`"@,
        value_kind(JsonView::Bool(false)) == "boolean `false`"@,
        value_kind(JsonView::Text(name)) == "string "@ + debug_text(name),
        value_kind(JsonView::Object(Seq::empty())) == "map"@,
        mode_error(JsonView::Bool(b)).code == ErrorCode::ApprovalRejected,
{
}

} // verus!
