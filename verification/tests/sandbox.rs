use ideal_harness::approval::{
    Approver, AuthorizationContextProvider, Decision, EscalationRequest,
};
use ideal_harness::exec_tool::{exec_command, exec_tool_spec, execute_restricted};
use ideal_harness::json::Json;
use ideal_harness::paths::{path_parts, path_starts_with, same_path};
use ideal_harness::protocol::{
    AuthorizationContext, ErrorCode, ErrorEnvelope, ExecutorEnvironment, ToolOutcome,
};
use ideal_harness::sandbox_exec::{
    exit_code, local_executor_environment, wait_step, ChildState, CommandSpec, ExecutionOutput,
    LandlockBackend, LandlockFsMode, RestrictedBackend, RestrictedProcessPool, WaitAction,
    ACCESS_MAKE_DIR, ACCESS_READ_FILE, ACCESS_WRITE_FILE,
};
use ideal_harness::sandbox_policy::{PermissionProfileState, SandboxMode, SandboxPolicy};
use ideal_harness::tools::ToolAudit;

const OWN_PROCESS_ID: u32 = 41;

fn policy(mode: SandboxMode) -> SandboxPolicy {
    SandboxPolicy { mode, workspace_root: "/ws".into() }
}

#[test]
fn read_only_rejects_everything_inside_or_outside() {
    let p = policy(SandboxMode::ReadOnly);
    assert!(!p.ensures_writable("/ws/a.txt"));
    assert!(!p.ensures_writable("/etc/passwd"));
}

#[test]
fn workspace_write_allows_only_under_root() {
    let p = policy(SandboxMode::WorkspaceWrite);
    assert!(p.ensures_writable("/ws/sub/a.txt"));
    assert!(!p.ensures_writable("/tmp/../etc/passwd"));
}

#[test]
fn danger_full_access_is_explicit_and_total() {
    let p = policy(SandboxMode::DangerFullAccess);
    assert!(p.ensures_writable("/anything"));
}

#[test]
fn widening_only_grows_never_narrows() {
    assert!(SandboxPolicy::can_widen(SandboxMode::ReadOnly, SandboxMode::WorkspaceWrite));
    assert!(SandboxPolicy::can_widen(SandboxMode::WorkspaceWrite, SandboxMode::DangerFullAccess));
    assert!(!SandboxPolicy::can_widen(SandboxMode::WorkspaceWrite, SandboxMode::ReadOnly));
    assert!(!SandboxPolicy::can_widen(SandboxMode::DangerFullAccess, SandboxMode::ReadOnly));
    assert!(!SandboxPolicy::can_widen(SandboxMode::ReadOnly, SandboxMode::ReadOnly));
}

#[test]
fn mode_strings_match_dsh_contract() {
    assert_eq!(SandboxMode::WorkspaceWrite.label(), "workspace-write");
}

#[test]
fn a_mode_is_found_again_by_its_label() {
    for mode in [
        SandboxMode::ReadOnly,
        SandboxMode::WorkspaceWrite,
        SandboxMode::DangerFullAccess,
    ] {
        assert_eq!(SandboxMode::from_label(mode.label()), Some(mode));
    }
    assert_eq!(SandboxMode::from_label("Read-Only"), None);
}

#[test]
fn profile_hash_and_epoch_change_only_with_permission_semantics() {
    let original = policy(SandboxMode::ReadOnly);
    let original_hash = original.profile_hash();
    let mut state = PermissionProfileState::new(original.clone());
    assert!(!state.replace(original).unwrap());
    assert_eq!(state.epoch(), 0);

    state
        .replace(SandboxPolicy {
            mode: SandboxMode::ReadOnly,
            workspace_root: "/other".into(),
        })
        .unwrap();
    assert_eq!(state.epoch(), 1);
    assert_ne!(state.policy().profile_hash(), original_hash);
}

fn fnv1a64(bytes: &[u8]) -> u64 {
    let mut hash = 0xcbf29ce484222325u64;
    for byte in bytes {
        hash ^= u64::from(*byte);
        hash = hash.wrapping_mul(0x100000001b3);
    }
    hash
}

#[test]
fn the_profile_hash_is_an_fnv_hash_in_hex() {
    let hash = policy(SandboxMode::WorkspaceWrite).profile_hash();
    assert_eq!(hash.len(), "fnv1a64:".len() + 16);
    let expected = fnv1a64(b"v1\0workspace-write\0/ws");
    assert_eq!(hash, format!("fnv1a64:{expected:016x}"));
}

#[test]
fn paths_are_compared_by_their_parts() {
    assert_eq!(path_parts("/a//b/./c"), ["/", "a", "b", "c"]);
    assert!(path_starts_with("/ws/sub", "/ws/"));
    assert!(!path_starts_with("/wsx", "/ws"));
    assert!(path_starts_with("/ws/a/b", "/ws/a") && path_starts_with("/ws/a/b", "/ws"));
    assert!(same_path("/ws/", "/ws"));
    assert!(!same_path("ws", "/ws"));
}

#[test]
fn command_builder_preserves_requested_working_directory() {
    let command = CommandSpec::new("program").arg("one").current_dir("workspace");
    assert_eq!(command.args, ["one"]);
    assert_eq!(command.current_dir.unwrap(), "workspace");
}

/// A backend that knows one program, with a clock of its own.
struct ScriptedBackend {
    program: &'static str,
    runs_for_millis: Option<u64>,
}

impl RestrictedBackend for ScriptedBackend {
    fn execute(&self, command: &CommandSpec) -> Result<ExecutionOutput, String> {
        self.execute_with_deadline(command, None)
    }

    fn execute_with_deadline(
        &self,
        command: &CommandSpec,
        deadline_millis: Option<u64>,
    ) -> Result<ExecutionOutput, String> {
        if command.program != self.program {
            return Err("no such file or directory".into());
        }
        let mut now: u64 = 0;
        let timed_out = loop {
            let state = match self.runs_for_millis {
                Some(end) if end <= now => ChildState::Ended,
                _ => ChildState::Running,
            };
            let time_is_up = deadline_millis.is_some_and(|deadline| deadline <= now);
            match wait_step(state, time_is_up) {
                WaitAction::Collect => break false,
                WaitAction::EndGroup => break true,
                WaitAction::Fail => return Err("wait failed".into()),
                WaitAction::Sleep => now += 5,
            }
        };
        Ok(ExecutionOutput {
            process_id: OWN_PROCESS_ID + 1,
            exit_code: exit_code(0, timed_out),
            stdout: b"ok".to_vec(),
            stderr: Vec::new(),
            restricted: true,
        })
    }
}

#[test]
fn missing_executable_fails_closed_without_fallback() {
    let pool = RestrictedProcessPool::new(ScriptedBackend {
        program: "cmd",
        runs_for_millis: Some(0),
    });
    let command = CommandSpec::new("definitely-missing-ideal-harness-command.exe");
    assert!(pool.execute(&command).is_err());
}

#[test]
fn timed_out_process_tree_is_terminated_with_deadline_code() {
    let pool = RestrictedProcessPool::new(ScriptedBackend {
        program: "cmd",
        runs_for_millis: None,
    });
    let command = CommandSpec::new("cmd")
        .arg("/C")
        .arg("for /L %i in (1,1,2147483647) do @rem loop");
    let output = pool.execute_with_deadline(&command, Some(300)).unwrap();
    assert_eq!(output.exit_code, 124, "stderr: {:?}", output.stderr);
    assert!(output.restricted);
}

#[test]
fn fast_command_within_deadline_succeeds_normally() {
    let pool = RestrictedProcessPool::new(ScriptedBackend {
        program: "cmd",
        runs_for_millis: Some(20),
    });
    let command = CommandSpec::new("cmd").arg("/C").arg("echo ok");
    let output = pool.execute_with_deadline(&command, Some(10_000)).unwrap();
    assert_eq!(output.exit_code, 0);
    assert!(String::from_utf8_lossy(&output.stdout).contains("ok"));
}

#[test]
fn a_lost_child_is_a_failure() {
    assert_eq!(wait_step(ChildState::Unknown, true), WaitAction::Fail);
    assert_eq!(wait_step(ChildState::Ended, true), WaitAction::Collect);
}

#[test]
fn wait_statuses_become_exit_codes() {
    assert_eq!(exit_code(3 << 8, false), 3);
    assert_eq!(exit_code(0xff00, false), 255);
    assert_eq!(exit_code(9, false), 137);
    assert_eq!(exit_code(9 | 0x80, false), 137);
    assert_eq!(exit_code(0x7f, false), 1);
    assert_eq!(exit_code(9, true), 124);
}

#[test]
fn unknown_mode_from_environment_fails_closed() {
    let found = LandlockBackend::from_environment(
        Some("danger-full-access"),
        Ok("/ws".to_string()),
        0,
    );
    assert_eq!(found.unwrap_err(), "unknown sandbox mode: danger-full-access");
}

#[test]
fn known_modes_from_environment_are_taken() {
    let mode = |setting| {
        LandlockBackend::from_environment(setting, Ok("/ws".to_string()), 3).unwrap().mode()
    };
    assert_eq!(mode(None), LandlockFsMode::WorkspaceWrite);
    assert_eq!(mode(Some("")), LandlockFsMode::WorkspaceWrite);
    assert_eq!(mode(Some("workspace-write")), LandlockFsMode::WorkspaceWrite);
    assert_eq!(mode(Some("read-only")), LandlockFsMode::ReadOnly);
    assert_eq!(
        LandlockBackend::from_environment(None, Err("gone".to_string()), 0).unwrap_err(),
        "gone"
    );
}

#[test]
fn only_the_workspace_may_be_changed() {
    let write = LandlockBackend::new("/ws".into(), LandlockFsMode::WorkspaceWrite, 0);
    let rules = write.path_rules("/ws");
    assert_eq!(rules.len(), 2);
    assert_eq!(rules[0].path, "/");
    assert_eq!(rules[0].access & (ACCESS_WRITE_FILE | ACCESS_MAKE_DIR), 0);
    assert_ne!(rules[0].access & ACCESS_READ_FILE, 0);
    assert_eq!(rules[1].path, "/ws");
    assert_ne!(rules[1].access & ACCESS_WRITE_FILE, 0);
    let read = LandlockBackend::new("/ws".into(), LandlockFsMode::ReadOnly, 0);
    assert_eq!(read.path_rules("/ws").len(), 1);
}

#[test]
fn the_executor_needs_a_home() {
    let found = local_executor_environment(
        "linux",
        None,
        Some("/home/u".to_string()),
        Ok("/ws".to_string()),
        4,
    )
    .unwrap();
    assert_eq!(found.home, "/home/u");
    assert_eq!(found.generation, 4);
    for profile in [None, Some(String::new())] {
        let refused = local_executor_environment("linux", profile, None, Ok("/ws".to_string()), 4);
        assert_eq!(refused.unwrap_err(), "executor home is unavailable");
    }
}

struct FakeRestrictedBackend;

impl RestrictedBackend for FakeRestrictedBackend {
    fn execute(&self, _: &CommandSpec) -> Result<ExecutionOutput, String> {
        Ok(ExecutionOutput {
            process_id: OWN_PROCESS_ID + 1,
            exit_code: 0,
            stdout: b"sandboxed".to_vec(),
            stderr: vec![b'a', 0xff],
            restricted: true,
        })
    }
}

struct Unproven;

impl RestrictedBackend for Unproven {
    fn execute(&self, _: &CommandSpec) -> Result<ExecutionOutput, String> {
        Ok(ExecutionOutput {
            process_id: OWN_PROCESS_ID,
            exit_code: 0,
            stdout: Vec::new(),
            stderr: Vec::new(),
            restricted: true,
        })
    }
}

struct FixedApprover(Decision);

impl Approver for FixedApprover {
    fn decide(&self, _: &EscalationRequest) -> Decision {
        self.0
    }
}

struct KnownContext;

impl AuthorizationContextProvider for KnownContext {
    fn current_context(&self) -> Result<AuthorizationContext, ErrorEnvelope> {
        Ok(AuthorizationContext {
            policy_epoch: 0,
            permission_profile_hash: "restricted-backend".into(),
            executor: ExecutorEnvironment {
                os: "linux".into(),
                home: "/home/u".into(),
                workspace: "/ws".into(),
                generation: 0,
            },
        })
    }
}

fn escalation_args() -> Json {
    Json::parse(
        "{\"program\":\"ignored.exe\",\"sandbox_permissions\":\"workspace-write\",\
         \"justification\":\"need to write generated files\"}",
    )
    .unwrap()
}

fn failure_of(outcome: ToolOutcome) -> ErrorEnvelope {
    match outcome {
        ToolOutcome::Failure { error } => error,
        other => panic!("expected a failure, got {other:?}"),
    }
}

#[test]
fn exec_escalation_without_approver_fails_closed_and_is_audited() {
    let pool = RestrictedProcessPool::new(FakeRestrictedBackend);
    let run =
        execute_restricted(&escalation_args(), &pool, None, Some(&KnownContext), OWN_PROCESS_ID);
    assert_eq!(run.audits, [ToolAudit::ApprovalDecided { approved: false }]);
    assert_eq!(failure_of(run.outcome).code, ErrorCode::ApprovalRejected);
}

#[test]
fn approved_exec_returns_proven_restricted_child_result() {
    let pool = RestrictedProcessPool::new(FakeRestrictedBackend);
    let run = execute_restricted(
        &escalation_args(),
        &pool,
        Some(&FixedApprover(Decision::Approved)),
        Some(&KnownContext),
        OWN_PROCESS_ID,
    );
    assert_eq!(run.audits, [ToolAudit::ApprovalDecided { approved: true }]);
    match run.outcome {
        ToolOutcome::Success { value } => {
            assert_eq!(value.get("restricted"), Some(&Json::Bool(true)));
            assert_eq!(value.get("process_id").unwrap().as_u64(), Some(42));
            assert_eq!(value.get("stdout").unwrap().as_text().unwrap(), "sandboxed");
            assert_eq!(value.get("stderr").unwrap().as_text().unwrap(), "a\u{fffd}");
        }
        other => panic!("expected restricted success, got {other:?}"),
    }
}

#[test]
fn a_child_that_is_not_proven_restricted_is_refused() {
    let pool = RestrictedProcessPool::new(Unproven);
    let args = Json::parse("{\"program\":\"ls\"}").unwrap();
    let run = execute_restricted(&args, &pool, None, None, OWN_PROCESS_ID);
    assert!(run.audits.is_empty());
    let error = failure_of(run.outcome);
    assert_eq!(error.code, ErrorCode::SandboxDenied);
    assert_eq!(error.message, "restricted backend did not prove child-process isolation");
}

#[test]
fn unknown_permissions_are_refused_before_anything_runs() {
    let pool = RestrictedProcessPool::new(FakeRestrictedBackend);
    let args = Json::parse("{\"program\":\"ls\",\"sandbox_permissions\":\"root\"}").unwrap();
    let run = execute_restricted(&args, &pool, None, None, OWN_PROCESS_ID);
    assert!(run.audits.is_empty());
    let error = failure_of(run.outcome);
    assert_eq!(error.code, ErrorCode::ApprovalRejected);
    assert_eq!(
        error.message,
        "invalid sandbox_permissions: unknown variant `root`, expected one of `read-only`, \
         `workspace-write`, `danger-full-access`"
    );
}

#[test]
fn permissions_of_another_shape_are_named_in_the_error() {
    let pool = RestrictedProcessPool::new(FakeRestrictedBackend);
    let message = |value: &str| {
        let args = format!("{{\"program\":\"ls\",\"sandbox_permissions\":{value}}}");
        let args = Json::parse(&args).unwrap();
        let run = execute_restricted(&args, &pool, None, None, OWN_PROCESS_ID);
        failure_of(run.outcome).message
    };
    let cases = [
        ("null", "invalid type: null, expected string or map"),
        ("true", "invalid type: boolean `true`, expected string or map"),
        ("-3", "invalid type: integer `-3`, expected string or map"),
        ("1.5", "invalid type: floating point `1.5`, expected string or map"),
        ("[]", "invalid type: sequence, expected string or map"),
        ("{}", "invalid value: map, expected map with a single key"),
        ("{\"read-only\":\"x\"}", "invalid type: string \"x\", expected unit"),
        ("{\"read-only\":{}}", "invalid type: map, expected unit"),
    ];
    for (value, detail) in cases {
        assert_eq!(message(value), format!("invalid sandbox_permissions: {detail}"));
    }
}

#[test]
fn the_command_is_read_from_the_arguments() {
    let args = Json::parse("{\"program\":\"ls\",\"args\":[\"-l\",3,\"x\"]}").unwrap();
    let command = exec_command(&args);
    assert_eq!(command.program, "ls");
    assert_eq!(command.args, ["-l", "x"]);
    assert_eq!(command.current_dir, None);
}

#[test]
fn the_exec_tool_can_ask_for_a_wider_mode() {
    let spec = exec_tool_spec();
    assert_eq!(spec.name, "exec");
    assert!(spec.escalation_capable);
    assert_eq!(
        spec.parameters_schema.get("required"),
        Some(&Json::Array(vec![Json::Text("program".into())]))
    );
}
