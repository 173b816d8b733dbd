use ideal_harness::approval::{
    approve_escalation, check_grant, validate_escalation_args, validate_grant, ApprovalAudit,
    Approver, AuthorizationContextProvider, Decision, EscalationRequest,
};
use ideal_harness::protocol::{
    AuthorizationContext, ErrorCode, ErrorEnvelope, ExecutorEnvironment,
};
use ideal_harness::sandbox_policy::SandboxMode;
use std::cell::Cell;

struct Fixed(Decision);

impl Approver for Fixed {
    fn decide(&self, _: &EscalationRequest) -> Decision {
        self.0
    }
}

struct Contexts {
    values: Vec<AuthorizationContext>,
    next: Cell<usize>,
}

impl Contexts {
    fn of(values: Vec<AuthorizationContext>) -> Self {
        Self { values, next: Cell::new(0) }
    }

    fn stable() -> Self {
        Self::of(vec![context(), context()])
    }

    fn changed(current: AuthorizationContext) -> Self {
        Self::of(vec![context(), current])
    }
}

impl AuthorizationContextProvider for Contexts {
    fn current_context(&self) -> Result<AuthorizationContext, ErrorEnvelope> {
        let index = self.next.get();
        self.next.set(index + 1);
        self.values
            .get(index)
            .cloned()
            .ok_or_else(|| ErrorEnvelope::of(ErrorCode::ApprovalRejected, "context unavailable"))
    }
}

fn context() -> AuthorizationContext {
    AuthorizationContext {
        policy_epoch: 7,
        permission_profile_hash: "profile-v1".into(),
        executor: ExecutorEnvironment {
            os: "windows".into(),
            home: "C:/Users/test".into(),
            workspace: "D:/work".into(),
            generation: 11,
        },
    }
}

fn request(mode: SandboxMode) -> EscalationRequest {
    EscalationRequest { requested_mode: mode, justification: "need access".into() }
}

#[test]
fn orphan_justification_is_invalid() {
    let e = validate_escalation_args(None, Some("because")).unwrap_err();
    assert_eq!(e.code, ErrorCode::ApprovalRejected);
}

#[test]
fn bare_permissions_without_justification_is_invalid() {
    let e = validate_escalation_args(Some(SandboxMode::WorkspaceWrite), None).unwrap_err();
    assert_eq!(e.code, ErrorCode::ApprovalRejected);
}

#[test]
fn blank_justification_is_invalid() {
    assert!(validate_escalation_args(Some(SandboxMode::WorkspaceWrite), Some("   ")).is_err());
}

#[test]
fn valid_pair_passes_and_noop_passes() {
    assert!(validate_escalation_args(
        Some(SandboxMode::WorkspaceWrite),
        Some("need to write workspace files")
    )
    .is_ok());
    assert!(validate_escalation_args(None, None).is_ok());
}

#[test]
fn no_approver_fails_closed() {
    let contexts = Contexts::stable();
    let evaluation = approve_escalation(
        SandboxMode::ReadOnly,
        request(SandboxMode::WorkspaceWrite),
        None,
        Some(&contexts),
    );
    let e = evaluation.result.unwrap_err();
    assert_eq!(e.code, ErrorCode::ApprovalRejected);
}

#[test]
fn rejection_keeps_current_mode() {
    let contexts = Contexts::stable();
    let e = approve_escalation(
        SandboxMode::ReadOnly,
        request(SandboxMode::DangerFullAccess),
        Some(&Fixed(Decision::Rejected)),
        Some(&contexts),
    )
    .result
    .unwrap_err();
    assert_eq!(e.code, ErrorCode::ApprovalRejected);
}

#[test]
fn narrowing_attempt_rejected_even_with_approver() {
    let e = approve_escalation(
        SandboxMode::WorkspaceWrite,
        request(SandboxMode::ReadOnly),
        Some(&Fixed(Decision::Approved)),
        Some(&Contexts::stable()),
    )
    .result
    .unwrap_err();
    assert_eq!(e.code, ErrorCode::SandboxDenied);
}

#[test]
fn approved_escalation_returns_bound_grant() {
    let contexts = Contexts::stable();
    let evaluation = approve_escalation(
        SandboxMode::ReadOnly,
        request(SandboxMode::WorkspaceWrite),
        Some(&Fixed(Decision::Approved)),
        Some(&contexts),
    );
    let grant = evaluation.result.unwrap();
    assert_eq!(grant.mode, SandboxMode::WorkspaceWrite);
    assert_eq!(grant.authorization, context());
    assert!(matches!(
        evaluation.audits.as_slice(),
        [ApprovalAudit::Decided { approved: true, .. }]
    ));
}

#[test]
fn missing_or_unknown_context_fails_closed() {
    let missing = approve_escalation(
        SandboxMode::ReadOnly,
        request(SandboxMode::WorkspaceWrite),
        Some(&Fixed(Decision::Approved)),
        None,
    );
    assert_eq!(missing.result.unwrap_err().code, ErrorCode::ApprovalRejected);

    let mut unknown = context();
    unknown.executor.workspace.clear();
    let contexts = Contexts::of(vec![unknown]);
    let invalid = approve_escalation(
        SandboxMode::ReadOnly,
        request(SandboxMode::WorkspaceWrite),
        Some(&Fixed(Decision::Approved)),
        Some(&contexts),
    );
    assert_eq!(invalid.result.unwrap_err().code, ErrorCode::ApprovalRejected);
}

#[test]
fn policy_workspace_and_executor_changes_invalidate_approval() {
    let mut changed_values = Vec::new();

    let mut epoch = context();
    epoch.policy_epoch += 1;
    changed_values.push(epoch);

    let mut profile = context();
    profile.permission_profile_hash = "profile-v2".into();
    profile.executor.workspace = "D:/other".into();
    changed_values.push(profile);

    let mut target = context();
    target.executor.generation += 1;
    changed_values.push(target);

    for changed in changed_values {
        let contexts = Contexts::changed(changed.clone());
        let evaluation = approve_escalation(
            SandboxMode::ReadOnly,
            request(SandboxMode::WorkspaceWrite),
            Some(&Fixed(Decision::Approved)),
            Some(&contexts),
        );
        assert_eq!(evaluation.result.unwrap_err().code, ErrorCode::ApprovalRejected);
        assert!(matches!(
            evaluation.audits.as_slice(),
            [
                ApprovalAudit::Decided { approved: false, .. },
                ApprovalAudit::Invalidated { current, .. }
            ] if current == &changed
        ));
    }
}

#[test]
fn approved_grant_is_revalidated_before_reuse() {
    let contexts = Contexts::stable();
    let grant = approve_escalation(
        SandboxMode::ReadOnly,
        request(SandboxMode::WorkspaceWrite),
        Some(&Fixed(Decision::Approved)),
        Some(&contexts),
    )
    .result
    .unwrap();

    let mut changed = context();
    changed.executor.generation += 1;
    let changed_provider = Contexts::of(vec![changed.clone()]);
    let validation = validate_grant(&grant, Some(&changed_provider));
    assert_eq!(validation.result.unwrap_err().code, ErrorCode::ApprovalRejected);
    assert!(matches!(
        validation.audits.as_slice(),
        [ApprovalAudit::Invalidated { current, .. }] if current == &changed
    ));
}

#[test]
fn a_grant_holds_while_its_context_stands() {
    let grant = approve_escalation(
        SandboxMode::ReadOnly,
        request(SandboxMode::WorkspaceWrite),
        Some(&Fixed(Decision::Approved)),
        Some(&Contexts::stable()),
    )
    .result
    .unwrap();
    let again = check_grant(&grant, Some(Ok(context())));
    assert_eq!(again.result, Ok(grant.clone()));
    assert!(again.audits.is_empty());
    assert_eq!(
        check_grant(&grant, None).result.unwrap_err().code,
        ErrorCode::ApprovalRejected
    );
}

#[test]
fn a_refusal_is_recorded_with_its_context() {
    let evaluation = approve_escalation(
        SandboxMode::ReadOnly,
        request(SandboxMode::WorkspaceWrite),
        Some(&Fixed(Decision::Rejected)),
        Some(&Contexts::stable()),
    );
    assert_eq!(
        evaluation.audits,
        vec![ApprovalAudit::Decided { approved: false, authorization: Some(context()) }]
    );
}
