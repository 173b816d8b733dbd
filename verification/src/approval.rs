//! Escalation of the sandbox mode: who may widen it, and to what a grant is bound.
//!
//! Whatever is missing or unknown is a refusal.
use vstd::prelude::*;
use crate::protocol::{
    error, AuthorizationContext, AuthorizationView, ErrorCode, ErrorEnvelope, ErrorView,
};
use crate::sandbox_policy::{widens, SandboxMode, SandboxPolicy};
use crate::text::{blank, is_blank};

verus! {

broadcast use vstd::string::group_string_axioms;

/// What an approver says.
#[derive(Debug, Clone, Copy, PartialEq, Eq, Structural)]
pub enum Decision {
    Approved,
    Rejected,
}

/// One request to widen the mode.
#[derive(Debug)]
pub struct EscalationRequest {
    pub requested_mode: SandboxMode,
    /// Why the wider mode is needed.
    pub justification: String,
}

impl Clone for EscalationRequest {
    fn clone(&self) -> (r: EscalationRequest)
        ensures
            r.requested_mode == self.requested_mode,
            r.justification@ == self.justification@,
    {
        EscalationRequest {
            requested_mode: self.requested_mode,
            justification: self.justification.clone(),
        }
    }
}

/// Decides on requests: a person, a policy engine or a remote service.
pub trait Approver {
    fn decide(&self, request: &EscalationRequest) -> Decision;
}

/// Supplies the facts that an approval is bound to, taken anew on every call, so
/// that a change while an approval is pending is seen.
pub trait AuthorizationContextProvider {
    fn current_context(&self) -> Result<AuthorizationContext, ErrorEnvelope>;
}

// ---------------------------------------------------------------------------
// Grants and evaluations
// ---------------------------------------------------------------------------

/// A wider mode, and the facts under which it was granted.
#[derive(Debug, PartialEq, Eq)]
pub struct ApprovalGrant {
    pub mode: SandboxMode,
    pub authorization: AuthorizationContext,
}

pub struct GrantView {
    pub mode: SandboxMode,
    pub authorization: AuthorizationView,
}

impl View for ApprovalGrant {
    type V = GrantView;

    open spec fn view(&self) -> GrantView {
        GrantView { mode: self.mode, authorization: self.authorization@ }
    }
}

impl Clone for ApprovalGrant {
    fn clone(&self) -> (r: ApprovalGrant)
        ensures
            r@ == self@,
    {
        ApprovalGrant { mode: self.mode, authorization: self.authorization.clone() }
    }
}

/// What is recorded of an evaluation.
#[derive(Debug, PartialEq, Eq)]
pub enum ApprovalAudit {
    Decided { approved: bool, authorization: Option<AuthorizationContext> },
    Invalidated { previous: AuthorizationContext, current: AuthorizationContext },
}

pub enum AuditView {
    Decided { approved: bool, authorization: Option<AuthorizationView> },
    Invalidated { previous: AuthorizationView, current: AuthorizationView },
}

impl View for ApprovalAudit {
    type V = AuditView;

    open spec fn view(&self) -> AuditView {
        match *self {
            ApprovalAudit::Decided { approved, authorization } => AuditView::Decided {
                approved,
                authorization: match authorization {
                    Some(a) => Some(a@),
                    None => None,
                },
            },
            ApprovalAudit::Invalidated { previous, current } => AuditView::Invalidated {
                previous: previous@,
                current: current@,
            },
        }
    }
}

impl Clone for ApprovalAudit {
    fn clone(&self) -> (r: ApprovalAudit)
        ensures
            r@ == self@,
    {
        match self {
            ApprovalAudit::Decided { approved, authorization } => ApprovalAudit::Decided {
                approved: *approved,
                authorization: match authorization {
                    Some(a) => Some(a.clone()),
                    None => None,
                },
            },
            ApprovalAudit::Invalidated { previous, current } => ApprovalAudit::Invalidated {
                previous: previous.clone(),
                current: current.clone(),
            },
        }
    }
}

/// The result of a request, and what is recorded of it.
#[derive(Debug, PartialEq, Eq)]
pub struct ApprovalEvaluation {
    pub result: Result<ApprovalGrant, ErrorEnvelope>,
    pub audits: Vec<ApprovalAudit>,
}

pub struct EvaluationView {
    pub result: Result<GrantView, ErrorView>,
    pub audits: Seq<AuditView>,
}

impl View for ApprovalEvaluation {
    type V = EvaluationView;

    open spec fn view(&self) -> EvaluationView {
        EvaluationView {
            result: match self.result {
                Ok(grant) => Ok(grant@),
                Err(e) => Err(e@),
            },
            audits: self.audits@.map_values(|a: ApprovalAudit| a@),
        }
    }
}

impl Clone for ApprovalEvaluation {
    fn clone(&self) -> (r: ApprovalEvaluation)
        ensures
            r@ == self@,
    {
        let result = match &self.result {
            Ok(grant) => Ok(grant.clone()),
            Err(e) => Err(e.clone()),
        };
        let mut audits: Vec<ApprovalAudit> = Vec::new();
        let mut i: usize = 0;
        while i < self.audits.len()
            invariant
                i <= self.audits@.len(),
                audits@.len() == i,
                forall|k: int| 0 <= k < i ==> (#[trigger] audits@[k])@ == self.audits@[k]@,
            decreases self.audits@.len() - i,
        {
            audits.push(self.audits[i].clone());
            i = i + 1;
        }
        let r = ApprovalEvaluation { result, audits };
        assert(r@.audits =~= self@.audits);
        r
    }
}

/// A context as it was found.
pub open spec fn found_view(found: Result<AuthorizationContext, ErrorEnvelope>) -> Result<
    AuthorizationView,
    ErrorView,
> {
    match found {
        Ok(context) => Ok(context@),
        Err(e) => Err(e@),
    }
}

/// A context as it was found, where one was asked for.
pub open spec fn maybe_found(found: Option<Result<AuthorizationContext, ErrorEnvelope>>) -> Option<
    Result<AuthorizationView, ErrorView>,
> {
    match found {
        Some(f) => Some(found_view(f)),
        None => None,
    }
}

/// What came back for a request.
#[derive(Debug)]
pub enum ApprovalAnswer {
    /// There is nobody to ask.
    NoApprover,
    Rejected,
    /// Approved, with the context that was found afterwards.
    Approved { context: Result<AuthorizationContext, ErrorEnvelope> },
}

pub enum AnswerView {
    NoApprover,
    Rejected,
    Approved { context: Result<AuthorizationView, ErrorView> },
}

impl View for ApprovalAnswer {
    type V = AnswerView;

    open spec fn view(&self) -> AnswerView {
        match *self {
            ApprovalAnswer::NoApprover => AnswerView::NoApprover,
            ApprovalAnswer::Rejected => AnswerView::Rejected,
            ApprovalAnswer::Approved { context } => AnswerView::Approved {
                context: found_view(context),
            },
        }
    }
}

// ---------------------------------------------------------------------------
// The rules
// ---------------------------------------------------------------------------

/// Why a pair of escalation arguments is refused: both or neither must be given, and
/// the justification must say something.
pub open spec fn escalation_args_error(
    requested: Option<SandboxMode>,
    justification: Option<Seq<char>>,
) -> Option<ErrorView> {
    match (requested, justification) {
        (None, None) => None,
        (Some(_), None) => Some(
            error(ErrorCode::ApprovalRejected, "escalation requires a justification"@),
        ),
        (None, Some(_)) => Some(
            error(
                ErrorCode::ApprovalRejected,
                "justification is only valid together with sandbox_permissions"@,
            ),
        ),
        (Some(_), Some(j)) => if blank(j) {
            Some(error(ErrorCode::ApprovalRejected, "justification must be a non-empty sentence"@))
        } else {
            None
        },
    }
}

pub open spec fn unavailable() -> ErrorView {
    error(ErrorCode::ApprovalRejected, "authorization context is unavailable; failing closed"@)
}

/// Whether every fact of a context is known.
pub open spec fn is_known(c: AuthorizationView) -> bool {
    &&& !blank(c.permission_profile_hash)
    &&& !blank(c.executor.os)
    &&& !blank(c.executor.home)
    &&& !blank(c.executor.workspace)
}

/// A context as it was found, with unknown facts turned into an error.
pub open spec fn checked(found: Result<AuthorizationView, ErrorView>) -> Result<
    AuthorizationView,
    ErrorView,
> {
    match found {
        Err(e) => Err(e),
        Ok(c) => if is_known(c) {
            Ok(c)
        } else {
            Err(
                error(
                    ErrorCode::ApprovalRejected,
                    "authorization context contains unknown security facts; failing closed"@,
                ),
            )
        },
    }
}

/// A refusal, recorded with the context that it was given in.
pub open spec fn refusal(e: ErrorView, context: Option<AuthorizationView>) -> EvaluationView {
    EvaluationView {
        result: Err(e),
        audits: seq![AuditView::Decided { approved: false, authorization: context }],
    }
}

/// The context that a request is bound to, or the refusal.
pub open spec fn bound(
    current: SandboxMode,
    requested: SandboxMode,
    found: Option<Result<AuthorizationView, ErrorView>>,
) -> Result<AuthorizationView, EvaluationView> {
    if !widens(current, requested) {
        Err(
            refusal(
                error(ErrorCode::SandboxDenied, "escalation may only widen, never narrow"@),
                None,
            ),
        )
    } else {
        match found {
            None => Err(refusal(unavailable(), None)),
            Some(found) => match checked(found) {
                Ok(c) => Ok(c),
                Err(e) => Err(refusal(e, None)),
            },
        }
    }
}

/// The evaluation of a bound request for an answer.
pub open spec fn concluded(
    requested: SandboxMode,
    before: AuthorizationView,
    answer: AnswerView,
) -> EvaluationView {
    match answer {
        AnswerView::NoApprover => refusal(
            error(
                ErrorCode::ApprovalRejected,
                "no approval service is composed; failing closed"@,
            ),
            Some(before),
        ),
        AnswerView::Rejected => refusal(
            error(
                ErrorCode::ApprovalRejected,
                "escalation rejected by approver; stay within current mode or refine justification"@,
            ),
            Some(before),
        ),
        AnswerView::Approved { context } => match checked(context) {
            Err(e) => refusal(e, Some(before)),
            Ok(after) => if before == after {
                EvaluationView {
                    result: Ok(GrantView { mode: requested, authorization: before }),
                    audits: seq![
                        AuditView::Decided { approved: true, authorization: Some(before) },
                    ],
                }
            } else {
                EvaluationView {
                    result: Err(
                        error(
                            ErrorCode::ApprovalRejected,
                            "authorization context changed while approval was pending; request approval again"@,
                        ),
                    ),
                    audits: seq![
                        AuditView::Decided { approved: false, authorization: Some(before) },
                        AuditView::Invalidated { previous: before, current: after },
                    ],
                }
            },
        },
    }
}

/// The evaluation of a request as a whole.
pub open spec fn evaluated(
    current: SandboxMode,
    requested: SandboxMode,
    found: Option<Result<AuthorizationView, ErrorView>>,
    answer: AnswerView,
) -> EvaluationView {
    match bound(current, requested, found) {
        Err(refused) => refused,
        Ok(before) => concluded(requested, before, answer),
    }
}

/// The evaluation of a grant that is about to be used.
pub open spec fn revalidated(
    grant: GrantView,
    found: Option<Result<AuthorizationView, ErrorView>>,
) -> EvaluationView {
    match found {
        None => EvaluationView { result: Err(unavailable()), audits: Seq::empty() },
        Some(found) => match checked(found) {
            Err(e) => EvaluationView { result: Err(e), audits: Seq::empty() },
            Ok(current) => if current == grant.authorization {
                EvaluationView { result: Ok(grant), audits: Seq::empty() }
            } else {
                EvaluationView {
                    result: Err(
                        error(
                            ErrorCode::ApprovalRejected,
                            "approved authorization is stale; request approval again"@,
                        ),
                    ),
                    audits: seq![
                        AuditView::Invalidated { previous: grant.authorization, current },
                    ],
                }
            },
        },
    }
}

// ---------------------------------------------------------------------------
// Evaluating
// ---------------------------------------------------------------------------

/// Checks that escalation arguments come as a pair.
pub fn validate_escalation_args(
    requested: Option<SandboxMode>,
    justification: Option<&str>,
) -> (r: Result<(), ErrorEnvelope>)
    ensures
        ({
            let e = escalation_args_error(
                requested,
                match justification {
                    Some(j) => Some(j@),
                    None => None,
                },
            );
            match r {
                Ok(()) => e is None,
                Err(found) => e == Some(found@),
            }
        }),
{
    match (requested, justification) {
        (None, None) => Ok(()),
        (Some(_), None) => Err(
            ErrorEnvelope::of(ErrorCode::ApprovalRejected, "escalation requires a justification"),
        ),
        (None, Some(_)) => Err(
            ErrorEnvelope::of(
                ErrorCode::ApprovalRejected,
                "justification is only valid together with sandbox_permissions",
            ),
        ),
        (Some(_), Some(j)) => {
            if is_blank(j) {
                Err(
                    ErrorEnvelope::of(
                        ErrorCode::ApprovalRejected,
                        "justification must be a non-empty sentence",
                    ),
                )
            } else {
                Ok(())
            }
        },
    }
}

/// Turns a context with unknown facts into an error.
pub fn validate_context(found: Result<AuthorizationContext, ErrorEnvelope>) -> (r: Result<
    AuthorizationContext,
    ErrorEnvelope,
>)
    ensures
        found_view(r) == checked(found_view(found)),
{
    match found {
        Err(e) => Err(e),
        Ok(context) => {
            if is_blank(&context.permission_profile_hash) || is_blank(&context.executor.os)
                || is_blank(&context.executor.home) || is_blank(&context.executor.workspace) {
                Err(
                    ErrorEnvelope::of(
                        ErrorCode::ApprovalRejected,
                        "authorization context contains unknown security facts; failing closed",
                    ),
                )
            } else {
                Ok(context)
            }
        },
    }
}

fn rejected_error(
    error: ErrorEnvelope,
    authorization: Option<AuthorizationContext>,
) -> (r: ApprovalEvaluation)
    ensures
        r@ == refusal(
            error@,
            match authorization {
                Some(a) => Some(a@),
                None => None,
            },
        ),
{
    let mut audits: Vec<ApprovalAudit> = Vec::new();
    audits.push(ApprovalAudit::Decided { approved: false, authorization });
    let r = ApprovalEvaluation { result: Err(error), audits };
    assert(r@.audits =~= refusal(error@, r@.audits[0]->authorization).audits);
    r
}

fn rejected(
    code: ErrorCode,
    message: &str,
    authorization: Option<AuthorizationContext>,
) -> (r: ApprovalEvaluation)
    ensures
        r@ == refusal(
            error(code, message@),
            match authorization {
                Some(a) => Some(a@),
                None => None,
            },
        ),
{
    rejected_error(ErrorEnvelope::of(code, message), authorization)
}

/// Binds a request to the context found for it, or refuses it.
pub fn bind_request(
    current: SandboxMode,
    requested: SandboxMode,
    found: Option<Result<AuthorizationContext, ErrorEnvelope>>,
) -> (r: Result<AuthorizationContext, ApprovalEvaluation>)
    ensures
        ({
            let expected = bound(
                current,
                requested,
                maybe_found(found),
            );
            match r {
                Ok(context) => expected == Ok::<AuthorizationView, EvaluationView>(context@),
                Err(refused) => expected == Err::<AuthorizationView, EvaluationView>(refused@),
            }
        }),
{
    if !SandboxPolicy::can_widen(current, requested) {
        return Err(
            rejected(ErrorCode::SandboxDenied, "escalation may only widen, never narrow", None),
        );
    }
    match found {
        None => Err(
            rejected(
                ErrorCode::ApprovalRejected,
                "authorization context is unavailable; failing closed",
                None,
            ),
        ),
        Some(found) => match validate_context(found) {
            Ok(context) => Ok(context),
            Err(e) => Err(rejected_error(e, None)),
        },
    }
}

/// Evaluates a bound request for an answer.
pub fn conclude_request(
    requested: SandboxMode,
    before: AuthorizationContext,
    answer: ApprovalAnswer,
) -> (r: ApprovalEvaluation)
    ensures
        r@ == concluded(requested, before@, answer@),
{
    match answer {
        ApprovalAnswer::NoApprover => rejected(
            ErrorCode::ApprovalRejected,
            "no approval service is composed; failing closed",
            Some(before),
        ),
        ApprovalAnswer::Rejected => rejected(
            ErrorCode::ApprovalRejected,
            "escalation rejected by approver; stay within current mode or refine justification",
            Some(before),
        ),
        ApprovalAnswer::Approved { context } => {
            let after = match validate_context(context) {
                Ok(after) => after,
                Err(e) => {
                    return rejected_error(e, Some(before));
                },
            };
            let mut audits: Vec<ApprovalAudit> = Vec::new();
            if !before.same(&after) {
                audits.push(
                    ApprovalAudit::Decided {
                        approved: false,
                        authorization: Some(before.clone()),
                    },
                );
                audits.push(ApprovalAudit::Invalidated { previous: before, current: after });
                let r = ApprovalEvaluation {
                    result: Err(
                        ErrorEnvelope::of(
                            ErrorCode::ApprovalRejected,
                            "authorization context changed while approval was pending; request approval again",
                        ),
                    ),
                    audits,
                };
                assert(r@.audits =~= concluded(requested, before@, answer@).audits);
                return r;
            }
            audits.push(
                ApprovalAudit::Decided { approved: true, authorization: Some(before.clone()) },
            );
            let r = ApprovalEvaluation {
                result: Ok(ApprovalGrant { mode: requested, authorization: before }),
                audits,
            };
            assert(r@.audits =~= concluded(requested, before@, answer@).audits);
            r
        },
    }
}

/// The provider was asked for the context and gave `r`.
pub open spec fn context_told<P: AuthorizationContextProvider + ?Sized>(
    provider: &P,
    r: Result<AuthorizationContext, ErrorEnvelope>,
) -> bool {
    call_ensures(P::current_context, (provider,), r)
}

/// The approver was shown the request and decided so.
pub open spec fn decision_made<A: Approver + ?Sized>(
    approver: &A,
    request: &EscalationRequest,
    d: Decision,
) -> bool {
    call_ensures(A::decide, (approver, request), d)
}

/// What the provider, if there is one, gave as the context.
pub open spec fn found_by(
    provider: Option<&dyn AuthorizationContextProvider>,
    found: Option<Result<AuthorizationView, ErrorView>>,
) -> bool {
    match provider {
        None => found is None,
        Some(p) => exists|r: Result<AuthorizationContext, ErrorEnvelope>| #[trigger]
            context_told(p, r) && found == Some(found_view(r)),
    }
}

/// What the approver, if there is one, made of a request for `mode`.
pub open spec fn decided_by(
    approver: Option<&dyn Approver>,
    mode: SandboxMode,
    justification: Seq<char>,
    d: Decision,
) -> bool {
    approver is Some && exists|request: EscalationRequest| #[trigger]
        decision_made(approver->0, &request, d) && request.requested_mode == mode
            && request.justification@ == justification
}

/// The context and the answer are those that the provider and the approver gave, as far
/// as they were asked: a request that only narrows asks nobody, and the approver is
/// asked only where the context is known.
pub open spec fn consulted(
    current: SandboxMode,
    mode: SandboxMode,
    justification: Seq<char>,
    approver: Option<&dyn Approver>,
    provider: Option<&dyn AuthorizationContextProvider>,
    found: Option<Result<AuthorizationView, ErrorView>>,
    answer: AnswerView,
) -> bool {
    &&& widens(current, mode) ==> found_by(provider, found)
    &&& bound(current, mode, found) is Ok ==> match answer {
        AnswerView::NoApprover => approver is None,
        AnswerView::Rejected => decided_by(approver, mode, justification, Decision::Rejected),
        AnswerView::Approved { context } => {
            &&& decided_by(approver, mode, justification, Decision::Approved)
            &&& found_by(provider, Some(context))
        },
    }
}

/// Evaluates a request to widen the mode. The context is taken before the approver
/// is asked and again after an approval; a change in between refuses the request.
pub fn approve_escalation(
    current: SandboxMode,
    request: EscalationRequest,
    approver: Option<&dyn Approver>,
    context_provider: Option<&dyn AuthorizationContextProvider>,
) -> (r: ApprovalEvaluation)
    ensures
        exists|found: Option<Result<AuthorizationView, ErrorView>>, answer: AnswerView|
            {
                &&& r@ == #[trigger] evaluated(current, request.requested_mode, found, answer)
                &&& consulted(
                    current,
                    request.requested_mode,
                    request.justification@,
                    approver,
                    context_provider,
                    found,
                    answer,
                )
            },
        !widens(current, request.requested_mode) ==> r@ == refusal(
            error(ErrorCode::SandboxDenied, "escalation may only widen, never narrow"@),
            None,
        ),
        widens(current, request.requested_mode) && context_provider is None ==> r@ == refusal(
            unavailable(),
            None,
        ),
{
    let requested = request.requested_mode;
    let found = match context_provider {
        Some(provider) => {
            if SandboxPolicy::can_widen(current, requested) {
                let told = provider.current_context();
                assert(context_told(provider, told));
                Some(told)
            } else {
                None
            }
        },
        None => None,
    };
    let ghost first = maybe_found(found);
    let before = match bind_request(current, requested, found) {
        Ok(before) => before,
        Err(refused) => {
            assert(refused@ == evaluated(current, requested, first, AnswerView::NoApprover));
            return refused;
        },
    };
    let answer = match (approver, context_provider) {
        (Some(approver), Some(provider)) => {
            let decision = approver.decide(&request);
            assert(decision_made(approver, &request, decision));
            match decision {
                Decision::Approved => {
                    let told = provider.current_context();
                    assert(context_told(provider, told));
                    ApprovalAnswer::Approved { context: told }
                },
                Decision::Rejected => ApprovalAnswer::Rejected,
            }
        },
        _ => ApprovalAnswer::NoApprover,
    };
    let ghost reply = answer@;
    let r = conclude_request(requested, before, answer);
    assert(r@ == evaluated(current, requested, first, reply));
    r
}

/// Evaluates a grant for the context found when it is about to be used.
pub fn check_grant(
    grant: &ApprovalGrant,
    found: Option<Result<AuthorizationContext, ErrorEnvelope>>,
) -> (r: ApprovalEvaluation)
    ensures
        r@ == revalidated(
            grant@,
            maybe_found(found),
        ),
{
    let ghost expected = revalidated(
        grant@,
        maybe_found(found),
    );
    let mut audits: Vec<ApprovalAudit> = Vec::new();
    let found = match found {
        None => {
            let r = ApprovalEvaluation {
                result: Err(
                    ErrorEnvelope::of(
                        ErrorCode::ApprovalRejected,
                        "authorization context is unavailable; failing closed",
                    ),
                ),
                audits,
            };
            assert(r@.audits =~= expected.audits);
            return r;
        },
        Some(found) => found,
    };
    let current = match validate_context(found) {
        Ok(current) => current,
        Err(e) => {
            let r = ApprovalEvaluation { result: Err(e), audits };
            assert(r@.audits =~= expected.audits);
            return r;
        },
    };
    if current.same(&grant.authorization) {
        let r = ApprovalEvaluation { result: Ok(grant.clone()), audits };
        assert(r@.audits =~= expected.audits);
        return r;
    }
    audits.push(
        ApprovalAudit::Invalidated { previous: grant.authorization.clone(), current },
    );
    let r = ApprovalEvaluation {
        result: Err(
            ErrorEnvelope::of(
                ErrorCode::ApprovalRejected,
                "approved authorization is stale; request approval again",
            ),
        ),
        audits,
    };
    assert(r@.audits =~= expected.audits);
    r
}

/// Evaluates a grant immediately before it is used. In a changed context it is not
/// used again, and the change is recorded.
pub fn validate_grant(
    grant: &ApprovalGrant,
    context_provider: Option<&dyn AuthorizationContextProvider>,
) -> (r: ApprovalEvaluation)
    ensures
        exists|found: Option<Result<AuthorizationView, ErrorView>>|
            r@ == #[trigger] revalidated(grant@, found) && found_by(context_provider, found),
{
    let found = match context_provider {
        Some(provider) => {
            let told = provider.current_context();
            assert(context_told(provider, told));
            Some(told)
        },
        None => None,
    };
    let ghost first = maybe_found(found);
    let r = check_grant(grant, found);
    assert(r@ == revalidated(grant@, first));
    r
}

// ---------------------------------------------------------------------------
// Laws
// ---------------------------------------------------------------------------

/// A grant takes everything: a wider mode, a known context, an approval, and the
/// same context afterwards. Without any one of them the request is refused, and the
/// grant is for exactly the mode and the context of the request.
pub proof fn nothing_is_granted_by_default(
    current: SandboxMode,
    requested: SandboxMode,
    found: Option<Result<AuthorizationView, ErrorView>>,
    answer: AnswerView,
)
    ensures
        evaluated(current, requested, found, answer).result is Ok <==> {
            &&& widens(current, requested)
            &&& found matches Some(Ok(before)) && {
                &&& is_known(before)
                &&& answer matches AnswerView::Approved { context: Ok(after) } && before == after
            }
        },
        evaluated(current, requested, found, answer).result matches Ok(grant) ==> {
            &&& grant.mode == requested
            &&& grant.authorization == found->0->Ok_0
        },
{
}

/// Every evaluation of a request is recorded first with whether it was granted.
pub proof fn every_request_is_recorded(
    current: SandboxMode,
    requested: SandboxMode,
    found: Option<Result<AuthorizationView, ErrorView>>,
    answer: AnswerView,
)
    ensures
        ({
            let e = evaluated(current, requested, found, answer);
            &&& e.audits.len() >= 1
            &&& e.audits[0] matches AuditView::Decided { approved, .. } && approved
                == (e.result is Ok)
        }),
{
}

/// A grant is used only in the context in which it was given, and every other known
/// context is recorded as the one that made it stale.
pub proof fn a_grant_holds_in_its_own_context_only(
    grant: GrantView,
    context: AuthorizationView,
)
    ensures
        revalidated(grant, Some(Ok(context))).result is Ok <==> is_known(context) && context
            == grant.authorization,
        revalidated(grant, Some(Ok(context))).result matches Ok(g) ==> g == grant,
        is_known(context) && context != grant.authorization ==> revalidated(
            grant,
            Some(Ok(context)),
        ).audits == seq![AuditView::Invalidated { previous: grant.authorization, current: context }],
{
}

/// An escalation is asked for with both a mode and a reason that says something, or not at
/// all.
pub proof fn a_wider_mode_needs_a_reason(
    requested: Option<SandboxMode>,
    justification: Option<Seq<char>>,
)
    ensures
        escalation_args_error(requested, justification) is None <==> {
            ||| requested is None && justification is None
            ||| requested is Some && justification is Some && !blank(justification->0)
        },
        escalation_args_error(requested, justification) is Some ==> escalation_args_error(
            requested,
            justification,
        )->0.code == ErrorCode::ApprovalRejected,
{
}

/// A grant is of the mode that was asked for, and bound to what was known when it was asked
/// for. What narrows is refused by the sandbox; anything else that is refused was not approved.
pub proof fn a_grant_is_of_what_was_asked(
    current: SandboxMode,
    requested: SandboxMode,
    found: Option<Result<AuthorizationView, ErrorView>>,
    answer: AnswerView,
)
    ensures
        ({
            let e = evaluated(current, requested, found, answer);
            &&& e.result matches Ok(grant) ==> grant.mode == requested && found == Some(
                Ok::<AuthorizationView, ErrorView>(grant.authorization),
            )
            &&& e.result is Ok ==> e.audits.len() == 1 && e.audits[0] == (AuditView::Decided {
                approved: true,
                authorization: Some(e.result->Ok_0.authorization),
            })
            &&& !widens(current, requested) ==> e.result is Err && e.result->Err_0.code
                == ErrorCode::SandboxDenied
            &&& widens(current, requested) && found is None ==> e.result is Err
                && e.result->Err_0.code == ErrorCode::ApprovalRejected
            &&& widens(current, requested) && (found matches Some(Ok(before)) && is_known(before)
                && answer is Rejected) ==> e.result is Err && e.result->Err_0.code
                == ErrorCode::ApprovalRejected
        }),
{
}

/// Where what is known changed while the approval was pending, the change is recorded.
pub proof fn a_change_is_recorded(
    current: SandboxMode,
    requested: SandboxMode,
    before: AuthorizationView,
    after: AuthorizationView,
)
    requires
        widens(current, requested),
        is_known(before),
        is_known(after),
        before != after,
    ensures
        ({
            let e = evaluated(
                current,
                requested,
                Some(Ok(before)),
                AnswerView::Approved { context: Ok(after) },
            );
            &&& e.result is Err
            &&& e.result->Err_0.code == ErrorCode::ApprovalRejected
            &&& e.audits.len() == 2
            &&& e.audits[1] == (AuditView::Invalidated { previous: before, current: after })
        }),
{
}

/// What is known of the executor is known where none of its four texts is blank.
pub proof fn what_must_be_known(c: AuthorizationView)
    ensures
        is_known(c) <==> !blank(c.permission_profile_hash) && !blank(c.executor.os) && !blank(
            c.executor.home,
        ) && !blank(c.executor.workspace),
        checked(Ok(c)) is Ok <==> is_known(c),
        checked(Ok(c)) is Ok ==> checked(Ok(c))->Ok_0 == c,
{
}

/// A refusal is on record with what was known when it was asked for, where anything was; the
/// record is one, unless what is known changed.
pub proof fn how_a_refusal_is_recorded(
    current: SandboxMode,
    requested: SandboxMode,
    found: Option<Result<AuthorizationView, ErrorView>>,
    answer: AnswerView,
    before: AuthorizationView,
)
    ensures
        ({
            let e = evaluated(current, requested, found, answer);
            &&& !widens(current, requested) || found is None || found->0 is Err || !is_known(
                found->0->Ok_0,
            ) ==> e.audits == seq![AuditView::Decided { approved: false, authorization: None }]
            &&& widens(current, requested) && found == Some(Ok::<AuthorizationView, ErrorView>(before))
                && is_known(before) && (answer is NoApprover || answer is Rejected) ==> e.audits
                == seq![AuditView::Decided { approved: false, authorization: Some(before) }]
                && e.result->Err_0.code == ErrorCode::ApprovalRejected
            &&& widens(current, requested) && found is Some && found->0 is Err ==> e.result == Err::<
                GrantView,
                ErrorView,
            >(found->0->Err_0)
        }),
{
}

/// A grant is looked at again without asking anyone: what is not known or not found is an
/// error, and nothing is recorded of it.
pub proof fn how_a_grant_is_looked_at_again(grant: GrantView, e: ErrorView)
    ensures
        revalidated(grant, None).result is Err,
        revalidated(grant, None).audits.len() == 0,
        revalidated(grant, Some(Err(e))).result == Err::<GrantView, ErrorView>(e),
        is_known(grant.authorization) ==> revalidated(
            grant,
            Some(Ok(grant.authorization)),
        ).result == Ok::<GrantView, ErrorView>(grant) && revalidated(
            grant,
            Some(Ok(grant.authorization)),
        ).audits.len() == 0,
{
}

/// What is told of the executor is what the provider of it told; without one nothing is.
pub proof fn what_is_told_of_the_executor(
    provider: Option<&dyn AuthorizationContextProvider>,
    found: Option<Result<AuthorizationView, ErrorView>>,
    told: Result<AuthorizationContext, ErrorEnvelope>,
)
    ensures
        provider is None ==> (found_by(provider, found) <==> found is None),
        provider is Some && found_by(provider, found) ==> found is Some,
        told is Ok ==> found_view(told) == Ok::<AuthorizationView, ErrorView>(told->Ok_0@),
        told is Err ==> found_view(told) == Err::<AuthorizationView, ErrorView>(told->Err_0@),
        maybe_found(Some(told)) == Some(found_view(told)),
        maybe_found(None) is None,
{
}

} // verus!
