//! The last check before a tool's result reaches the model: a middleware may allow
//! it, replace it or refuse it. Results of plugins never pass without one.
use vstd::prelude::*;
use crate::protocol::{error, ErrorCode, ErrorEnvelope, OutcomeView, ToolOutcome};
use crate::text::concat2;
use crate::tools::{plugin_said, says_plugin, ToolDispatcher};

verus! {

broadcast use vstd::string::group_string_axioms;

/// A result that waits for a decision.
pub struct ToolResultContext<'a> {
    pub call_id: &'a str,
    pub tool: &'a str,
    pub outcome: &'a ToolOutcome,
}

#[derive(Debug, PartialEq, Eq, Clone)]
pub enum ToolResultDecision {
    Allow,
    /// The replacement is what the model and the event stream see.
    Redact(ToolOutcome),
    Reject(ErrorEnvelope),
}

/// Decides on results. An error of its own counts as a refusal.
pub trait ToolResultMiddleware {
    fn inspect(&self, context: &ToolResultContext) -> Result<ToolResultDecision, ErrorEnvelope>;
}

/// The middleware was shown a result and answered so.
pub open spec fn inspected<M: ToolResultMiddleware + ?Sized>(
    middleware: &M,
    context: &ToolResultContext,
    r: Result<ToolResultDecision, ErrorEnvelope>,
) -> bool {
    call_ensures(M::inspect, (middleware, context), r)
}

/// What the middleware, if there is one, said of a result.
pub open spec fn answered_on(
    middleware: Option<&dyn ToolResultMiddleware>,
    call_id: Seq<char>,
    tool: Seq<char>,
    outcome: OutcomeView,
    answer: Option<Result<ToolResultDecision, ErrorEnvelope>>,
) -> bool {
    match middleware {
        None => answer is None,
        Some(m) => answer is Some && exists|context: ToolResultContext| #[trigger]
            inspected(m, &context, answer->0) && context.call_id@ == call_id && context.tool@
                == tool && context.outcome@ == outcome,
    }
}

pub open spec fn absent_outcome(tool: Seq<char>) -> OutcomeView {
    OutcomeView::Failure {
        error: error(
            ErrorCode::Internal,
            "security result middleware is absent; refusing to expose plugin tool result: "@ + tool,
        ),
    }
}

/// What becomes of a result. `answer` is what the middleware said, or nothing
/// where there is no middleware.
pub open spec fn guarded_outcome(
    answer: Option<Result<ToolResultDecision, ErrorEnvelope>>,
    plugin: bool,
    tool: Seq<char>,
    outcome: OutcomeView,
) -> OutcomeView {
    match answer {
        None => if plugin {
            absent_outcome(tool)
        } else {
            outcome
        },
        Some(Ok(ToolResultDecision::Allow)) => outcome,
        Some(Ok(ToolResultDecision::Redact(replacement))) => replacement@,
        Some(Ok(ToolResultDecision::Reject(e))) => OutcomeView::Failure { error: e@ },
        Some(Err(failure)) => OutcomeView::Failure {
            error: error(
                ErrorCode::Internal,
                "security result middleware failed: "@ + failure@.message,
            ),
        },
    }
}

/// Applies what the middleware said to a result.
pub fn apply_decision(
    answer: Option<Result<ToolResultDecision, ErrorEnvelope>>,
    plugin: bool,
    tool: &str,
    outcome: ToolOutcome,
) -> (r: ToolOutcome)
    ensures
        r@ == guarded_outcome(answer, plugin, tool@, outcome@),
{
    match answer {
        None => {
            if plugin {
                return ToolOutcome::Failure {
                    error: ErrorEnvelope::new(
                        ErrorCode::Internal,
                        concat2(
                            "security result middleware is absent; refusing to expose plugin tool result: ",
                            tool,
                        ),
                    ),
                };
            }
            outcome
        },
        Some(Ok(ToolResultDecision::Allow)) => outcome,
        Some(Ok(ToolResultDecision::Redact(replacement))) => replacement,
        Some(Ok(ToolResultDecision::Reject(e))) => ToolOutcome::Failure { error: e },
        Some(Err(failure)) => ToolOutcome::Failure {
            error: ErrorEnvelope::new(
                ErrorCode::Internal,
                concat2("security result middleware failed: ", &failure.message),
            ),
        },
    }
}

/// Asks the middleware about a result. Without one, results of plugins are
/// refused and others pass.
pub fn guard_tool_result<D: ToolDispatcher + ?Sized>(
    middleware: Option<&dyn ToolResultMiddleware>,
    registry: &D,
    call_id: &str,
    tool: &str,
    outcome: ToolOutcome,
) -> (r: ToolOutcome)
    ensures
        exists|answer: Option<Result<ToolResultDecision, ErrorEnvelope>>, plugin: bool|
            answered_on(middleware, call_id@, tool@, outcome@, answer) && says_plugin(
                registry,
                tool@,
                plugin,
            ) && r@ == #[trigger] guarded_outcome(answer, plugin, tool@, outcome@),
{
    let plugin = registry.is_plugin_tool(tool);
    let answer = match middleware {
        None => None,
        Some(middleware) => {
            let context = ToolResultContext { call_id, tool, outcome: &outcome };
            let said = middleware.inspect(&context);
            assert(inspected(middleware, &context, said));
            Some(said)
        },
    };
    assert(plugin_said(registry, tool, plugin));
    let ghost said = answer;
    let ghost before = outcome@;
    let r = apply_decision(answer, plugin, tool, outcome);
    assert(r@ == guarded_outcome(said, plugin, tool@, before));
    r
}

/// A plugin's result is never shown as it is unless a middleware allowed it.
pub proof fn plugin_results_need_a_middleware(
    answer: Option<Result<ToolResultDecision, ErrorEnvelope>>,
    tool: Seq<char>,
    outcome: OutcomeView,
)
    requires
        !(answer matches Some(Ok(ToolResultDecision::Allow))),
        !(answer matches Some(Ok(ToolResultDecision::Redact(_)))),
    ensures
        guarded_outcome(answer, true, tool, outcome) is Failure,
{
}

// ---------------------------------------------------------------------------
// Laws
// ---------------------------------------------------------------------------

/// Without an answer the result of a plugin is not shown, and any other is shown as it is.
pub proof fn plugins_are_not_shown_unseen(tool: Seq<char>, outcome: OutcomeView)
    ensures
        guarded_outcome(None, false, tool, outcome) == outcome,
        guarded_outcome(None, true, tool, outcome) matches OutcomeView::Failure { error: e }
            && e.code == ErrorCode::Internal,
{
}

/// An answer decides what is shown, whoever the tool belongs to: the result as it is, what
/// stands for it, or an error in its place; an answer that failed shows nothing of it.
pub proof fn the_answer_decides(
    plugin: bool,
    tool: Seq<char>,
    outcome: OutcomeView,
    replacement: ToolOutcome,
    e: ErrorEnvelope,
)
    ensures
        guarded_outcome(Some(Ok(ToolResultDecision::Allow)), plugin, tool, outcome) == outcome,
        guarded_outcome(
            Some(Ok(ToolResultDecision::Redact(replacement))),
            plugin,
            tool,
            outcome,
        ) == replacement@,
        guarded_outcome(Some(Ok(ToolResultDecision::Reject(e))), plugin, tool, outcome) matches (
        OutcomeView::Failure { error: shown }) && shown == e@,
        guarded_outcome(Some(Err(e)), plugin, tool, outcome) matches OutcomeView::Failure {
            error: shown,
        } && shown.code == ErrorCode::Internal && shown.message
            == "security result middleware failed: "@ + e@.message,
{
}

/// There is an answer exactly where someone looks at results.
pub proof fn when_there_is_an_answer(
    middleware: Option<&dyn ToolResultMiddleware>,
    call_id: Seq<char>,
    tool: Seq<char>,
    outcome: OutcomeView,
    answer: Option<Result<ToolResultDecision, ErrorEnvelope>>,
)
    requires
        answered_on(middleware, call_id, tool, outcome, answer),
    ensures
        answer is Some <==> middleware is Some,
{
}

} // verus!
