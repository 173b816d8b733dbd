//! The loop of an agent: it takes what is in its inbox, answers it in one turn, and
//! leaves a complete record of the turn in the session.
use vstd::prelude::*;
use crate::budget_ledger::{configured, ledger_of, path_ok, BudgetLedger};
use crate::chat_turn::{
    execute_hook, rules_of, run_chat_turn, source_benign, ChatTurnConfig, EventSource,
};
use crate::compaction::{
    is_safe_prefix, no_safe_prefix, summary_input, summary_of, SummaryProvider, TwoStageCompactor,
};
use crate::history::{
    compact_history, compacts_as, history_closed, history_entries, HistoryCompaction,
    OverflowRecovery,
};
use crate::held::Held;
use crate::hooks::{
    bumped, hook_rules, hooks_idle, rounds_in, sequence_of, HookContext, HookPoint, HookRegistry,
};
use crate::inbox::{empty_inbox, Inbox};
use crate::json::Json;
use crate::loop_guard::LoopGuard;
use crate::mcp_bridge::{
    approval_taken, handle_view, is_mcp_call, is_mcp_run, run_mcp_tool_with, McpCaller,
    McpInvocation, McpTrace, SpillSink,
};
use crate::model_provider::{messages_view, ChatMessage, ChatModel};
use crate::protocol::{
    error, failure_of, ErrorCode, ErrorEnvelope, Event, ModelCallSpec, SubagentReportDelivery,
    TokenUsageSource, ToolOutcome,
};
use crate::result_guard::ToolResultMiddleware;
use crate::sampling::model_rules;
use crate::session::{
    added, calls_kept, calls_paired, extends, lemma_extends_push, lemma_extends_refl,
    lemma_extends_trans, lemma_open_calls_push, open_calls, taken, took, turn_state, Handed,
    SessionStore, StoredEvents,
};
use crate::steer::queues;
use crate::subagent::{SubagentReport, SubagentRunner, SubagentTask};
use crate::subagent_lifecycle::{
    came_to, came_to_freely, is_hooked_life, life, reports_after, run as run_life, stop_report,
    was_run, HookedLife, RunEnd, SubagentCancellation, SubagentDelegation,
};
use crate::subagent_policy::{
    delegation_error, local_policy, local_request, SubagentPolicy, SubagentRequest,
};
use crate::text::{blank, concat2, is_blank, same_text, views};
use crate::token_meter::{estimated, total_chars};
use crate::tools::ToolDispatcher;
use crate::turn_trace::{
    at_message, closes, end_reason, finished_as, is_plain_turn, is_turn_from,
    lemma_next_message, lemma_wrote_nothing, lemma_wrote_push, mark, message_as,
    messages_answered, plain_as, turn_as, turn_context, Completes, LoopRules, Mark, Standing,
    TurnClose,
};
use crate::usage::{
    ensure_budget_allows_sample, lemma_ledger_push, lemma_step_push, lemma_step_refl,
    lemma_step_trans, lost, path_error, record_usage, session_append_error, session_replay_error,
    step_ok, usage_error, validate_agent_path,
};
use crate::usage_id::{answer_usage_id, plain_usage_id};

verus! {

broadcast use vstd::string::group_string_axioms;

/// What the loop is doing. At most one turn runs at a time.
#[derive(Debug, Clone, Copy, PartialEq, Eq, Structural)]
pub enum Phase {
    Idle,
    Running,
    Maintenance,
}

/// A model that answers a text with a text.
pub trait ModelProvider {
    fn complete(&self, user_text: &str) -> Result<String, ErrorEnvelope>;
}

/// The model was given the text and gave back `r`.
pub open spec fn completed<M: ModelProvider + ?Sized>(
    model: &M,
    text: &str,
    r: Result<String, ErrorEnvelope>,
) -> bool {
    call_ensures(M::complete, (model, text), r)
}

/// The same, by what the text holds.
pub open spec fn completes<M: ModelProvider + ?Sized>(
    model: &M,
    text: Seq<char>,
    r: Result<String, ErrorEnvelope>,
) -> bool {
    exists|t: &str| #[trigger] completed(model, t, r) && t@ == text
}

pub open spec fn completes_of(model: Option<&dyn ModelProvider>) -> Option<Completes> {
    match model {
        None => None,
        Some(m) => Some(
            |text: Seq<char>, r: Result<String, ErrorEnvelope>| completes(m, text, r),
        ),
    }
}

/// The loop of one agent.
pub struct AgentLoop<'a, S: SessionStore> {
    pub phase: Phase,
    pub inbox: Inbox,
    pub session: &'a mut S,
    pub tools: Held<&'a dyn ToolDispatcher>,
    /// The model of a loop that calls no tools.
    pub model: Option<&'a dyn ModelProvider>,
    /// The model of a loop that calls tools; used together with `call_spec`.
    pub chat: Option<&'a dyn ChatModel>,
    pub call_spec: Option<ModelCallSpec>,
    /// The tools that the model is offered.
    pub tool_definitions: Option<Json>,
    /// How often the model is sampled for one message at most.
    pub max_tool_rounds: u32,
    /// The conversation so far, over all turns.
    pub chat_history: Vec<ChatMessage>,
    pub external_events: Option<&'a dyn EventSource>,
    pub overflow_recovery: Option<OverflowRecovery<'a>>,
    pub hooks: Option<HookRegistry>,
    pub loop_guard: Option<LoopGuard>,
    pub result_middleware: Option<&'a dyn ToolResultMiddleware>,
    /// The agents from the root to this one; token use counts for each of them.
    pub agent_path: Vec<String>,
    /// The position in the session from which on queued input is not yet in the
    /// conversation.
    pub queued_from: u64,
}

// ---------------------------------------------------------------------------
// Turns in a stream
// ---------------------------------------------------------------------------

/// The end of turn `turn_id`.
pub open spec fn ends_turn(e: Event, turn_id: int) -> bool {
    ||| (e matches Event::TurnCompleted { turn_id: id } && id == turn_id)
    ||| (e matches Event::TurnAborted { turn_id: id, .. } && id == turn_id)
}

/// Going from `before` to `after` is one whole turn: it begins with its start and
/// ends with its end.
pub open spec fn is_turn(before: Seq<Event>, after: Seq<Event>) -> bool {
    let events = added(before, after);
    &&& extends(before, after)
    &&& events.len() >= 2
    &&& events[0] == (Event::TurnStarted { turn_id: before.len() as u64 })
    &&& ends_turn(events.last(), before.len() as int)
}

/// What a whole turn leaves as it was: no turn is open, the same calls wait for
/// their results, and the budget still replays.
pub open spec fn turn_is_sound(before: Seq<Event>, after: Seq<Event>) -> bool {
    &&& turn_state(before) is Idle ==> turn_state(after) is Idle
    &&& calls_kept(before, after)
    &&& ledger_of(before) is Ok ==> ledger_of(after) is Ok
}

/// A turn over a stream in which every call has its result leaves it so.
pub proof fn a_turn_keeps_every_pair(before: Seq<Event>, after: Seq<Event>)
    requires
        turn_is_sound(before, after),
        calls_paired(before),
    ensures
        calls_paired(after),
{
}

proof fn lemma_turn(
    start: Seq<Event>,
    begun: Event,
    log: Seq<Event>,
    ended: Event,
    benign: bool,
)
    requires
        begun == (Event::TurnStarted { turn_id: start.len() as u64 }),
        start.len() <= u64::MAX,
        step_ok(benign, true, start.push(begun), log),
        ends_turn(ended, start.len() as int),
    ensures
        is_turn(start, log.push(ended)),
        benign ==> turn_is_sound(start, log.push(ended)),
{
    lemma_extends_refl(start);
    lemma_extends_push(start, start, begun);
    lemma_extends_trans(start, start.push(begun), log);
    lemma_extends_push(start, log, ended);
    lemma_open_calls_push(start, begun);
    lemma_open_calls_push(log, ended);
    lemma_ledger_push(start, begun);
    lemma_ledger_push(log, ended);
    let events = added(start, log.push(ended));
    assert(added(start, start.push(begun)) =~= seq![begun]);
    assert(events == (seq![begun] + added(start.push(begun), log)).push(ended));
    assert(events[0] == begun);
    assert(events.last() == ended);
}

/// Answers one message with a model that calls no tools.
fn legacy_turn<S: SessionStore>(
    session: &mut S,
    model: Option<&dyn ModelProvider>,
    agent_path: &Vec<String>,
    turn_id: u64,
    message: u64,
    text: &str,
) -> (r: Result<(), ErrorEnvelope>)
    ensures
        final(session).intact() ==> old(session).intact(),
        step_ok(true, final(session).intact(), old(session).events(), final(session).events()),
        model is None ==> r is Err,
        r is Ok && final(session).intact() ==> final(session).events().last() is AssistantMessage,
        plain_as(
            turn_id,
            message as nat,
            views(agent_path@),
            text@,
            completes_of(model),
            old(session).handed(),
            final(session).handed(),
            failure_of(r),
        ),
{
    let ghost start = session.events();
    let ghost start_h = session.handed();
    let ghost path = views(agent_path@);
    let ghost at = message as nat;
    let said = Event::UserMessage { text: text.to_owned() };
    proof {
        lemma_step_refl(true, session.intact(), start);
        lemma_step_push(true, session.intact(), start, start, said);
    }
    let _ = session.append(said);
    let ghost log1 = session.events();
    let ghost handed1 = session.handed();
    proof {
        lemma_wrote_nothing(start_h);
        lemma_wrote_push(start_h, start_h, Seq::empty(), handed1.last());
        assert(Seq::<Mark>::empty().push(mark(said)) =~= seq![Mark::Said { text: text@ }]);
    }
    match ensure_budget_allows_sample(session) {
        Ok(()) => {},
        Err(e) => {
            assert(is_plain_turn(
                turn_id,
                at,
                path,
                text@,
                None,
                start_h,
                handed1,
                handed1,
                Some(e@),
            ));
            return Err(e);
        },
    }
    let ghost mut told: Option<Result<String, ErrorEnvelope>> = None;
    let reply = match model {
        None => {
            let e = ErrorEnvelope::of(
                ErrorCode::Internal,
                "chat 路径已启用；legacy ModelProvider 不应被调用",
            );
            assert(is_plain_turn(
                turn_id,
                at,
                path,
                text@,
                None,
                start_h,
                handed1,
                handed1,
                Some(e@),
            ));
            return Err(e);
        },
        Some(model) => {
            let given = model.complete(text);
            assert(completed(model, text, given));
            proof {
                told = Some(given);
            }
            match given {
                Ok(reply) => reply,
                Err(e) => {
                    assert(is_plain_turn(
                        turn_id,
                        at,
                        path,
                        text@,
                        told,
                        start_h,
                        handed1,
                        handed1,
                        Some(e@),
                    ));
                    return Err(e);
                },
            }
        },
    };
    let usage_id = answer_usage_id(turn_id, message);
    let mut visible: Vec<&str> = Vec::new();
    visible.push(text);
    visible.push(reply.as_str());
    let ghost shown = visible@;
    proof {
        reveal_with_fuel(total_chars, 3);
        assert(shown.drop_last().drop_last() =~= Seq::<&str>::empty());
        assert(total_chars(shown) == text@.len() + reply@.len());
    }
    let ghost used = Mark::Used {
        usage_id: plain_usage_id(turn_id, at),
        path,
        total: estimated(text@.len() + reply@.len(), 4),
        source: TokenUsageSource::Heuristic,
    };
    let recorded_use = record_usage(session, agent_path, usage_id, None, visible.as_slice());
    let ghost log2 = session.events();
    let ghost handed2 = session.handed();
    let ghost unusable = usage_error(
        taken(handed1),
        plain_usage_id(turn_id, at),
        path,
        estimated(text@.len() + reply@.len(), 4),
    );
    proof {
        lemma_step_trans(true, session.intact(), start, log1, log2);
        lemma_wrote_nothing(handed1);
        if unusable is None {
            lemma_wrote_push(handed1, handed1, Seq::empty(), handed2.last());
            assert(Seq::<Mark>::empty().push(used) =~= seq![used]);
        }
    }
    match recorded_use {
        Ok(()) => {},
        Err(e) => {
            assert(is_plain_turn(
                turn_id,
                at,
                path,
                text@,
                told,
                start_h,
                handed1,
                handed2,
                Some(e@),
            ));
            return Err(e);
        },
    }
    let answer = Event::AssistantMessage { text: reply };
    proof {
        lemma_step_push(true, session.intact(), start, log2, answer);
    }
    let r = match session.append(answer) {
        Ok(_) => Ok(()),
        Err(e) => Err(session_append_error(&e)),
    };
    proof {
        lemma_wrote_push(handed1, handed2, seq![used], session.handed().last());
        assert(seq![used].push(mark(answer)) =~= seq![used, Mark::Answered { text: reply@ }]);
        assert(is_plain_turn(
            turn_id,
            at,
            path,
            text@,
            told,
            start_h,
            handed1,
            session.handed(),
            failure_of(r),
        ));
    }
    r
}

// ---------------------------------------------------------------------------
// The loop
// ---------------------------------------------------------------------------

impl<'a, S: SessionStore> AgentLoop<'a, S> {
    /// How the next turn answers its messages.
    pub open spec fn rules(&self) -> LoopRules {
        self.rules_of_turn(self.session.events().len() as u64)
    }

    /// How a turn answers its messages.
    pub open spec fn rules_of_turn(&self, turn_id: u64) -> LoopRules {
        LoopRules {
            turn: rules_of(
                self.config(),
                self.tools.it,
                turn_id,
                hook_rules(self.hooks),
            ),
            chat: match self.chat {
                Some(chat) => if self.call_spec is Some {
                    Some(model_rules(self.config(), chat))
                } else {
                    None
                },
                None => None,
            },
            plain: completes_of(self.model),
        }
    }

    /// How a message is answered by a chat model.
    pub open spec fn config(&self) -> ChatTurnConfig<'_> {
        ChatTurnConfig {
            message: 0,
            spec: &self.call_spec->0,
            tool_definitions: match &self.tool_definitions {
                Some(tools) => Some(tools),
                None => None,
            },
            max_tool_rounds: self.max_tool_rounds,
            external_events: self.external_events,
            overflow_recovery: self.overflow_recovery,
            agent_path: &self.agent_path,
            loop_guard: self.loop_guard,
            result_middleware: self.result_middleware,
        }
    }

    /// Everything that a turn only reads is the same.
    pub open spec fn same_setup(&self, other: &Self) -> bool {
        self.same_parts(other) && self.agent_path == other.agent_path
    }

    /// The same, but for the agents from the root to this one.
    pub open spec fn same_parts(&self, other: &Self) -> bool {
        &&& self.tools == other.tools
        &&& self.model == other.model
        &&& self.chat == other.chat
        &&& self.call_spec == other.call_spec
        &&& self.tool_definitions == other.tool_definitions
        &&& self.max_tool_rounds == other.max_tool_rounds
        &&& self.external_events == other.external_events
        &&& self.overflow_recovery == other.overflow_recovery
        &&& self.loop_guard == other.loop_guard
        &&& self.result_middleware == other.result_middleware
    }

    /// The phase, what waits and the conversation are the same.
    pub open spec fn same_talk(&self, other: &Self) -> bool {
        &&& self.phase == other.phase
        &&& self.inbox == other.inbox
        &&& self.chat_history == other.chat_history
        &&& self.queued_from == other.queued_from
    }

    /// The hooks are the same; they may have run.
    pub open spec fn same_hooks(&self, other: &Self) -> bool {
        &&& hook_rules(self.hooks) == hook_rules(other.hooks)
        &&& hooks_idle(other.hooks) ==> hooks_idle(self.hooks)
    }

    /// Where the session and the conversation stand.
    pub open spec fn standing(&self) -> Standing {
        Standing {
            log: self.session.handed(),
            history: messages_view(self.chat_history@),
            cursor: self.queued_from as int,
            sequence: sequence_of(self.hooks),
        }
    }

    /// A loop with a model that calls no tools.
    pub fn new(
        session: &'a mut S,
        tools: &'a dyn ToolDispatcher,
        model: &'a dyn ModelProvider,
    ) -> (r: AgentLoop<'a, S>)
        ensures
            r.phase == Phase::Idle,
            r.inbox@ == empty_inbox(),
            *r.session == *old(session),
            *final(r.session) == *final(session),
            r.tools == (Held { it: tools }),
            r.model == Some(model),
            r.chat is None,
            r.call_spec is None,
            r.tool_definitions is None,
            r.max_tool_rounds == 8,
            r.chat_history@.len() == 0,
            r.external_events is None,
            r.overflow_recovery is None,
            r.hooks is None,
            r.loop_guard is None,
            r.result_middleware is None,
            views(r.agent_path@) == seq!["root"@],
            r.queued_from == 0,
    {
        let tools = Held { it: tools };
        let model = Some(model);
        AgentLoop::over(session, tools, model, None, None)
    }

    /// A loop with a chat model that calls tools.
    pub fn with_chat(
        session: &'a mut S,
        tools: &'a dyn ToolDispatcher,
        chat: &'a dyn ChatModel,
        call_spec: ModelCallSpec,
    ) -> (r: AgentLoop<'a, S>)
        ensures
            r.phase == Phase::Idle,
            r.inbox@ == empty_inbox(),
            *r.session == *old(session),
            *final(r.session) == *final(session),
            r.tools == (Held { it: tools }),
            r.model is None,
            r.chat == Some(chat),
            r.call_spec == Some(call_spec),
            r.tool_definitions is None,
            r.max_tool_rounds == 8,
            r.chat_history@.len() == 0,
            r.external_events is None,
            r.overflow_recovery is None,
            r.hooks is None,
            r.loop_guard is None,
            r.result_middleware is None,
            views(r.agent_path@) == seq!["root"@],
            r.queued_from == 0,
    {
        let tools = Held { it: tools };
        let chat = Some(chat);
        AgentLoop::over(session, tools, None, chat, Some(call_spec))
    }

    /// A loop over given parts, with everything else as it is at first.
    pub(crate) fn over(
        session: &'a mut S,
        tools: Held<&'a dyn ToolDispatcher>,
        model: Option<&'a dyn ModelProvider>,
        chat: Option<&'a dyn ChatModel>,
        call_spec: Option<ModelCallSpec>,
    ) -> (r: AgentLoop<'a, S>)
        ensures
            r.phase == Phase::Idle,
            r.inbox@ == empty_inbox(),
            *r.session == *old(session),
            *final(r.session) == *final(session),
            r.tools == tools,
            r.model == model,
            r.chat == chat,
            r.call_spec == call_spec,
            r.tool_definitions is None,
            r.max_tool_rounds == 8,
            r.chat_history@.len() == 0,
            r.external_events is None,
            r.overflow_recovery is None,
            r.hooks is None,
            r.loop_guard is None,
            r.result_middleware is None,
            views(r.agent_path@) == seq!["root"@],
            r.queued_from == 0,
    {
        let agent_path = root_path();
        AgentLoop {
            phase: Phase::Idle,
            inbox: Inbox::new(),
            session,
            tools,
            model,
            chat,
            call_spec,
            tool_definitions: None,
            max_tool_rounds: 8,
            chat_history: Vec::new(),
            external_events: None,
            overflow_recovery: None,
            hooks: None,
            loop_guard: None,
            result_middleware: None,
            agent_path,
            queued_from: 0,
        }
    }

    /// Sets the token budget of the session's root agent. The same budget may be
    /// set again; another one is refused.
    pub fn configure_root_token_budget(&mut self, root_agent_id: String, token_budget: u64) -> (r:
        Result<(), ErrorEnvelope>)
        ensures
            final(self).same_parts(old(self)),
            final(self).same_talk(old(self)),
            final(self).hooks == old(self).hooks,
            *final(final(self).session) == *final(old(self).session),
            final(self).session.intact() ==> old(self).session.intact(),
            r is Err ==> final(self).session.events() == old(self).session.events()
                && final(self).agent_path == old(self).agent_path,
            r is Ok ==> {
                let log = old(self).session.events();
                &&& views(final(self).agent_path@) == seq![root_agent_id@]
                &&& ledger_of(log) is Ok
                &&& configured(ledger_of(log)->Ok_0, root_agent_id@, token_budget).1 is None
                &&& ledger_of(final(self).session.events()) is Ok
                &&& ledger_of(final(self).session.events())->Ok_0.budget == Some(token_budget)
                &&& ledger_of(final(self).session.events())->Ok_0.root == Some(root_agent_id@)
                &&& ledger_of(log)->Ok_0.budget is Some ==> final(self).session.events() == log
                &&& ledger_of(log)->Ok_0.budget is None ==> {
                    let added = final(self).session.events().last();
                    &&& final(self).session.events() == log.push(added)
                    &&& added matches Event::TokenBudgetConfigured {
                        root_agent_id: root,
                        token_budget: budget,
                    } && root@ == root_agent_id@ && budget == token_budget
                }
            },
            match ledger_of(old(self).session.events()) {
                Err(e) => r is Err && r->Err_0@ == e && *final(self).session
                    == *old(self).session,
                Ok(l) => match configured(l, root_agent_id@, token_budget).1 {
                    Some(e) => r is Err && r->Err_0@ == e && *final(self).session
                        == *old(self).session,
                    None => if l.budget is Some {
                        r is Ok && *final(self).session == *old(self).session
                    } else {
                        let handed = final(self).session.handed();
                        &&& handed == old(self).session.handed().push(handed.last())
                        &&& handed.last().event matches Event::TokenBudgetConfigured {
                            root_agent_id: root,
                            token_budget: budget,
                        } && root@ == root_agent_id@ && budget == token_budget
                        &&& failure_of(r) == lost(handed.last().refused)
                    },
                },
            },
    {
        let ghost log = self.session.events();
        let mut ledger = match self.session.replay_events() {
            Err(e) => {
                return Err(session_replay_error(&e));
            },
            Ok(records) => match BudgetLedger::replay(records.as_slice()) {
                Err(e) => {
                    return Err(e);
                },
                Ok(ledger) => ledger,
            },
        };
        let ghost before = ledger@;
        let fresh = ledger.token_budget().is_none();
        let candidate = Event::TokenBudgetConfigured {
            root_agent_id: root_agent_id.clone(),
            token_budget,
        };
        match ledger.apply(&candidate) {
            Ok(()) => {},
            Err(e) => {
                return Err(e);
            },
        }
        proof {
            lemma_ledger_push(log, candidate);
        }
        if fresh {
            match self.session.append(candidate) {
                Ok(_) => {},
                Err(e) => {
                    return Err(session_append_error(&e));
                },
            }
        }
        let mut path: Vec<String> = Vec::new();
        path.push(root_agent_id);
        assert(views(path@) =~= seq![root_agent_id@]);
        self.agent_path = path;
        Ok(())
    }

    /// Sets the agents from the root to this one. A path that is empty, names an
    /// agent twice or with a blank name, or starts at another root is refused.
    pub fn set_agent_path(&mut self, agent_path: Vec<String>) -> (r: Result<(), ErrorEnvelope>)
        ensures
            final(self).same_parts(old(self)),
            final(self).same_talk(old(self)),
            final(self).hooks == old(self).hooks,
            *final(self).session == *old(self).session,
            *final(final(self).session) == *final(old(self).session),
            r is Ok ==> {
                &&& final(self).agent_path == agent_path
                &&& agent_path@.len() > 0
                &&& path_ok(views(agent_path@))
                &&& ledger_of(old(self).session.events()) is Ok
                &&& ledger_of(old(self).session.events())->Ok_0.root matches Some(root)
                    ==> root == agent_path@[0]@
            },
            r is Err ==> final(self).agent_path == old(self).agent_path,
            if !(agent_path@.len() > 0 && path_ok(views(agent_path@))) {
                r is Err && r->Err_0@ == path_error()
            } else {
                match ledger_of(old(self).session.events()) {
                    Err(e) => r is Err && r->Err_0@ == e,
                    Ok(l) => if l.root is Some && l.root->0 != agent_path@[0]@ {
                        r is Err && r->Err_0@ == error(
                            ErrorCode::Internal,
                            "agent path does not inherit the configured root"@,
                        )
                    } else {
                        r is Ok
                    },
                }
            },
    {
        match validate_agent_path(&agent_path) {
            Ok(()) => {},
            Err(e) => {
                return Err(e);
            },
        }
        let ledger = match self.session.replay_events() {
            Err(e) => {
                return Err(session_replay_error(&e));
            },
            Ok(records) => match BudgetLedger::replay(records.as_slice()) {
                Err(e) => {
                    return Err(e);
                },
                Ok(ledger) => ledger,
            },
        };
        let foreign = match ledger.root_agent_id() {
            Some(root) => !same_text(root, &agent_path[0]),
            None => false,
        };
        if foreign {
            return Err(
                ErrorEnvelope::of(
                    ErrorCode::Internal,
                    "agent path does not inherit the configured root",
                ),
            );
        }
        self.agent_path = agent_path;
        Ok(())
    }

    /// Runs a subagent under the local policy; its report is recorded only.
    pub fn run_subagent<R: SubagentRunner + ?Sized>(
        &mut self,
        task: &SubagentTask,
        runner: &R,
    ) -> (r: Result<SubagentReport, ErrorEnvelope>)
        ensures
            final(self).session.intact() ==> old(self).session.intact(),
            step_ok(
                true,
                final(self).session.intact(),
                old(self).session.events(),
                final(self).session.events(),
            ),
            final(self).same_setup(old(self)),
            final(self).same_talk(old(self)),
            final(self).same_hooks(old(self)),
            *final(final(self).session) == *final(old(self).session),
            r matches Ok(report) ==> report.task_id@ == task@.id,
            hooks_idle(old(self).hooks) ==> exists|run: HookedLife| #[trigger]
                is_hooked_life(
                    run,
                    hook_rules(old(self).hooks),
                    sequence_of(old(self).hooks),
                    task@,
                    local_request(),
                    Seq::empty(),
                    local_policy(),
                    local_policy(),
                    SubagentReportDelivery::Quiet,
                    added(old(self).session.handed(), final(self).session.handed()),
                    r,
                ) && (was_run(run.events, local_policy(), local_policy(), local_request())
                    ==> came_to_freely(runner, task, run.end)) && sequence_of(final(self).hooks)
                    == bumped(sequence_of(old(self).hooks), rounds_in(run.after)),
    {
        let policy = SubagentPolicy::local_default();
        let request = SubagentRequest::local_default();
        let cancellation = SubagentCancellation::new();
        let delegation = SubagentDelegation::new(
            &request,
            &policy,
            &policy,
            SubagentReportDelivery::Quiet,
            &cancellation,
        );
        self.run_subagent_lifecycle(task, &delegation, runner)
    }

    /// Runs a subagent under given policies; its report is recorded only.
    pub fn run_subagent_with_policy<R: SubagentRunner + ?Sized>(
        &mut self,
        task: &SubagentTask,
        request: &SubagentRequest,
        parent_policy: &SubagentPolicy,
        child_policy: &SubagentPolicy,
        runner: &R,
    ) -> (r: Result<SubagentReport, ErrorEnvelope>)
        ensures
            final(self).session.intact() ==> old(self).session.intact(),
            step_ok(
                true,
                final(self).session.intact(),
                old(self).session.events(),
                final(self).session.events(),
            ),
            final(self).same_setup(old(self)),
            final(self).same_talk(old(self)),
            final(self).same_hooks(old(self)),
            *final(final(self).session) == *final(old(self).session),
            delegation_error(parent_policy@, child_policy@, request@) is Some ==> r is Err,
            r matches Ok(report) ==> report.task_id@ == task@.id,
            hooks_idle(old(self).hooks) ==> exists|run: HookedLife| #[trigger]
                is_hooked_life(
                    run,
                    hook_rules(old(self).hooks),
                    sequence_of(old(self).hooks),
                    task@,
                    request@,
                    request.tools_listed(),
                    parent_policy@,
                    child_policy@,
                    SubagentReportDelivery::Quiet,
                    added(old(self).session.handed(), final(self).session.handed()),
                    r,
                ) && (was_run(run.events, parent_policy@, child_policy@, request@)
                    ==> came_to_freely(runner, task, run.end)) && sequence_of(final(self).hooks)
                    == bumped(sequence_of(old(self).hooks), rounds_in(run.after)),
    {
        let cancellation = SubagentCancellation::new();
        let delegation = SubagentDelegation::new(
            request,
            parent_policy,
            child_policy,
            SubagentReportDelivery::Quiet,
            &cancellation,
        );
        self.run_subagent_lifecycle(task, &delegation, runner)
    }

    /// Runs a subagent with everything given: policies, cancellation and how its
    /// report reaches this loop.
    pub fn run_subagent_lifecycle<R: SubagentRunner + ?Sized>(
        &mut self,
        task: &SubagentTask,
        delegation: &SubagentDelegation,
        runner: &R,
    ) -> (r: Result<SubagentReport, ErrorEnvelope>)
        ensures
            final(self).same_setup(old(self)),
            final(self).phase == old(self).phase,
            final(self).chat_history == old(self).chat_history,
            final(self).queued_from == old(self).queued_from,
            final(self).same_hooks(old(self)),
            *final(final(self).session) == *final(old(self).session),
            final(self).session.intact() ==> old(self).session.intact(),
            step_ok(
                true,
                final(self).session.intact(),
                old(self).session.events(),
                final(self).session.events(),
            ),
            delegation_error(
                delegation.parent_policy@,
                delegation.child_policy@,
                delegation.request@,
            ) is Some ==> r is Err,
            r matches Ok(report) ==> report.task_id@ == task@.id,
            final(self).inbox@.messages == old(self).inbox@.messages,
            old(self).inbox@.reports.is_prefix_of(final(self).inbox@.reports),
            final(self).inbox@.reports.len() <= old(self).inbox@.reports.len() + 1,
            delegation.delivery == SubagentReportDelivery::Quiet ==> final(self).inbox
                == old(self).inbox,
            r matches Ok(report) ==> (delegation.delivery == SubagentReportDelivery::NextStep
                ==> final(self).inbox@.reports == old(self).inbox@.reports.push(report.text@)),
            old(self).hooks is None && r is Err ==> final(self).inbox@.reports
                == old(self).inbox@.reports,
            hooks_idle(old(self).hooks) ==> exists|run: HookedLife| #[trigger]
                is_hooked_life(
                    run,
                    hook_rules(old(self).hooks),
                    sequence_of(old(self).hooks),
                    task@,
                    delegation.request@,
                    delegation.request.tools_listed(),
                    delegation.parent_policy@,
                    delegation.child_policy@,
                    delegation.delivery,
                    added(old(self).session.handed(), final(self).session.handed()),
                    r,
                ) && (was_run(
                    run.events,
                    delegation.parent_policy@,
                    delegation.child_policy@,
                    delegation.request@,
                ) ==> came_to(runner, task, delegation.cancellation, run.end))
                    && final(self).inbox@.reports == reports_after(
                    old(self).inbox@.reports,
                    delegation.delivery,
                    run.result,
                ) && sequence_of(final(self).hooks) == bumped(
                    sequence_of(old(self).hooks),
                    rounds_in(run.after),
                ),
    {
        let ghost start = self.session.events();
        let ghost start_h = self.session.handed();
        let result = run_life(self.session, task, delegation, runner);
        let ghost log1 = self.session.events();
        let ghost handed1 = self.session.handed();
        if let Ok(report) = &result {
            if delegation.delivery() == SubagentReportDelivery::NextStep {
                self.inbox.queue_boundary_report(report.text.clone());
            }
        }
        let outcome = stop_report(&result);
        let context = HookContext::subagent(task.id(), outcome);
        let hooked = execute_hook(&mut self.hooks, &context, self.session);
        let ghost refused = failure_of(hooked);
        let ghost lived = result;
        let r = match result {
            Ok(report) => match hooked {
                Ok(()) => Ok(report),
                Err(e) => Err(e),
            },
            Err(e) => Err(e),
        };
        proof {
            let log2 = self.session.events();
            lemma_step_trans(true, self.session.intact(), start, log1, log2);
            if hooks_idle(old(self).hooks) {
                let handed2 = self.session.handed();
                let q = delegation.request;
                let end = choose|end: RunEnd| #[trigger]
                    life(
                        added(start_h, handed1),
                        task@,
                        q@,
                        q.tools_listed(),
                        delegation.parent_policy@,
                        delegation.child_policy@,
                        delegation.delivery,
                        end,
                        lived,
                    ) && (was_run(
                        added(start_h, handed1),
                        delegation.parent_policy@,
                        delegation.child_policy@,
                        q@,
                    ) ==> came_to(runner, task, delegation.cancellation, end));
                let run = HookedLife {
                    end,
                    result: lived,
                    events: added(start_h, handed1),
                    after: added(handed1, handed2),
                    refused,
                };
                lemma_extends_trans(start_h, handed1, handed2);
                assert(added(start_h, handed2) =~= run.events + run.after);
                assert(is_hooked_life(
                    run,
                    hook_rules(old(self).hooks),
                    sequence_of(old(self).hooks),
                    task@,
                    q@,
                    q.tools_listed(),
                    delegation.parent_policy@,
                    delegation.child_policy@,
                    delegation.delivery,
                    added(start_h, handed2),
                    r,
                ));
            }
        }
        r
    }

    /// Begins a turn. Where the session does not take its beginning, nothing has changed.
    pub fn start_turn(&mut self) -> (r: Result<u64, String>)
        requires
            old(self).phase != Phase::Running,
        ensures
            old(self).session.accepts_next() ==> r is Ok,
            final(self).session.intact() <==> old(self).session.intact() && r is Ok,
            match r {
                Ok(turn_id) => {
                    &&& turn_id == old(self).session.events().len()
                    &&& final(self).session.events() == old(self).session.events().push(
                        Event::TurnStarted { turn_id },
                    )
                    &&& final(self).session.handed() == old(self).session.handed().push(
                        took(Event::TurnStarted { turn_id }),
                    )
                    &&& final(self).phase == Phase::Running
                },
                Err(e) => {
                    let event = Event::TurnStarted {
                        turn_id: old(self).session.events().len() as u64,
                    };
                    &&& final(self).session.events() == old(self).session.events()
                    &&& final(self).session.handed() == old(self).session.handed().push(
                        Handed { event, refused: Some(e@) },
                    )
                    &&& final(self).phase == old(self).phase
                },
            },
            final(self).inbox == old(self).inbox,
            final(self).chat_history == old(self).chat_history,
            final(self).hooks == old(self).hooks,
            final(self).queued_from == old(self).queued_from,
            *final(final(self).session) == *final(old(self).session),
            final(self).same_setup(old(self)),
    {
        let turn_id: u64 = self.session.len();
        match self.session.append(Event::TurnStarted { turn_id }) {
            Ok(_) => {},
            Err(e) => {
                return Err(e);
            },
        }
        self.phase = Phase::Running;
        Ok(turn_id)
    }

    /// Answers one message of a turn that is running.
    fn answer(&mut self, turn_id: u64, message: u64, text: &str) -> (r: Result<(), ErrorEnvelope>)
        ensures
            final(self).same_setup(old(self)),
            final(self).same_hooks(old(self)),
            final(self).phase == old(self).phase,
            final(self).inbox == old(self).inbox,
            *final(final(self).session) == *final(old(self).session),
            final(self).session.intact() ==> old(self).session.intact(),
            step_ok(
                source_benign(old(self).external_events),
                final(self).session.intact(),
                old(self).session.events(),
                final(self).session.events(),
            ),
            old(self).queued_from <= old(self).session.events().len() ==> final(self).queued_from
                <= final(self).session.events().len(),
            history_closed(messages_view(old(self).chat_history@)) ==> history_closed(
                messages_view(final(self).chat_history@),
            ),
            hooks_idle(old(self).hooks) ==> message_as(
                at_message(old(self).rules_of_turn(turn_id), message as nat),
                text@,
                old(self).standing(),
                final(self).standing(),
                failure_of(r),
            ),
    {
        match (self.chat, &self.call_spec) {
            (Some(chat), Some(spec)) => {
                let cfg = ChatTurnConfig {
                    message,
                    spec,
                    tool_definitions: match &self.tool_definitions {
                        Some(tools) => Some(tools),
                        None => None,
                    },
                    max_tool_rounds: self.max_tool_rounds,
                    external_events: self.external_events,
                    overflow_recovery: self.overflow_recovery,
                    agent_path: &self.agent_path,
                    loop_guard: self.loop_guard,
                    result_middleware: self.result_middleware,
                };
                run_chat_turn(
                    self.session,
                    self.tools.it,
                    chat,
                    &cfg,
                    &mut self.hooks,
                    &mut self.chat_history,
                    &mut self.queued_from,
                    turn_id,
                    text,
                )
            },
            _ => legacy_turn(
                self.session,
                self.model,
                &self.agent_path,
                turn_id,
                message,
                text,
            ),
        }
    }

    /// Answers everything in the inbox in a turn that has begun, ends the turn, and gives
    /// the number of messages that were answered. The first message that cannot be
    /// answered ends the turn.
    pub fn finish_turn(&mut self, turn_id: u64) -> (r: u64)
        requires
            old(self).phase == Phase::Running,
        ensures
            final(self).phase == Phase::Idle,
            final(self).inbox@ == empty_inbox(),
            final(self).same_setup(old(self)),
            final(self).same_hooks(old(self)),
            *final(final(self).session) == *final(old(self).session),
            old(self).queued_from <= old(self).session.events().len() ==> final(self).queued_from
                <= final(self).session.events().len(),
            r <= old(self).inbox@.messages.len() + old(self).inbox@.reports.len(),
            history_closed(messages_view(old(self).chat_history@)) ==> history_closed(
                messages_view(final(self).chat_history@),
            ),
            extends(old(self).session.events(), final(self).session.events()),
            final(self).session.intact() ==> old(self).session.intact(),
            final(self).session.intact() ==> {
                let before = old(self).session.events();
                let after = final(self).session.events();
                &&& after.len() > before.len()
                &&& step_ok(
                    source_benign(old(self).external_events),
                    true,
                    before,
                    after.drop_last(),
                )
                &&& ends_turn(after.last(), turn_id as int)
                &&& after.last() is TurnCompleted ==> r == old(self).inbox@.messages.len()
                    + old(self).inbox@.reports.len()
            },
            final(self).session.intact() && old(self).inbox@ == empty_inbox() && old(self).hooks
                is None ==> final(self).session.events().last() is TurnCompleted,
            hooks_idle(old(self).hooks) ==> finished_as(
                old(self).rules_of_turn(turn_id),
                old(self).inbox@.messages + old(self).inbox@.reports,
                old(self).standing(),
                final(self).standing(),
                r as int,
            ),
    {
        let ghost rules = self.rules_of_turn(turn_id);
        let ghost from = self.standing();
        let ghost idle = hooks_idle(self.hooks);
        let ghost log1 = self.session.events();
        let ghost benign = source_benign(self.external_events);
        let ghost waiting = self.inbox@.messages + self.inbox@.reports;
        proof {
            lemma_step_refl(benign, self.session.intact(), log1);
        }
        let texts = self.inbox.drain();
        assert(views(texts@).len() == texts@.len());
        let mut completed: u64 = 0;
        let mut i: usize = 0;
        let ghost mut stands: Seq<Standing> = seq![self.standing()];
        while i < texts.len()
            invariant
                idle == hooks_idle(old(self).hooks),
                hook_rules(self.hooks) == hook_rules(old(self).hooks),
                hooks_idle(old(self).hooks) ==> hooks_idle(self.hooks),
                rules == old(self).rules_of_turn(turn_id),
                from == old(self).standing(),
                views(texts@) == waiting,
                self.same_setup(old(self)),
                idle ==> {
                    &&& stands.len() == i + 1
                    &&& stands[0] == from
                    &&& messages_answered(rules, waiting, stands)
                    &&& stands.last() == self.standing()
                },
                i <= texts@.len(),
                texts@.len() == waiting.len(),
                completed == i,
                i == 0 ==> self.hooks == old(self).hooks,
                self.session.intact() ==> old(self).session.intact(),
                *final(self.session) == *final(old(self).session),
                old(self).queued_from <= log1.len() ==> self.queued_from
                    <= self.session.events().len(),
                benign == source_benign(self.external_events),
                step_ok(benign, self.session.intact(), log1, self.session.events()),
                history_closed(messages_view(old(self).chat_history@)) ==> history_closed(
                    messages_view(self.chat_history@),
                ),
                self.inbox@ == empty_inbox(),
                log1 == old(self).session.events(),
                benign == source_benign(old(self).external_events),
                waiting == old(self).inbox@.messages + old(self).inbox@.reports,
            decreases texts@.len() - i,
        {
            let ghost log2 = self.session.events();
            let ghost at = self.standing();
            let result = self.answer(turn_id, i as u64, &texts[i]);
            let ghost next = self.standing();
            proof {
                lemma_step_trans(benign, self.session.intact(), log1, log2, self.session.events());
                assert(waiting[i as int] == texts@[i as int]@);
            }
            match result {
                Ok(()) => {
                    completed = completed + 1;
                    proof {
                        if idle {
                            lemma_next_message(rules, waiting, stands, next);
                            stands = stands.push(next);
                        }
                    }
                },
                Err(e) => {
                    let ghost log3 = self.session.events();
                    let ghost handed3 = self.session.handed();
                    let context = HookContext::turn(
                        HookPoint::TurnFailed,
                        turn_id,
                        Some(e.message.clone()),
                    );
                    let ended = execute_hook(&mut self.hooks, &context, self.session);
                    let ghost refusal = failure_of(ended);
                    let reason = match ended {
                        Ok(()) => e.message,
                        Err(hook_error) => hook_error.message,
                    };
                    let ghost log4 = self.session.events();
                    let ghost handed4 = self.session.handed();
                    proof {
                        lemma_step_trans(benign, self.session.intact(), log1, log3, log4);
                    }
                    self.abort(turn_id, reason);
                    proof {
                        lemma_extends_trans(log1, log4, self.session.events());
                        if self.session.intact() {
                            assert(self.session.events().drop_last() =~= log4);
                        }
                        if idle {
                            let close = TurnClose {
                                hooks: added(handed3, handed4),
                                refused: refusal,
                            };
                            assert(handed3 + close.hooks =~= handed4);
                            assert(is_turn_from(
                                rules,
                                waiting,
                                stands,
                                Some((next, e@)),
                                close,
                                self.standing(),
                            ));
                        }
                    }
                    return completed;
                },
            }
            i = i + 1;
        }
        let ghost log5 = self.session.events();
        let ghost handed5 = self.session.handed();
        let context = HookContext::turn(HookPoint::TurnCompleted, turn_id, None);
        let hooked = execute_hook(&mut self.hooks, &context, self.session);
        let ghost log6 = self.session.events();
        let ghost handed6 = self.session.handed();
        let ghost refusal = failure_of(hooked);
        proof {
            lemma_step_trans(benign, self.session.intact(), log1, log5, log6);
        }
        match hooked {
            Err(e) => {
                self.abort(turn_id, e.message);
                proof {
                    lemma_extends_trans(log1, log6, self.session.events());
                    if self.session.intact() {
                        assert(self.session.events().drop_last() =~= log6);
                    }
                    if idle {
                        let close = TurnClose { hooks: added(handed5, handed6), refused: refusal };
                        assert(handed5 + close.hooks =~= handed6);
                        assert(is_turn_from(rules, waiting, stands, None, close, self.standing()));
                    }
                }
                return completed;
            },
            Ok(()) => {},
        }
        let ended = Event::TurnCompleted { turn_id };
        let _ = self.session.append(ended);
        proof {
            lemma_extends_push(log1, log6, ended);
            if self.session.intact() {
                assert(self.session.events().drop_last() =~= log6);
            }
            if idle {
                let close = TurnClose { hooks: added(handed5, handed6), refused: None };
                assert(handed5 + close.hooks =~= handed6);
                assert(is_turn_from(rules, waiting, stands, None, close, self.standing()));
            }
        }
        self.phase = Phase::Idle;
        completed
    }

    /// Runs one turn over everything in the inbox and gives the number of messages
    /// that were answered. The first message that cannot be answered ends the turn.
    pub fn run_turn(&mut self) -> (r: u64)
        requires
            old(self).phase != Phase::Running,
            old(self).session.accepts_next(),
        ensures
            final(self).phase == Phase::Idle,
            final(self).inbox@ == empty_inbox(),
            final(self).same_setup(old(self)),
            final(self).same_hooks(old(self)),
            *final(final(self).session) == *final(old(self).session),
            old(self).queued_from <= old(self).session.events().len() ==> final(self).queued_from
                <= final(self).session.events().len(),
            r <= old(self).inbox@.messages.len() + old(self).inbox@.reports.len(),
            history_closed(messages_view(old(self).chat_history@)) ==> history_closed(
                messages_view(final(self).chat_history@),
            ),
            extends(old(self).session.events(), final(self).session.events()),
            final(self).session.intact() ==> old(self).session.intact(),
            final(self).session.intact() ==> {
                let before = old(self).session.events();
                let after = final(self).session.events();
                &&& is_turn(before, after)
                &&& source_benign(old(self).external_events) ==> turn_is_sound(before, after)
                &&& after.last() is TurnCompleted ==> r == old(self).inbox@.messages.len()
                    + old(self).inbox@.reports.len()
            },
            final(self).session.intact() && old(self).inbox@ == empty_inbox() && old(self).hooks
                is None ==> final(self).session.events().last() is TurnCompleted,
            hooks_idle(old(self).hooks) ==> turn_as(
                old(self).rules(),
                old(self).inbox@.messages + old(self).inbox@.reports,
                old(self).standing(),
                final(self).standing(),
                r as int,
            ),
    {
        let ghost start = self.session.events();
        let ghost benign = source_benign(self.external_events);
        let turn_id: u64 = self.start_turn().unwrap();
        let ghost begun = Event::TurnStarted { turn_id };
        let ghost log1 = self.session.events();
        let completed: u64 = self.finish_turn(turn_id);
        proof {
            let after = self.session.events();
            lemma_extends_refl(start);
            lemma_extends_push(start, start, begun);
            lemma_extends_trans(start, log1, after);
            if self.session.intact() {
                assert(after.drop_last().push(after.last()) =~= after);
                lemma_turn(start, begun, after.drop_last(), after.last(), benign);
            }
        }
        completed
    }

    fn abort(&mut self, turn_id: u64, reason: String)
        ensures
            final(self).phase == Phase::Idle,
            final(self).inbox == old(self).inbox,
            final(self).chat_history == old(self).chat_history,
            final(self).queued_from == old(self).queued_from,
            final(self).hooks == old(self).hooks,
            *final(final(self).session) == *final(old(self).session),
            final(self).same_setup(old(self)),
            final(self).session.intact() ==> old(self).session.intact(),
            extends(old(self).session.events(), final(self).session.events()),
            final(self).session.intact() ==> {
                let log = final(self).session.events();
                &&& log.len() == old(self).session.events().len() + 1
                &&& log == old(self).session.events().push(log.last())
                &&& log.last() == (Event::TurnAborted { turn_id, reason })
            },
            final(self).session.handed() == old(self).session.handed().push(
                final(self).session.handed().last(),
            ),
            final(self).session.handed().last().event == (Event::TurnAborted { turn_id, reason }),
    {
        let ghost log = self.session.events();
        let ended = Event::TurnAborted { turn_id, reason };
        proof {
            lemma_extends_refl(log);
            lemma_extends_push(log, log, ended);
        }
        let _ = self.session.append(ended);
        self.phase = Phase::Idle;
    }

    /// Ends the turn that is running, with the hooks told first. Refused while no
    /// turn is running.
    pub fn interrupt_turn(&mut self, turn_id: u64, reason: String) -> (r: Result<(), ErrorEnvelope>)
        ensures
            final(self).same_setup(old(self)),
            final(self).inbox == old(self).inbox,
            final(self).chat_history == old(self).chat_history,
            final(self).queued_from == old(self).queued_from,
            final(self).same_hooks(old(self)),
            *final(final(self).session) == *final(old(self).session),
            extends(old(self).session.events(), final(self).session.events()),
            old(self).phase != Phase::Running ==> {
                &&& r is Err && r->Err_0@ == error(
                    ErrorCode::ToolArgsInvalid,
                    "only a running turn can be interrupted"@,
                )
                &&& *final(self).session == *old(self).session
                &&& final(self).hooks == old(self).hooks
                &&& final(self).phase == old(self).phase
            },
            old(self).phase == Phase::Running ==> final(self).phase == Phase::Idle,
            old(self).phase == Phase::Running && final(self).session.intact() ==> {
                let log = final(self).session.events();
                &&& log.len() > old(self).session.events().len()
                &&& log.last() matches Event::TurnAborted { turn_id: id, reason: why } && {
                    &&& id == turn_id
                    &&& r is Ok ==> why@ == reason@
                    &&& r matches Err(e) ==> why@ == e@.message
                }
                &&& calls_kept(old(self).session.events(), log)
            },
            old(self).phase == Phase::Running && old(self).hooks is None ==> r is Ok,
            old(self).phase == Phase::Running && hooks_idle(old(self).hooks) ==> exists|
                close: TurnClose,
            |
                {
                    &&& close.refused == failure_of(r)
                    &&& #[trigger] closes(
                        old(self).rules(),
                        turn_context(HookPoint::TurnInterrupted, turn_id, Some(reason@)),
                        old(self).standing(),
                        close,
                        turn_id,
                        Some(end_reason(close.refused, reason@)),
                        final(self).standing(),
                    )
                },
    {
        let ghost start = self.session.events();
        let ghost start_h = self.session.handed();
        proof {
            lemma_extends_refl(start);
        }
        if self.phase != Phase::Running {
            return Err(
                ErrorEnvelope::of(
                    ErrorCode::ToolArgsInvalid,
                    "only a running turn can be interrupted",
                ),
            );
        }
        let context = HookContext::turn(
            HookPoint::TurnInterrupted,
            turn_id,
            Some(reason.clone()),
        );
        let hooked = execute_hook(&mut self.hooks, &context, self.session);
        let ghost log1 = self.session.events();
        let ghost handed1 = self.session.handed();
        let why = match &hooked {
            Ok(()) => reason,
            Err(e) => e.message.clone(),
        };
        self.abort(turn_id, why);
        proof {
            if hooks_idle(old(self).hooks) {
                let close = TurnClose {
                    hooks: added(start_h, handed1),
                    refused: failure_of(hooked),
                };
                assert(start_h + close.hooks =~= handed1);
                assert(closes(
                    old(self).rules(),
                    turn_context(HookPoint::TurnInterrupted, turn_id, Some(reason@)),
                    old(self).standing(),
                    close,
                    turn_id,
                    Some(end_reason(close.refused, reason@)),
                    self.standing(),
                ));
            }
            lemma_extends_trans(start, log1, self.session.events());
            if self.session.intact() {
                lemma_open_calls_push(log1, self.session.events().last());
            }
        }
        hooked
    }

    /// Compacts the conversation; nothing changes where no cut is safe.
    pub fn compact_chat_history<P: SummaryProvider + ?Sized>(
        &mut self,
        compactor: &TwoStageCompactor,
        summarizer: &P,
    ) -> (r: Result<Option<HistoryCompaction>, ErrorEnvelope>)
        ensures
            final(self).same_setup(old(self)),
            final(self).phase == old(self).phase,
            final(self).inbox == old(self).inbox,
            final(self).queued_from == old(self).queued_from,
            final(self).hooks == old(self).hooks,
            final(self).session.intact() ==> old(self).session.intact(),
            *final(final(self).session) == *final(old(self).session),
            !(r matches Ok(Some(_))) ==> final(self).session.events() == old(self).session.events()
                && final(self).chat_history@ == old(self).chat_history@,
            r == Ok::<Option<HistoryCompaction>, ErrorEnvelope>(None) <==> no_safe_prefix(
                history_entries(messages_view(old(self).chat_history@)),
                compactor.retained() as int,
            ),
            r == Ok::<Option<HistoryCompaction>, ErrorEnvelope>(None)
                ==> final(self).session.handed() == old(self).session.handed(),
            r != Ok::<Option<HistoryCompaction>, ErrorEnvelope>(None) ==> exists|
                cut: int,
                said: Result<String, ErrorEnvelope>,
            |
                {
                    let entries = history_entries(messages_view(old(self).chat_history@));
                    &&& is_safe_prefix(entries, compactor.retained() as int, cut)
                    &&& summary_of(summarizer, summary_input(entries, *compactor, cut), said)
                    &&& #[trigger] compacts_as(
                        messages_view(old(self).chat_history@),
                        *compactor,
                        cut,
                        said,
                        old(self).session.handed(),
                        final(self).session.handed(),
                        messages_view(final(self).chat_history@),
                        r,
                    )
                },
            history_closed(messages_view(old(self).chat_history@)) ==> history_closed(
                messages_view(final(self).chat_history@),
            ),
    {
        let ghost h = messages_view(self.chat_history@);
        let ghost log = self.session.handed();
        let r = compact_history(self.session, &mut self.chat_history, compactor, summarizer);
        proof {
            if r != Ok::<Option<HistoryCompaction>, ErrorEnvelope>(None) {
                let (cut, said) = choose|cut: int, said: Result<String, ErrorEnvelope>|
                    {
                        let entries = history_entries(h);
                        &&& is_safe_prefix(entries, compactor.retained() as int, cut)
                        &&& summary_of(summarizer, summary_input(entries, *compactor, cut), said)
                        &&& #[trigger] compacts_as(
                            h,
                            *compactor,
                            cut,
                            said,
                            log,
                            self.session.handed(),
                            messages_view(self.chat_history@),
                            r,
                        )
                    };
                assert(compacts_as(
                    messages_view(old(self).chat_history@),
                    *compactor,
                    cut,
                    said,
                    old(self).session.handed(),
                    self.session.handed(),
                    messages_view(self.chat_history@),
                    r,
                ));
            }
        }
        r
    }

    /// Queues input for the next sample; blank input is refused.
    pub fn enqueue_input(&mut self, text: String) -> (r: Result<(), ErrorEnvelope>)
        ensures
            final(self).same_setup(old(self)),
            final(self).same_talk(old(self)),
            final(self).hooks == old(self).hooks,
            final(self).session.intact() ==> old(self).session.intact(),
            *final(final(self).session) == *final(old(self).session),
            blank(text@) ==> r is Err && r->Err_0@ == error(
                ErrorCode::ToolArgsInvalid,
                "queued input must not be blank"@,
            ),
            blank(text@) ==> final(self).session.handed() == old(self).session.handed(),
            !blank(text@) ==> {
                let handed = final(self).session.handed();
                &&& handed == old(self).session.handed().push(handed.last())
                &&& queues(handed.last().event, text@)
                &&& failure_of(r) == (match handed.last().refused {
                    None => None,
                    Some(detail) => Some(
                        error(ErrorCode::Internal, "failed to append queued input: "@ + detail),
                    ),
                })
            },
            r is Err ==> final(self).session.events() == old(self).session.events(),
            r is Ok ==> {
                let log = final(self).session.events();
                &&& log.len() == old(self).session.events().len() + 1
                &&& log == old(self).session.events().push(log.last())
                &&& log.last() matches Event::UserInputQueued { text: queued } && queued@ == text@
            },
            final(self).session.intact() && !blank(text@) ==> r is Ok,
    {
        if is_blank(&text) {
            return Err(
                ErrorEnvelope::of(ErrorCode::ToolArgsInvalid, "queued input must not be blank"),
            );
        }
        match self.session.append(Event::UserInputQueued { text }) {
            Ok(_) => Ok(()),
            Err(e) => Err(
                ErrorEnvelope::new(
                    ErrorCode::Internal,
                    concat2("failed to append queued input: ", &e),
                ),
            ),
        }
    }

    /// Takes everything that is queued so far as part of the conversation already.
    pub fn mark_queued_inputs_consumed(&mut self)
        ensures
            final(self).queued_from == old(self).session.events().len(),
            *final(self).session == *old(self).session,
            *final(final(self).session) == *final(old(self).session),
            final(self).same_setup(old(self)),
            final(self).phase == old(self).phase,
            final(self).inbox == old(self).inbox,
            final(self).chat_history == old(self).chat_history,
            final(self).hooks == old(self).hooks,
    {
        self.queued_from = self.session.len();
    }

    /// Runs one call of an MCP tool.
    pub fn run_mcp_tool<C: McpCaller, K: SpillSink>(
        &mut self,
        source: &str,
        caller: &mut C,
        sink: &K,
        invocation: &McpInvocation,
    ) -> (r: Result<ToolOutcome, ErrorEnvelope>)
        ensures
            final(self).same_setup(old(self)),
            final(self).same_talk(old(self)),
            final(self).same_hooks(old(self)),
            *final(final(self).session) == *final(old(self).session),
            final(self).session.intact() ==> old(self).session.intact(),
            step_ok(
                true,
                final(self).session.intact(),
                old(self).session.events(),
                final(self).session.events(),
            ),
            !invocation@.approved ==> r is Err && *final(caller) == *old(caller),
            final(self).session.intact() ==> is_mcp_call(
                added(old(self).session.events(), final(self).session.events())[0],
                invocation@,
                source@,
            ),
            *final(caller) == *old(caller) || approval_taken(
                added(old(self).session.handed(), final(self).session.handed()),
                invocation@,
                source@,
            ),
            hooks_idle(old(self).hooks) ==> exists|t: McpTrace|
                {
                    &&& #[trigger] is_mcp_run(
                        *old(caller),
                        sink,
                        invocation@,
                        source@,
                        None,
                        hook_rules(old(self).hooks),
                        sequence_of(old(self).hooks),
                        t,
                        added(old(self).session.handed(), final(self).session.handed()),
                        r,
                        *final(caller),
                        sequence_of(final(self).hooks),
                    )
                    &&& t.called is Some ==> exists|c: &mut C, tool: &str, arguments: Json|
                        {
                            &&& #[trigger] call_ensures(
                                C::call,
                                (c, tool, &arguments),
                                t.called->0,
                            )
                            &&& *c == *old(caller)
                            &&& *final(c) == *final(caller)
                            &&& tool@ == invocation@.tool
                            &&& arguments@ == invocation@.arguments
                        }
                },
    {
        let handle: Option<&str> = None;
        assert(handle_view(handle) == None::<Seq<char>>);
        run_mcp_tool_with(self.session, &mut self.hooks, source, handle, invocation, caller, sink)
    }

    /// Runs one call of a tool that a registry holds under a handle; the invocation
    /// must be for the tool of the handle.
    pub fn run_registered_mcp_tool<C: McpCaller, K: SpillSink>(
        &mut self,
        source: &str,
        handle: &str,
        caller: &mut C,
        sink: &K,
        invocation: &McpInvocation,
    ) -> (r: Result<ToolOutcome, ErrorEnvelope>)
        ensures
            final(self).same_setup(old(self)),
            final(self).same_talk(old(self)),
            final(self).same_hooks(old(self)),
            *final(final(self).session) == *final(old(self).session),
            final(self).session.intact() ==> old(self).session.intact(),
            step_ok(
                true,
                final(self).session.intact(),
                old(self).session.events(),
                final(self).session.events(),
            ),
            !invocation@.approved ==> r is Err && *final(caller) == *old(caller),
            handle@ != invocation@.tool ==> r is Err && *final(caller) == *old(caller),
            final(self).session.intact() ==> is_mcp_call(
                added(old(self).session.events(), final(self).session.events())[0],
                invocation@,
                source@,
            ),
            *final(caller) == *old(caller) || approval_taken(
                added(old(self).session.handed(), final(self).session.handed()),
                invocation@,
                source@,
            ),
            hooks_idle(old(self).hooks) ==> exists|t: McpTrace|
                {
                    &&& #[trigger] is_mcp_run(
                        *old(caller),
                        sink,
                        invocation@,
                        source@,
                        Some(handle@),
                        hook_rules(old(self).hooks),
                        sequence_of(old(self).hooks),
                        t,
                        added(old(self).session.handed(), final(self).session.handed()),
                        r,
                        *final(caller),
                        sequence_of(final(self).hooks),
                    )
                    &&& t.called is Some ==> exists|c: &mut C, tool: &str, arguments: Json|
                        {
                            &&& #[trigger] call_ensures(
                                C::call,
                                (c, tool, &arguments),
                                t.called->0,
                            )
                            &&& *c == *old(caller)
                            &&& *final(c) == *final(caller)
                            &&& tool@ == invocation@.tool
                            &&& arguments@ == invocation@.arguments
                        }
                },
    {
        run_mcp_tool_with(
            self.session,
            &mut self.hooks,
            source,
            Some(handle),
            invocation,
            caller,
            sink,
        )
    }
}

fn root_path() -> (r: Vec<String>)
    ensures
        views(r@) == seq!["root"@],
{
    let mut path: Vec<String> = Vec::new();
    path.push("root".to_string());
    assert(views(path@) =~= seq!["root"@]);
    path
}

// ---------------------------------------------------------------------------
// Laws
// ---------------------------------------------------------------------------

/// A turn adds its start, under the number of the events before it, and its end, completed or
/// aborted under the same number, with everything else of it between them.
pub proof fn what_a_turn_adds(before: Seq<Event>, after: Seq<Event>)
    requires
        is_turn(before, after),
    ensures
        after.len() >= before.len() + 2,
        forall|i: int| 0 <= i < before.len() ==> #[trigger] after[i] == before[i],
        after[before.len() as int] == (Event::TurnStarted { turn_id: before.len() as u64 }),
        (after.last() is TurnCompleted && after.last()->TurnCompleted_turn_id == before.len()) || (
        after.last() is TurnAborted && after.last()->TurnAborted_turn_id == before.len()),
{
    let events = added(before, after);
    assert(events[0] == after[before.len() as int]);
    assert(events.last() == after.last());
    assert forall|i: int| 0 <= i < before.len() implies #[trigger] after[i] == before[i] by {
        assert(after.subrange(0, before.len() as int)[i] == after[i]);
    }
}

/// The rules of a turn are those of the loop: its limit, its guard and its path; a chat answers
/// where there is one with a call.
pub proof fn what_a_loop_goes_by<'a, S: SessionStore>(l: &AgentLoop<'a, S>, turn_id: u64)
    ensures
        l.rules_of_turn(turn_id).turn.turn_id == turn_id,
        l.rules_of_turn(turn_id).turn.limit == l.max_tool_rounds,
        l.rules_of_turn(turn_id).turn.guard == l.loop_guard,
        l.rules_of_turn(turn_id).turn.path == views(l.agent_path@),
        l.rules_of_turn(turn_id).turn.message == 0,
        l.rules_of_turn(turn_id).turn.hooks == hook_rules(l.hooks),
        l.rules_of_turn(turn_id).chat is Some <==> l.chat is Some && l.call_spec is Some,
        l.rules_of_turn(turn_id).plain is Some <==> l.model is Some,
{
}

/// A turn ends with its completion or its abortion, under its own number.
pub proof fn what_ends_a_turn(e: Event, turn_id: int)
    ensures
        ends_turn(e, turn_id) <==> (e is TurnCompleted && e->TurnCompleted_turn_id == turn_id) || (
        e is TurnAborted && e->TurnAborted_turn_id == turn_id),
{
}

/// A turn that is sound leaves no turn open, the calls as they were, and a ledger that replays.
pub proof fn what_a_sound_turn_leaves(before: Seq<Event>, after: Seq<Event>)
    requires
        turn_is_sound(before, after),
    ensures
        turn_state(before) is Idle ==> turn_state(after) is Idle,
        open_calls(before) is Some ==> open_calls(after) == open_calls(before),
        ledger_of(before) is Ok ==> ledger_of(after) is Ok,
{
}

} // verus!
