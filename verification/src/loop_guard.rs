//! The guard against a model that asks for the same call again and again.
use vstd::prelude::*;
use crate::json::{lemma_member_at, lemma_object_view, member_of, members_view, Json, JsonView};
use crate::protocol::{error, ErrorCode, ErrorEnvelope, ErrorView, OutcomeView, ToolOutcome};
use crate::text::{concat3, decimal, decimal_of, same_text};

verus! {

broadcast use vstd::string::group_string_axioms;

/// From how many identical calls in a row on a call is answered with a reminder,
/// and from how many on it is refused.
#[derive(Debug, Clone, Copy, PartialEq, Eq, Structural)]
pub struct LoopGuard {
    pub remind_after: u32,
    pub reject_after: u32,
}

/// What the guard makes of the `n`-th identical call in a row.
#[derive(Debug, Clone, Copy, PartialEq, Eq, Structural)]
pub enum LoopVerdict {
    Run,
    Remind,
    Reject,
}

pub open spec fn loop_verdict(guard: Option<LoopGuard>, n: int) -> LoopVerdict {
    match guard {
        None => LoopVerdict::Run,
        Some(g) => if n >= g.reject_after {
            LoopVerdict::Reject
        } else if n >= g.remind_after {
            LoopVerdict::Remind
        } else {
            LoopVerdict::Run
        },
    }
}

pub fn judge(guard: Option<LoopGuard>, n: u64) -> (r: LoopVerdict)
    ensures
        r == loop_verdict(guard, n as int),
{
    match guard {
        None => LoopVerdict::Run,
        Some(g) => {
            if n >= g.reject_after as u64 {
                LoopVerdict::Reject
            } else if n >= g.remind_after as u64 {
                LoopVerdict::Remind
            } else {
                LoopVerdict::Run
            }
        },
    }
}

/// The last call and how often it came in a row.
#[derive(Debug, PartialEq, Eq)]
pub struct CallTracker {
    tool: String,
    args: String,
    count: u64,
}

pub struct TrackerView {
    pub tool: Seq<char>,
    pub args: Seq<char>,
    pub count: u64,
}

impl View for CallTracker {
    type V = TrackerView;

    closed spec fn view(&self) -> TrackerView {
        TrackerView { tool: self.tool@, args: self.args@, count: self.count }
    }
}

/// The tracker after one more call. Another tool or other arguments start anew.
pub open spec fn counted(t: TrackerView, tool: Seq<char>, args: Seq<char>) -> TrackerView {
    if t.count > 0 && t.tool == tool && t.args == args {
        TrackerView {
            count: if t.count == u64::MAX {
                u64::MAX
            } else {
                (t.count + 1) as u64
            },
            ..t
        }
    } else {
        TrackerView { tool, args, count: 1 }
    }
}

impl CallTracker {
    pub fn new() -> (r: CallTracker)
        ensures
            r@ == (TrackerView { tool: Seq::empty(), args: Seq::empty(), count: 0 }),
    {
        let r = CallTracker { tool: String::new(), args: String::new(), count: 0 };
        assert(r@.tool =~= Seq::empty());
        assert(r@.args =~= Seq::empty());
        r
    }

    /// Counts a call; gives how often it came in a row.
    pub fn note(&mut self, tool: &str, args: &str) -> (r: u64)
        ensures
            final(self)@ == counted(old(self)@, tool@, args@),
            r == final(self)@.count,
    {
        if self.count > 0 && same_text(&self.tool, tool) && same_text(&self.args, args) {
            self.count = self.count.saturating_add(1);
        } else {
            self.tool = tool.to_owned();
            self.args = args.to_owned();
            self.count = 1;
        }
        self.count
    }
}

pub open spec fn loop_error(n: int) -> ErrorView {
    error(
        ErrorCode::ToolLoopDetected,
        "identical tool call repeated "@ + decimal(n as nat)
            + " times; rejected by the loop guard"@,
    )
}

/// The outcome of a call that the guard refuses.
pub fn rejected_by_guard(n: u64) -> (r: ToolOutcome)
    ensures
        r@ == (OutcomeView::Failure { error: loop_error(n as int) }),
{
    ToolOutcome::Failure {
        error: ErrorEnvelope::new(
            ErrorCode::ToolLoopDetected,
            concat3(
                "identical tool call repeated ",
                &decimal_of(n),
                " times; rejected by the loop guard",
            ),
        ),
    }
}

pub open spec fn notice_text(n: int) -> Seq<char> {
    "repeated identical tool call #"@ + decimal(n as nat)
        + "; use the earlier result or change the arguments"@
}

/// A successful result together with the reminder; a failure as it is.
pub open spec fn reminded(o: OutcomeView, n: int) -> OutcomeView {
    match o {
        OutcomeView::Success { value } => OutcomeView::Success {
            value: JsonView::Object(
                seq![
                    ("guard_notice"@, JsonView::Text(notice_text(n))),
                    ("result"@, value),
                ],
            ),
        },
        OutcomeView::Failure { error } => o,
    }
}

pub fn with_reminder(outcome: ToolOutcome, n: u64) -> (r: ToolOutcome)
    ensures
        r@ == reminded(outcome@, n as int),
{
    match outcome {
        ToolOutcome::Success { value } => {
            let notice = concat3(
                "repeated identical tool call #",
                &decimal_of(n),
                "; use the earlier result or change the arguments",
            );
            let mut members: Vec<(String, Json)> = Vec::new();
            members.push(("guard_notice".to_string(), Json::Text(notice)));
            members.push(("result".to_string(), value));
            proof {
                lemma_object_view(members);
                assert(members_view(members@) =~= seq![
                    ("guard_notice"@, JsonView::Text(notice@)),
                    ("result"@, value@),
                ]);
            }
            ToolOutcome::Success { value: Json::Object(members) }
        },
        ToolOutcome::Failure { error } => ToolOutcome::Failure { error },
    }
}

// ---------------------------------------------------------------------------
// Laws
// ---------------------------------------------------------------------------

/// The tracker after `n` calls with the same tool and arguments.
pub open spec fn counted_times(t: TrackerView, tool: Seq<char>, args: Seq<char>, n: nat) -> TrackerView
    decreases n,
{
    if n == 0 {
        t
    } else {
        counted(counted_times(t, tool, args, (n - 1) as nat), tool, args)
    }
}

/// After another call, `n` identical calls in a row count as `n`.
pub proof fn identical_calls_are_counted(
    t: TrackerView,
    tool: Seq<char>,
    args: Seq<char>,
    n: nat,
)
    requires
        t.count == 0 || t.tool != tool || t.args != args,
        0 < n <= u64::MAX,
    ensures
        counted_times(t, tool, args, n) == (TrackerView { tool, args, count: n as u64 }),
    decreases n,
{
    if n > 1 {
        identical_calls_are_counted(t, tool, args, (n - 1) as nat);
    } else {
        assert(counted_times(t, tool, args, 0) == t);
    }
}

/// A call that differs from the one before is counted as the first.
pub proof fn other_calls_start_anew(t: TrackerView, tool: Seq<char>, args: Seq<char>)
    requires
        t.tool != tool || t.args != args,
    ensures
        counted(t, tool, args).count == 1,
{
}

/// A call runs while it was made fewer times than is allowed, is reminded from the first limit
/// on, and refused from the second on; without a guard it runs.
pub proof fn when_a_call_is_stopped(g: LoopGuard, n: int)
    requires
        g.remind_after <= g.reject_after,
    ensures
        loop_verdict(None, n) == LoopVerdict::Run,
        loop_verdict(Some(g), n) == LoopVerdict::Run <==> n < g.remind_after,
        loop_verdict(Some(g), n) == LoopVerdict::Remind <==> g.remind_after <= n < g.reject_after,
        loop_verdict(Some(g), n) == LoopVerdict::Reject <==> n >= g.reject_after,
{
}

/// A call with the same tool and arguments as the last one counts on; any other begins anew.
pub proof fn calls_are_counted_in_a_row(t: TrackerView, tool: Seq<char>, args: Seq<char>)
    ensures
        counted(t, tool, args).tool == tool,
        counted(t, tool, args).args == args,
        t.tool != tool || t.args != args ==> counted(t, tool, args).count == 1,
        t.tool == tool && t.args == args && 0 < t.count < u64::MAX ==> counted(
            t,
            tool,
            args,
        ).count == t.count + 1,
        t.count == 0 ==> counted(t, tool, args).count == 1,
{
}

/// A reminder keeps the result in full beside the notice, and a failure as it is.
pub proof fn a_reminder_keeps_the_result(o: OutcomeView, n: int)
    ensures
        o is Failure ==> reminded(o, n) == o,
        o is Success ==> {
            &&& reminded(o, n) is Success
            &&& member_of(reminded(o, n)->value, "result"@) == Some(o->value)
            &&& member_of(reminded(o, n)->value, "guard_notice"@) == Some(
                JsonView::Text(
                    "repeated identical tool call #"@ + decimal(n as nat)
                        + "; use the earlier result or change the arguments"@,
                ),
            )
        },
        loop_error(n).code == ErrorCode::ToolLoopDetected,
        loop_error(n).message == "identical tool call repeated "@ + decimal(n as nat)
            + " times; rejected by the loop guard"@,
{
    reveal_strlit("guard_notice");
    reveal_strlit("result");
    assert("guard_notice"@.len() == 12);
    assert("result"@.len() == 6);
    if o is Success {
        let members = reminded(o, n)->value->Object_0;
        lemma_member_at(members, 0);
        lemma_member_at(members, 1);
    }
}

} // verus!
