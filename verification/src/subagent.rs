//! Subagents: their tasks, their private traces and what they report.
use vstd::prelude::*;
use crate::protocol::{error, ErrorCode, ErrorEnvelope, ErrorView, Event};
use crate::subagent_lifecycle::SubagentCancellation;
use crate::text::{blank, is_blank};

verus! {

broadcast use vstd::string::group_string_axioms;

/// A task for a subagent. The id pairs the call and its result in the parent's
/// event stream.
#[derive(Debug, PartialEq, Eq)]
pub struct SubagentTask {
    id: String,
    prompt: String,
    parent_id: String,
    child_id: String,
}

pub struct TaskView {
    pub id: Seq<char>,
    pub prompt: Seq<char>,
    pub parent_id: Seq<char>,
    pub child_id: Seq<char>,
}

impl View for SubagentTask {
    type V = TaskView;

    closed spec fn view(&self) -> TaskView {
        TaskView {
            id: self.id@,
            prompt: self.prompt@,
            parent_id: self.parent_id@,
            child_id: self.child_id@,
        }
    }
}

impl Clone for SubagentTask {
    fn clone(&self) -> (r: SubagentTask)
        ensures
            r@ == self@,
    {
        proof {
            use_type_invariant(self);
        }
        SubagentTask {
            id: self.id.clone(),
            prompt: self.prompt.clone(),
            parent_id: self.parent_id.clone(),
            child_id: self.child_id.clone(),
        }
    }
}

/// No part of a task is blank.
pub open spec fn task_ok(t: TaskView) -> bool {
    !blank(t.id) && !blank(t.prompt) && !blank(t.parent_id) && !blank(t.child_id)
}

pub open spec fn task_error() -> ErrorView {
    error(
        ErrorCode::ToolArgsInvalid,
        "subagent id, prompt, parent id and child id must be non-empty"@,
    )
}

impl SubagentTask {
    #[verifier::type_invariant]
    spec fn well_formed(&self) -> bool {
        task_ok(self@)
    }

    /// A task of the root agent; the child takes the task's id.
    pub fn new(id: String, prompt: String) -> (r: Result<SubagentTask, ErrorEnvelope>)
        ensures
            match r {
                Ok(t) => {
                    &&& !blank(id@) && !blank(prompt@)
                    &&& t@ == (TaskView {
                        id: id@,
                        prompt: prompt@,
                        parent_id: "root"@,
                        child_id: id@,
                    })
                },
                Err(e) => (blank(id@) || blank(prompt@)) && e@ == task_error(),
            },
    {
        proof {
            reveal_strlit("root");
            assert("root"@[0] == 'r');
            assert(!crate::text::is_white("root"@[0]));
            assert(!blank("root"@));
        }
        let child_id = id.clone();
        SubagentTask::with_lineage(id, prompt, "root".to_string(), child_id)
    }

    pub fn with_lineage(id: String, prompt: String, parent_id: String, child_id: String) -> (r:
        Result<SubagentTask, ErrorEnvelope>)
        ensures
            ({
                let t = TaskView {
                    id: id@,
                    prompt: prompt@,
                    parent_id: parent_id@,
                    child_id: child_id@,
                };
                match r {
                    Ok(task) => task_ok(t) && task@ == t,
                    Err(e) => !task_ok(t) && e@ == task_error(),
                }
            }),
    {
        if is_blank(&id) || is_blank(&prompt) || is_blank(&parent_id) || is_blank(&child_id) {
            return Err(
                ErrorEnvelope::of(
                    ErrorCode::ToolArgsInvalid,
                    "subagent id, prompt, parent id and child id must be non-empty",
                ),
            );
        }
        Ok(SubagentTask { id, prompt, parent_id, child_id })
    }

    pub fn id(&self) -> (r: &String)
        ensures
            r@ == self@.id,
    {
        &self.id
    }

    pub fn prompt(&self) -> (r: &String)
        ensures
            r@ == self@.prompt,
    {
        &self.prompt
    }

    pub fn parent_id(&self) -> (r: &String)
        ensures
            r@ == self@.parent_id,
    {
        &self.parent_id
    }

    pub fn child_id(&self) -> (r: &String)
        ensures
            r@ == self@.child_id,
    {
        &self.child_id
    }
}

/// What a subagent reports at its end.
#[derive(Debug, PartialEq, Eq, Clone)]
pub struct SubagentReport {
    pub task_id: String,
    pub text: String,
    pub child_event_count: usize,
}

/// A subagent's own events. None of them is copied to the parent.
#[derive(Debug)]
pub struct SubagentTrace {
    events: Vec<Event>,
}

impl View for SubagentTrace {
    type V = Seq<Event>;

    closed spec fn view(&self) -> Seq<Event> {
        self.events@
    }
}

impl Default for SubagentTrace {
    fn default() -> (r: SubagentTrace)
        ensures
            r@ == Seq::<Event>::empty(),
    {
        SubagentTrace { events: Vec::new() }
    }
}

impl SubagentTrace {
    pub fn record(&mut self, event: Event)
        ensures
            final(self)@ == old(self)@.push(event),
    {
        self.events.push(event);
    }

    pub fn events(&self) -> (r: &Vec<Event>)
        ensures
            r@ == self@,
    {
        &self.events
    }

    pub fn len(&self) -> (r: usize)
        ensures
            r == self@.len(),
    {
        self.events.len()
    }

    pub fn is_empty(&self) -> (r: bool)
        ensures
            r == (self@.len() == 0),
    {
        self.events.len() == 0
    }
}

/// Runs subagents.
pub trait SubagentRunner {
    fn run(
        &self,
        task: &SubagentTask,
        trace: &mut SubagentTrace,
        cancellation: &SubagentCancellation,
    ) -> Result<String, ErrorEnvelope>;
}

/// Runs a task over a trace, and hands the trace back with what the runner gave.
pub fn run_task<R: SubagentRunner + ?Sized>(
    runner: &R,
    task: &SubagentTask,
    trace: SubagentTrace,
    cancellation: &SubagentCancellation,
) -> (r: (SubagentTrace, Result<String, ErrorEnvelope>))
    ensures
        ({
            let (after, given) = r;
            exists|t: &mut SubagentTrace| #[trigger]
                call_ensures(R::run, (runner, task, t, cancellation), given) && *t == trace
                    && *final(t) == after
        }),
{
    let mut left = trace;
    let given = run_over(runner, task, &mut left, cancellation);
    assert(exists|t: &mut SubagentTrace| #[trigger]
        call_ensures(R::run, (runner, task, t, cancellation), given) && *t == trace && *final(t)
            == left);
    (left, given)
}

fn run_over<R: SubagentRunner + ?Sized>(
    runner: &R,
    task: &SubagentTask,
    trace: &mut SubagentTrace,
    cancellation: &SubagentCancellation,
) -> (r: Result<String, ErrorEnvelope>)
    ensures
        exists|t: &mut SubagentTrace| #[trigger]
            call_ensures(R::run, (runner, task, t, cancellation), r) && *t == *old(trace)
                && *final(t) == *final(trace),
{
    runner.run(task, trace, cancellation)
}

/// The runner was given the task with the trace `before`; it left the trace as `after` and
/// gave back `r`.
pub open spec fn ran_task<R: SubagentRunner + ?Sized>(
    runner: &R,
    task: &SubagentTask,
    before: SubagentTrace,
    cancellation: &SubagentCancellation,
    after: SubagentTrace,
    r: Result<String, ErrorEnvelope>,
) -> bool {
    call_ensures(run_task::<R>, (runner, task, before, cancellation), (after, r))
}

// ---------------------------------------------------------------------------
// Laws
// ---------------------------------------------------------------------------

/// A task needs an id, a prompt, and the ids of who asks and who is asked, none of them blank.
pub proof fn what_a_task_needs(t: TaskView)
    ensures
        task_ok(t) <==> !blank(t.id) && !blank(t.prompt) && !blank(t.parent_id) && !blank(
            t.child_id,
        ),
        task_error().code == ErrorCode::ToolArgsInvalid,
{
}

} // verus!
