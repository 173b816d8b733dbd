//! Coordinating a team of agents through the event stream: a change is checked first,
//! recorded second, and takes effect only as a record.
use vstd::prelude::*;
use crate::protocol::{
    error, ErrorCode, ErrorEnvelope, ErrorView, Event, SequencedEvent, TeamMember, TeamMessage,
    TeamTask, TeamWriteScopeConflict,
};
use crate::session::{
    added, extends, recorded, taken, Handed, SessionStore, StoredEvents,
};
use crate::subagent_policy::{denied, validate_child_policy, within, SubagentPolicy};
use crate::text::concat2;

verus! {

broadcast use vstd::string::group_string_axioms;

/// What a team is at a moment: its members, its messages and its tasks, and the rules
/// for changing them.
pub trait TeamState: Sized {
    fn replay(root_id: &str, events: &Vec<SequencedEvent>) -> Result<Self, ErrorEnvelope>;

    fn validate_member(&self, member: &TeamMember) -> Result<(), ErrorEnvelope>;

    /// Whether a message is new.
    fn validate_message(&self, message: &TeamMessage) -> Result<bool, ErrorEnvelope>;

    /// The oldest message for a member that is not delivered yet.
    fn next_message(&self, member_id: &str) -> Option<TeamMessage>;

    fn validate_new_task(&self, task: &TeamTask) -> Result<
        Vec<TeamWriteScopeConflict>,
        ErrorEnvelope,
    >;

    fn validate_task_update(&self, expected_revision: u64, task: &TeamTask) -> Result<
        Vec<TeamWriteScopeConflict>,
        ErrorEnvelope,
    >;

    /// The state after a recorded event, and what the state says to it.
    fn apply(&self, seq: u64, event: &Event) -> (Self, Result<(), ErrorEnvelope>);
}

/// The coordinator of a team.
pub struct TeamCoordinator<'a, S: SessionStore, T: TeamState> {
    pub session: &'a mut S,
    pub state: T,
}

/// What was recorded of a task and of the conflicts that it causes, and what came of it. The
/// session is handed all of it at once and takes all of it or nothing. What it took is shown
/// to the state, event by event, up to the first one that the state refuses. `states` are the
/// states before, between and after those events.
pub open spec fn is_task_batch<T: TeamState>(
    states: Seq<T>,
    before: Seq<Handed>,
    after: Seq<Handed>,
    first: Event,
    conflicts: Seq<TeamWriteScopeConflict>,
    refused: Option<ErrorEnvelope>,
) -> bool {
    let batch = added(before, after);
    let base = taken(before).len();
    let n = states.len() - 1;
    &&& extends(before, after)
    &&& batch.len() == conflicts.len() + 1
    &&& batch[0].event == first
    &&& forall|i: int|
        0 <= i < conflicts.len() ==> (#[trigger] conflict_of(batch[i + 1].event)) == Some(
            conflict_view(conflicts[i]),
        )
    &&& forall|i: int|
        0 <= i < batch.len() ==> (#[trigger] batch[i]).refused == batch[0].refused
    &&& match batch[0].refused {
        Some(detail) => {
            &&& n == 0
            &&& refused is Some && refused->0@ == append_failed(detail)
        },
        None => {
            &&& 0 < n <= batch.len()
            &&& forall|i: int|
                0 <= i < n - 1 ==> applied(
                    states[i],
                    (base + i) as u64,
                    batch[i].event,
                    #[trigger] states[i + 1],
                    None,
                )
            &&& applied(
                states[n - 1],
                (base + n - 1) as u64,
                batch[n - 1].event,
                states[n],
                refused,
            )
            &&& refused is None ==> n == batch.len()
        },
    }
}

/// The same, from one state to another.
pub open spec fn task_as<T: TeamState>(
    state: T,
    next: T,
    before: Seq<Handed>,
    after: Seq<Handed>,
    first: Event,
    conflicts: Seq<TeamWriteScopeConflict>,
    refused: Option<ErrorEnvelope>,
) -> bool {
    exists|states: Seq<T>|
        {
            &&& #[trigger] is_task_batch(states, before, after, first, conflicts, refused)
            &&& states[0] == state
            &&& states.last() == next
        }
}

pub struct ConflictView {
    pub task: Seq<char>,
    pub other: Seq<char>,
    pub scope: Seq<char>,
}

pub open spec fn conflict_view(c: TeamWriteScopeConflict) -> ConflictView {
    ConflictView { task: c.task_id@, other: c.conflicting_task_id@, scope: c.scope@ }
}

/// The conflict that an event records.
pub open spec fn conflict_of(e: Event) -> Option<ConflictView> {
    match e {
        Event::TeamWriteScopeConflictDetected { conflict } => Some(conflict_view(conflict)),
        _ => None,
    }
}

fn copy_conflict(c: &TeamWriteScopeConflict) -> (r: TeamWriteScopeConflict)
    ensures
        conflict_view(r) == conflict_view(*c),
{
    TeamWriteScopeConflict {
        task_id: c.task_id.clone(),
        conflicting_task_id: c.conflicting_task_id.clone(),
        scope: c.scope.clone(),
    }
}

/// The events of a task and of the conflicts that it causes.
fn task_events(first: Event, conflicts: &Vec<TeamWriteScopeConflict>) -> (r: Vec<Event>)
    ensures
        r@.len() == conflicts@.len() + 1,
        r@[0] == first,
        forall|i: int|
            0 <= i < conflicts@.len() ==> (#[trigger] conflict_of(r@[i + 1])) == Some(
                conflict_view(conflicts@[i]),
            ),
{
    let mut r: Vec<Event> = Vec::new();
    r.push(first);
    let mut i: usize = 0;
    while i < conflicts.len()
        invariant
            i <= conflicts@.len(),
            r@.len() == i + 1,
            r@[0] == first,
            forall|j: int|
                0 <= j < i ==> (#[trigger] conflict_of(r@[j + 1])) == Some(
                    conflict_view(conflicts@[j]),
                ),
        decreases conflicts@.len() - i,
    {
        let ghost before = r@;
        r.push(Event::TeamWriteScopeConflictDetected { conflict: copy_conflict(&conflicts[i]) });
        proof {
            assert forall|j: int| 0 <= j < i + 1 implies (#[trigger] conflict_of(r@[j + 1]))
                == Some(conflict_view(conflicts@[j])) by {
                if j < i {
                    assert(conflict_of(before[j + 1]) == Some(conflict_view(conflicts@[j])));
                }
            }
        }
        i = i + 1;
    }
    r
}

pub open spec fn append_failed(detail: Seq<char>) -> ErrorView {
    error(ErrorCode::Internal, "failed to append team event: "@ + detail)
}

/// What the events replay to.
pub open spec fn replays_to<T: TeamState>(
    log: Seq<Event>,
    root_id: &str,
    r: Result<T, ErrorEnvelope>,
) -> bool {
    exists|records: &Vec<SequencedEvent>|
        recorded(records@) == log && #[trigger] call_ensures(T::replay, (root_id, records), r)
}

/// The error of a result.
pub open spec fn refusal<V>(r: Result<V, ErrorEnvelope>) -> Option<ErrorEnvelope> {
    match r {
        Ok(_) => None,
        Err(e) => Some(e),
    }
}

/// What the state makes of a recorded event: the state after it, and why it is refused.
pub open spec fn applied<T: TeamState>(
    state: T,
    seq: u64,
    event: Event,
    after: T,
    refused: Option<ErrorEnvelope>,
) -> bool {
    exists|r: Result<(), ErrorEnvelope>| #[trigger]
        call_ensures(T::apply, (&state, seq, &event), (after, r)) && refusal(r) == refused
}

/// The record of a delivered message.
pub open spec fn is_delivery(e: Event, message_id: Seq<char>, member_id: Seq<char>) -> bool {
    e matches Event::TeamMessageDelivered { message_id: id, to_member_id } && id@ == message_id
        && to_member_id@ == member_id
}

/// What recording an event comes to: it is recorded and shown to the state, whose answer
/// is the result, or it could not be recorded.
pub open spec fn is_recorded<T: TeamState>(
    state: T,
    next: T,
    before: Seq<Handed>,
    after: Seq<Handed>,
    event: Event,
    refused: Option<ErrorEnvelope>,
) -> bool {
    &&& after == before.push(after.last())
    &&& after.last().event == event
    &&& match after.last().refused {
        None => applied(state, taken(before).len() as u64, event, next, refused),
        Some(detail) => {
            &&& next == state
            &&& refused is Some && refused->0@ == append_failed(detail)
        },
    }
}

fn replay_state<S: SessionStore, T: TeamState>(session: &S, root_id: &str) -> (r: Result<
    T,
    ErrorEnvelope,
>)
    ensures
        replays_to(session.events(), root_id, r),
{
    match session.replay_events() {
        Ok(records) => {
            let result = T::replay(root_id, records);
            assert(call_ensures(T::replay, (root_id, records), result));
            result
        },
        Err(e) => Err(
            ErrorEnvelope::new(
                ErrorCode::Internal,
                concat2("failed to replay team state: ", &e),
            ),
        ),
    }
}

impl<'a, S: SessionStore, T: TeamState> TeamCoordinator<'a, S, T> {
    /// A coordinator over a session, with the state that the session replays to.
    pub fn open(session: &'a mut S, root_id: &str) -> (r: Result<
        TeamCoordinator<'a, S, T>,
        ErrorEnvelope,
    >)
        ensures
            r matches Ok(c) ==> {
                &&& *c.session == *old(session)
                &&& *final(c.session) == *final(session)
                &&& replays_to(old(session).events(), root_id, Ok::<T, ErrorEnvelope>(c.state))
            },
            r matches Err(e) ==> replays_to(
                old(session).events(),
                root_id,
                Err::<T, ErrorEnvelope>(e),
            ),
    {
        let replayed: Result<T, ErrorEnvelope> = replay_state(&*session, root_id);
        match replayed {
            Ok(state) => Ok(TeamCoordinator { session, state }),
            Err(e) => Err(e),
        }
    }

    pub fn state(&self) -> (r: &T)
        ensures
            *r == self.state,
    {
        &self.state
    }

    fn append(&mut self, event: Event) -> (r: Result<(), ErrorEnvelope>)
        ensures
            *final(final(self).session) == *final(old(self).session),
            final(self).session.intact() ==> old(self).session.intact(),
            r is Ok ==> final(self).session.events() == old(self).session.events().push(event),
            is_recorded(
                old(self).state,
                final(self).state,
                old(self).session.handed(),
                final(self).session.handed(),
                event,
                refusal(r),
            ),
    {
        let seq: u64 = match self.session.append(event) {
            Ok(seq) => seq,
            Err(e) => {
                assert(append_failed(e@) == error(
                    ErrorCode::Internal,
                    "failed to append team event: "@ + e@,
                ));
                return Err(
                    ErrorEnvelope::new(
                        ErrorCode::Internal,
                        concat2("failed to append team event: ", &e),
                    ),
                );
            },
        };
        assert(self.session.events().last() == event);
        match self.session.last_record() {
            Some(record) => {
                let (next, r) = self.state.apply(seq, &record.event);
                assert(call_ensures(T::apply, (&old(self).state, seq, &event), (next, r)));
                self.state = next;
                r
            },
            None => Ok(()),
        }
    }

    /// Adds a member whose policy stays within that of its parent.
    pub fn register_member(
        &mut self,
        member: TeamMember,
        parent_policy: &SubagentPolicy,
        member_policy: &SubagentPolicy,
    ) -> (r: Result<(), ErrorEnvelope>)
        ensures
            *final(final(self).session) == *final(old(self).session),
            final(self).session.intact() ==> old(self).session.intact(),
            !within(member_policy@, parent_policy@) ==> {
                &&& r is Err
                &&& r->Err_0@ == denied("child subagent policy expands its parent policy"@)
                &&& *final(self).session == *old(self).session
                &&& final(self).state == old(self).state
            },
            within(member_policy@, parent_policy@) ==> exists|valid: Result<(), ErrorEnvelope>|
                #[trigger] call_ensures(T::validate_member, (&old(self).state, &member), valid)
                    && match valid {
                    Err(e) => r == Err::<(), ErrorEnvelope>(e) && *final(self).session
                        == *old(self).session && final(self).state == old(self).state,
                    Ok(()) => is_recorded(
                        old(self).state,
                        final(self).state,
                        old(self).session.handed(),
                        final(self).session.handed(),
                        Event::TeamMemberRegistered { member },
                        refusal(r),
                    ),
                },
            r is Ok ==> final(self).session.events() == old(self).session.events().push(
                Event::TeamMemberRegistered { member },
            ),
    {
        match validate_child_policy(parent_policy, member_policy) {
            Ok(()) => {},
            Err(e) => {
                return Err(e);
            },
        }
        let valid = self.state.validate_member(&member);
        assert(call_ensures(T::validate_member, (&old(self).state, &member), valid));
        match valid {
            Ok(()) => {},
            Err(e) => {
                return Err(e);
            },
        }
        self.append(Event::TeamMemberRegistered { member })
    }

    /// Queues a message, and says whether it was new.
    pub fn enqueue_message(&mut self, message: TeamMessage) -> (r: Result<bool, ErrorEnvelope>)
        ensures
            *final(final(self).session) == *final(old(self).session),
            final(self).session.intact() ==> old(self).session.intact(),
            exists|valid: Result<bool, ErrorEnvelope>|
                #[trigger] call_ensures(T::validate_message, (&old(self).state, &message), valid)
                    && match valid {
                    Ok(true) => (r is Ok ==> r == Ok::<bool, ErrorEnvelope>(true)) && is_recorded(
                        old(self).state,
                        final(self).state,
                        old(self).session.handed(),
                        final(self).session.handed(),
                        Event::TeamMessageEnqueued { message },
                        refusal(r),
                    ),
                    _ => r == valid && *final(self).session == *old(self).session
                        && final(self).state == old(self).state,
                },
            r == Ok::<bool, ErrorEnvelope>(true) ==> final(self).session.events() == old(
                self,
            ).session.events().push(Event::TeamMessageEnqueued { message }),
    {
        let valid = self.state.validate_message(&message);
        assert(call_ensures(T::validate_message, (&old(self).state, &message), valid));
        match valid {
            Ok(true) => {},
            Ok(false) => {
                return Ok(false);
            },
            Err(e) => {
                return Err(e);
            },
        }
        let recorded = self.append(Event::TeamMessageEnqueued { message });
        let ghost answer = recorded;
        let r: Result<bool, ErrorEnvelope> = match recorded {
            Ok(()) => Ok(true),
            Err(e) => Err(e),
        };
        assert(refusal(r) == refusal(answer));
        r
    }

    /// Delivers the oldest message for a member. The delivery is recorded, so that it
    /// happens once.
    pub fn deliver_next(&mut self, member_id: &str) -> (r: Result<
        Option<TeamMessage>,
        ErrorEnvelope,
    >)
        ensures
            *final(final(self).session) == *final(old(self).session),
            final(self).session.intact() ==> old(self).session.intact(),
            exists|next: Option<TeamMessage>|
                #[trigger] call_ensures(T::next_message, (&old(self).state, member_id), next)
                    && match next {
                    None => r == Ok::<Option<TeamMessage>, ErrorEnvelope>(None)
                        && *final(self).session == *old(self).session
                        && final(self).state == old(self).state,
                    Some(m) => (r is Ok ==> r->Ok_0 == Some(m)) && exists|event: Event|
                        {
                            &&& is_delivery(event, m.message_id@, member_id@)
                            &&& #[trigger] is_recorded(
                                old(self).state,
                                final(self).state,
                                old(self).session.handed(),
                                final(self).session.handed(),
                                event,
                                refusal(r),
                            )
                        },
                },
    {
        let next = self.state.next_message(member_id);
        assert(call_ensures(T::next_message, (&old(self).state, member_id), next));
        let message = match next {
            Some(message) => message,
            None => {
                return Ok(None);
            },
        };
        let delivered = Event::TeamMessageDelivered {
            message_id: message.message_id.clone(),
            to_member_id: member_id.to_owned(),
        };
        assert(is_delivery(delivered, message.message_id@, member_id@));
        let recorded = self.append(delivered);
        let ghost answer = recorded;
        let r: Result<Option<TeamMessage>, ErrorEnvelope> = match recorded {
            Ok(()) => Ok(Some(message)),
            Err(e) => Err(e),
        };
        assert(refusal(r) == refusal(answer));
        r
    }

    /// Records a task and the conflicts that it causes in one go, and shows them to the
    /// state.
    fn record_task(&mut self, first: Event, conflicts: &Vec<TeamWriteScopeConflict>) -> (r: Result<
        (),
        ErrorEnvelope,
    >)
        ensures
            *final(final(self).session) == *final(old(self).session),
            final(self).session.intact() ==> old(self).session.intact(),
            task_as(
                old(self).state,
                final(self).state,
                old(self).session.handed(),
                final(self).session.handed(),
                first,
                conflicts@,
                refusal(r),
            ),
    {
        let ghost start = self.session.handed();
        let ghost base = taken(start).len();
        let events = task_events(first, conflicts);
        let count: usize = events.len();
        let ghost given = events@;
        let ghost mut states: Seq<T> = seq![self.state];
        let appended = self.session.append_all(events);
        let ghost after = self.session.handed();
        let ghost batch = added(start, after);
        proof {
            assert(after.subrange(0, start.len() as int) =~= start);
            assert(batch.len() == given.len());
            assert forall|i: int| 0 <= i < batch.len() implies (#[trigger] batch[i]).event
                == given[i] && batch[i].refused == batch[0].refused by {
                assert(batch[i] == after[start.len() + i]);
                assert(batch[0] == after[start.len() as int]);
            }
            assert forall|i: int| 0 <= i < conflicts@.len() implies (#[trigger] conflict_of(
                batch[i + 1].event,
            )) == Some(conflict_view(conflicts@[i])) by {
                assert(batch[i + 1].event == given[i + 1]);
                assert(conflict_of(given[i + 1]) == Some(conflict_view(conflicts@[i])));
            }
            assert(batch[0].event == first);
        }
        let seq: u64 = match appended {
            Ok(seq) => seq,
            Err(detail) => {
                let e = ErrorEnvelope::new(
                    ErrorCode::Internal,
                    concat2("failed to append team event: ", &detail),
                );
                assert(is_task_batch(states, start, after, first, conflicts@, Some(e)));
                return Err(e);
            },
        };
        let mut i: usize = 0;
        while i < count
            invariant
                *final(self.session) == *final(old(self).session),
                count == conflicts@.len() + 1,
                i <= count,
                self.session.handed() == after,
                taken(after) == taken(start) + given,
                self.session.intact() ==> old(self).session.intact(),
                start == old(self).session.handed(),
                seq == base,
                base == taken(start).len(),
                given.len() == count,
                batch == added(start, after),
                batch.len() == count,
                extends(start, after),
                forall|j: int| 0 <= j < count ==> (#[trigger] batch[j]).event == given[j],
                forall|j: int| 0 <= j < count ==> (#[trigger] batch[j]).refused is None,
                batch[0].event == first,
                forall|j: int|
                    0 <= j < conflicts@.len() ==> (#[trigger] conflict_of(batch[j + 1].event))
                        == Some(conflict_view(conflicts@[j])),
                states.len() == i + 1,
                states[0] == old(self).state,
                states.last() == self.state,
                forall|j: int|
                    0 <= j < i ==> applied(
                        states[j],
                        (base + j) as u64,
                        batch[j].event,
                        #[trigger] states[j + 1],
                        None,
                    ),
            decreases count - i,
        {
            let ghost passed = states;
            let ghost state = self.state;
            let (next, answer) = match self.session.replay_events() {
                Err(e) => {
                    return Err(ErrorEnvelope::new(ErrorCode::Internal, e));
                },
                Ok(records) => {
                    assert(recorded(records@).len() == records@.len());
                    let at: usize = records.len() - (count - i);
                    proof {
                        assert(recorded(records@)[at as int] == records@[at as int].event);
                        assert(given[i as int] == records@[at as int].event);
                    }
                    let record = &records[at];
                    let (next, answer) = self.state.apply(record.seq, &record.event);
                    assert(call_ensures(
                        T::apply,
                        (&state, record.seq, &record.event),
                        (next, answer),
                    ));
                    (next, answer)
                },
            };
            self.state = next;
            proof {
                states = states.push(next);
                assert(applied(state, (base + i) as u64, batch[i as int].event, next, refusal(
                    answer,
                )));
                assert forall|j: int| 0 <= j < i implies applied(
                    states[j],
                    (base + j) as u64,
                    batch[j].event,
                    #[trigger] states[j + 1],
                    None,
                ) by {
                    assert(states[j + 1] == passed[j + 1]);
                    assert(states[j] == passed[j]);
                }
            }
            match answer {
                Ok(()) => {},
                Err(e) => {
                    assert(is_task_batch(states, start, after, first, conflicts@, Some(e)));
                    return Err(e);
                },
            }
            i = i + 1;
        }
        assert(is_task_batch(states, start, after, first, conflicts@, None));
        Ok(())
    }

    /// Creates a task. It and the conflicts that it causes are recorded in one go.
    pub fn create_task(&mut self, task: TeamTask) -> (r: Result<
        Vec<TeamWriteScopeConflict>,
        ErrorEnvelope,
    >)
        ensures
            *final(final(self).session) == *final(old(self).session),
            final(self).session.intact() ==> old(self).session.intact(),
            exists|valid: Result<Vec<TeamWriteScopeConflict>, ErrorEnvelope>|
                #[trigger] call_ensures(T::validate_new_task, (&old(self).state, &task), valid)
                    && match valid {
                    Err(_) => r == valid && *final(self).session == *old(self).session
                        && final(self).state == old(self).state,
                    Ok(conflicts) => (r is Ok ==> r == valid) && task_as(
                        old(self).state,
                        final(self).state,
                        old(self).session.handed(),
                        final(self).session.handed(),
                        Event::TeamTaskCreated { task },
                        conflicts@,
                        refusal(r),
                    ),
                },
    {
        let valid = self.state.validate_new_task(&task);
        assert(call_ensures(T::validate_new_task, (&old(self).state, &task), valid));
        let conflicts = match valid {
            Ok(conflicts) => conflicts,
            Err(e) => {
                return Err(e);
            },
        };
        let event = Event::TeamTaskCreated { task };
        let recorded = self.record_task(event, &conflicts);
        let ghost answer = recorded;
        let r: Result<Vec<TeamWriteScopeConflict>, ErrorEnvelope> = match recorded {
            Ok(()) => Ok(conflicts),
            Err(e) => Err(e),
        };
        assert(refusal(r) == refusal(answer));
        r
    }

    /// Changes a task of which the caller has seen the newest revision.
    pub fn update_task(&mut self, expected_revision: u64, task: TeamTask) -> (r: Result<
        Vec<TeamWriteScopeConflict>,
        ErrorEnvelope,
    >)
        ensures
            *final(final(self).session) == *final(old(self).session),
            final(self).session.intact() ==> old(self).session.intact(),
            exists|valid: Result<Vec<TeamWriteScopeConflict>, ErrorEnvelope>|
                #[trigger] call_ensures(
                    T::validate_task_update,
                    (&old(self).state, expected_revision, &task),
                    valid,
                )
                    && match valid {
                    Err(_) => r == valid && *final(self).session == *old(self).session
                        && final(self).state == old(self).state,
                    Ok(conflicts) => (r is Ok ==> r == valid) && task_as(
                        old(self).state,
                        final(self).state,
                        old(self).session.handed(),
                        final(self).session.handed(),
                        Event::TeamTaskUpdated { expected_revision, task },
                        conflicts@,
                        refusal(r),
                    ),
                },
    {
        let valid = self.state.validate_task_update(expected_revision, &task);
        assert(call_ensures(
            T::validate_task_update,
            (&old(self).state, expected_revision, &task),
            valid,
        ));
        let conflicts = match valid {
            Ok(conflicts) => conflicts,
            Err(e) => {
                return Err(e);
            },
        };
        let event = Event::TeamTaskUpdated { expected_revision, task };
        let recorded = self.record_task(event, &conflicts);
        let ghost answer = recorded;
        let r: Result<Vec<TeamWriteScopeConflict>, ErrorEnvelope> = match recorded {
            Ok(()) => Ok(conflicts),
            Err(e) => Err(e),
        };
        assert(refusal(r) == refusal(answer));
        r
    }
}

// ---------------------------------------------------------------------------
// Laws
// ---------------------------------------------------------------------------

/// A delivery names its message and the member that it went to.
pub proof fn what_a_delivery_names(e: Event, message_id: Seq<char>, member_id: Seq<char>)
    requires
        is_delivery(e, message_id, member_id),
    ensures
        e is TeamMessageDelivered,
        e->TeamMessageDelivered_message_id@ == message_id,
        e->TeamMessageDelivered_to_member_id@ == member_id,
{
}

/// What is recorded is one event; a state that the session did not take the record of stays as
/// it is, and the error says why.
pub proof fn one_event_is_recorded<T: TeamState>(
    state: T,
    next: T,
    before: Seq<Handed>,
    after: Seq<Handed>,
    event: Event,
    refused: Option<ErrorEnvelope>,
)
    requires
        is_recorded(state, next, before, after, event, refused),
    ensures
        after.len() == before.len() + 1,
        after.last().event == event,
        forall|i: int| 0 <= i < before.len() ==> #[trigger] after[i] == before[i],
        after.last().refused is Some ==> next == state && refused is Some && refused->0@.code
            == ErrorCode::Internal && refused->0@.message == "failed to append team event: "@
            + after.last().refused->0,
{
}

/// A batch records the task first and behind it each conflict in its order, all of them or
/// none.
pub proof fn a_batch_records_every_conflict<T: TeamState>(
    states: Seq<T>,
    before: Seq<Handed>,
    after: Seq<Handed>,
    first: Event,
    conflicts: Seq<TeamWriteScopeConflict>,
    refused: Option<ErrorEnvelope>,
    i: int,
)
    requires
        is_task_batch(states, before, after, first, conflicts, refused),
        0 <= i < conflicts.len(),
    ensures
        after.len() == before.len() + 1 + conflicts.len(),
        after[before.len() as int].event == first,
        after[before.len() + 1 + i].event is TeamWriteScopeConflictDetected,
        after[before.len() + 1 + i].event->conflict.task_id@ == conflicts[i].task_id@,
        after[before.len() + 1 + i].event->conflict.conflicting_task_id@
            == conflicts[i].conflicting_task_id@,
        after[before.len() + 1 + i].event->conflict.scope@ == conflicts[i].scope@,
        after[before.len() + 1 + i].refused == after[before.len() as int].refused,
{
    let batch = added(before, after);
    assert(batch[0] == after[before.len() as int]);
    assert(batch[i + 1] == after[before.len() + 1 + i]);
    assert(conflict_of(batch[i + 1].event) == Some(conflict_view(conflicts[i])));
}

} // verus!
