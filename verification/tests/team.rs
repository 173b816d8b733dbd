use ideal_harness::protocol::{
    ErrorCode, ErrorEnvelope, Event, SequencedEvent, TeamMember, TeamMessage, TeamTask,
    TeamTaskStatus, TeamWriteScopeConflict,
};
use ideal_harness::session::{EventLog, LoggedSession, MemorySession, SessionStore};
use ideal_harness::subagent_policy::SubagentPolicy;
use ideal_harness::team::{TeamCoordinator, TeamState};

/// A roster, its mailbox and its tasks, held in lists.
#[derive(Default, Clone)]
struct Roster {
    members: Vec<TeamMember>,
    messages: Vec<(TeamMessage, bool)>,
    tasks: Vec<TeamTask>,
    conflicts: Vec<TeamWriteScopeConflict>,
}

fn refused(code: ErrorCode) -> ErrorEnvelope {
    ErrorEnvelope::of(code, "refused by the roster")
}

impl Roster {
    fn task(&self, id: &str) -> Option<&TeamTask> {
        self.tasks.iter().find(|task| task.task_id == id)
    }

    fn waits_for(&self, from: &str, target: &str) -> bool {
        from == target
            || self.task(from).is_some_and(|task| {
                task.blocked_by.iter().any(|next| self.waits_for(next, target))
            })
    }

    fn overlaps(&self, task: &TeamTask) -> Vec<TeamWriteScopeConflict> {
        let mut found = vec![];
        for other in self.tasks.iter().filter(|other| other.task_id != task.task_id) {
            for scope in &task.write_scopes {
                if other.write_scopes.iter().any(|held| scope.starts_with(held.as_str())) {
                    found.push(TeamWriteScopeConflict {
                        task_id: task.task_id.clone(),
                        conflicting_task_id: other.task_id.clone(),
                        scope: scope.clone(),
                    });
                }
            }
        }
        found
    }
}

impl TeamState for Roster {
    fn replay(_: &str, events: &Vec<SequencedEvent>) -> Result<Self, ErrorEnvelope> {
        let mut state = Roster::default();
        for record in events {
            let (next, applied) = state.apply(record.seq, &record.event);
            applied?;
            state = next;
        }
        Ok(state)
    }

    fn validate_member(&self, member: &TeamMember) -> Result<(), ErrorEnvelope> {
        if self.members.contains(member) {
            Err(refused(ErrorCode::ToolArgsInvalid))
        } else {
            Ok(())
        }
    }

    fn validate_message(&self, message: &TeamMessage) -> Result<bool, ErrorEnvelope> {
        Ok(!self.messages.iter().any(|(held, _)| held.message_id == message.message_id))
    }

    fn next_message(&self, member_id: &str) -> Option<TeamMessage> {
        self.messages
            .iter()
            .find(|(message, delivered)| !delivered && message.to_member_id == member_id)
            .map(|(message, _)| message.clone())
    }

    fn validate_new_task(
        &self,
        task: &TeamTask,
    ) -> Result<Vec<TeamWriteScopeConflict>, ErrorEnvelope> {
        Ok(self.overlaps(task))
    }

    fn validate_task_update(
        &self,
        expected_revision: u64,
        task: &TeamTask,
    ) -> Result<Vec<TeamWriteScopeConflict>, ErrorEnvelope> {
        let held = self.task(&task.task_id).ok_or(refused(ErrorCode::ToolArgsInvalid))?;
        if held.revision != expected_revision {
            return Err(refused(ErrorCode::TeamRevisionConflict));
        }
        if task.blocked_by.iter().any(|next| self.waits_for(next, &task.task_id)) {
            return Err(refused(ErrorCode::TeamDependencyCycle));
        }
        Ok(self.overlaps(task))
    }

    fn apply(&self, _: u64, event: &Event) -> (Self, Result<(), ErrorEnvelope>) {
        let mut next = self.clone();
        match event {
            Event::TeamMemberRegistered { member } => next.members.push(member.clone()),
            Event::TeamMessageEnqueued { message } => {
                next.messages.push((message.clone(), false));
            }
            Event::TeamMessageDelivered { message_id, .. } => {
                for (message, delivered) in &mut next.messages {
                    if message.message_id == *message_id {
                        *delivered = true;
                    }
                }
            }
            Event::TeamTaskCreated { task } => next.tasks.push(task.clone()),
            Event::TeamTaskUpdated { task, .. } => {
                for held in &mut next.tasks {
                    if held.task_id == task.task_id {
                        *held = task.clone();
                    }
                }
            }
            Event::TeamWriteScopeConflictDetected { conflict } => {
                next.conflicts.push(conflict.clone());
            }
            _ => {}
        }
        (next, Ok(()))
    }
}

fn names(list: &[&str]) -> Vec<String> {
    list.iter().map(|name| name.to_string()).collect()
}

fn parent_policy() -> SubagentPolicy {
    SubagentPolicy::new(
        3,
        4,
        20,
        20_000,
        names(&["model-a", "model-b"]),
        names(&["read", "write"]),
        names(&["danger"]),
    )
    .unwrap()
}

fn member_policy() -> SubagentPolicy {
    SubagentPolicy::new(
        2,
        2,
        10,
        10_000,
        names(&["model-a"]),
        names(&["read"]),
        names(&["danger"]),
    )
    .unwrap()
}

fn member(id: &str) -> TeamMember {
    TeamMember { member_id: id.into(), parent_id: "root".into() }
}

fn message(id: &str) -> TeamMessage {
    TeamMessage {
        message_id: id.into(),
        from_member_id: "member-a".into(),
        to_member_id: "member-b".into(),
        body: "review the registry".into(),
    }
}

fn task(id: &str, owner: &str, revision: u64, blocked_by: &[&str], scopes: &[&str]) -> TeamTask {
    TeamTask {
        task_id: id.into(),
        owner_member_id: owner.into(),
        revision,
        status: TeamTaskStatus::InProgress,
        blocked_by: names(blocked_by),
        write_scopes: names(scopes),
    }
}

type Coordinator<'a> = TeamCoordinator<'a, MemorySession, Roster>;

fn open(session: &mut MemorySession) -> Coordinator<'_> {
    TeamCoordinator::open(session, "root").ok().unwrap()
}

fn register_pair(coordinator: &mut Coordinator<'_>) {
    let parent = parent_policy();
    let child = member_policy();
    coordinator.register_member(member("member-a"), &parent, &child).unwrap();
    coordinator.register_member(member("member-b"), &parent, &child).unwrap();
}

fn count(session: &MemorySession, pick: fn(&Event) -> bool) -> usize {
    session.records().iter().filter(|record| pick(&record.event)).count()
}

#[test]
fn crash_replay_restores_roster_tasks_and_exactly_once_mailbox() {
    let mut session = MemorySession::new();
    {
        let mut coordinator = open(&mut session);
        register_pair(&mut coordinator);
        assert!(coordinator.enqueue_message(message("msg-1")).unwrap());
        assert!(!coordinator.enqueue_message(message("msg-1")).unwrap());
        assert_eq!(
            coordinator.deliver_next("member-b").unwrap(),
            Some(message("msg-1"))
        );
        coordinator
            .create_task(task("task-a", "member-a", 1, &[], &["crates/tools"]))
            .unwrap();
    }

    let mut coordinator = open(&mut session);
    assert_eq!(coordinator.state().members.len(), 2);
    assert_eq!(coordinator.state().tasks.len(), 1);
    assert_eq!(coordinator.state().messages, vec![(message("msg-1"), true)]);
    assert!(!coordinator.enqueue_message(message("msg-1")).unwrap());
    assert_eq!(coordinator.deliver_next("member-b").unwrap(), None);

    assert_eq!(count(&session, |e| matches!(e, Event::TeamMessageEnqueued { .. })), 1);
    assert_eq!(count(&session, |e| matches!(e, Event::TeamMessageDelivered { .. })), 1);
}

#[test]
fn stale_revision_and_dependency_cycle_fail_without_appending() {
    let mut session = MemorySession::new();
    let mut coordinator = open(&mut session);
    register_pair(&mut coordinator);
    coordinator.create_task(task("task-a", "member-a", 1, &[], &["a"])).unwrap();
    coordinator.create_task(task("task-b", "member-b", 1, &["task-a"], &["b"])).unwrap();
    let before = coordinator.state().task("task-a").unwrap().clone();

    let stale = coordinator
        .update_task(0, task("task-a", "member-a", 1, &[], &["a"]))
        .unwrap_err();
    assert_eq!(stale.code, ErrorCode::TeamRevisionConflict);
    let cycle = coordinator
        .update_task(1, task("task-a", "member-a", 2, &["task-b"], &["a"]))
        .unwrap_err();
    assert_eq!(cycle.code, ErrorCode::TeamDependencyCycle);
    assert_eq!(coordinator.state().task("task-a"), Some(&before));
    assert_eq!(session.records().len(), 4);
}

#[test]
fn overlapping_write_scopes_emit_auditable_warning_without_locking() {
    let mut session = MemorySession::new();
    let mut coordinator = open(&mut session);
    register_pair(&mut coordinator);
    coordinator.create_task(task("task-a", "member-a", 1, &[], &["crates/tools"])).unwrap();
    let conflicts = coordinator
        .create_task(task("task-b", "member-b", 1, &[], &["crates/tools/src"]))
        .unwrap();
    assert_eq!(conflicts.len(), 1);
    assert_eq!(conflicts[0].scope, "crates/tools/src");
    assert_eq!(coordinator.state().conflicts, conflicts);
    assert_eq!(
        count(&session, |e| matches!(e, Event::TeamWriteScopeConflictDetected { .. })),
        1
    );
}

#[test]
fn expanded_member_policy_is_rejected_before_roster_mutation() {
    let mut session = MemorySession::new();
    let mut coordinator = open(&mut session);
    let parent = member_policy();
    let expanded = parent_policy();
    let error = coordinator
        .register_member(member("member-a"), &parent, &expanded)
        .unwrap_err();
    assert_eq!(error.code, ErrorCode::SandboxDenied);
    assert_eq!(coordinator.state().members.len(), 0);
    assert!(session.records().is_empty());
}

#[test]
fn task_and_conflict_events_form_one_atomic_contiguous_batch() {
    let mut session = MemorySession::new();
    {
        let mut coordinator = open(&mut session);
        register_pair(&mut coordinator);
        let conflicts = coordinator
            .create_task(task("task-x", "member-a", 1, &[], &["crates/session"]))
            .unwrap();
        assert_eq!(conflicts.len(), 0);
        let conflicts = coordinator
            .create_task(task("task-y", "member-b", 1, &[], &["crates/session/src"]))
            .unwrap();
        assert_eq!(conflicts.len(), 1);
        assert_eq!(coordinator.state().conflicts.len(), 1);
    }
    for (index, record) in session.records().iter().enumerate() {
        assert_eq!(record.seq, index as u64);
    }
    let kinds: Vec<&str> = session
        .records()
        .iter()
        .map(|record| match &record.event {
            Event::TeamTaskCreated { .. } => "created",
            Event::TeamWriteScopeConflictDetected { .. } => "conflict",
            _ => "other",
        })
        .collect();
    assert_eq!(kinds[kinds.len() - 2..], ["created", "conflict"]);
    let reopened = open(&mut session);
    assert_eq!(reopened.state().conflicts.len(), 1);
}

#[test]
fn a_task_that_is_refused_leaves_no_record() {
    let mut session = MemorySession::new();
    let mut coordinator = open(&mut session);
    register_pair(&mut coordinator);
    coordinator
        .create_task(task("task-x", "member-a", 1, &[], &["crates/session"]))
        .unwrap();
    assert!(coordinator
        .update_task(7, task("task-x", "member-a", 8, &[], &["crates/session"]))
        .is_err());
    assert_eq!(coordinator.deliver_next("member-a").unwrap(), None);
    assert_eq!(session.records().len(), 3);
}

/// A log that takes so many records and no more.
struct Room(std::cell::Cell<usize>);

impl EventLog for Room {
    fn write(&self, records: &Vec<SequencedEvent>) -> Result<(), String> {
        match self.0.get().checked_sub(records.len()) {
            Some(left) => {
                self.0.set(left);
                Ok(())
            }
            None => Err("disk full".into()),
        }
    }
}

#[test]
fn a_task_is_not_recorded_without_its_conflicts() {
    let log = Room(std::cell::Cell::new(4));
    let mut session = LoggedSession::open(log, vec![]).ok().unwrap();
    {
        let mut coordinator: TeamCoordinator<'_, LoggedSession<Room>, Roster> =
            TeamCoordinator::open(&mut session, "root").ok().unwrap();
        let parent = parent_policy();
        let child = member_policy();
        coordinator.register_member(member("member-a"), &parent, &child).unwrap();
        coordinator.register_member(member("member-b"), &parent, &child).unwrap();
        coordinator
            .create_task(task("task-x", "member-a", 1, &[], &["crates/session"]))
            .unwrap();
        let refused = coordinator
            .create_task(task("task-y", "member-b", 1, &[], &["crates/session/src"]))
            .unwrap_err();
        assert_eq!(refused.code, ErrorCode::Internal);
        assert_eq!(refused.message, "failed to append team event: disk full");
        assert_eq!(coordinator.state().tasks.len(), 1);
        assert!(coordinator.state().conflicts.is_empty());
        coordinator
            .create_task(task("task-z", "member-b", 1, &[], &["crates/protocol"]))
            .unwrap();
    }
    assert_eq!(session.len(), 4);
}
