//! The event stream of a session: where events go, and what a stream must look
//! like whatever wrote it.
use vstd::prelude::*;
use crate::protocol::{Event, SequencedEvent};
use crate::text::{concat2, decimal, decimal_of};

verus! {

broadcast use vstd::string::group_string_axioms;

/// The events of a list of records.
pub open spec fn recorded(records: Seq<SequencedEvent>) -> Seq<Event> {
    records.map_values(|r: SequencedEvent| r.event)
}

/// Record `i` carries the number `i`.
pub open spec fn numbered(records: Seq<SequencedEvent>) -> bool {
    forall|i: int| 0 <= i < records.len() ==> (#[trigger] records[i]).seq == i
}

/// An event that was handed to a store. `refused` is why the store did not take it.
pub struct Handed {
    pub event: Event,
    pub refused: Option<Seq<char>>,
}

/// An event that a store took.
pub open spec fn took(event: Event) -> Handed {
    Handed { event, refused: None }
}

/// Events that were handed to a store together, with its one answer to them.
pub open spec fn answered(events: Seq<Event>, refused: Option<Seq<char>>) -> Seq<Handed> {
    events.map_values(|e: Event| Handed { event: e, refused })
}

/// The events that a store took of those that were handed to it.
pub open spec fn taken(handed: Seq<Handed>) -> Seq<Event>
    decreases handed.len(),
{
    if handed.len() == 0 {
        Seq::empty()
    } else {
        let before = taken(handed.drop_last());
        if handed.last().refused is None {
            before.push(handed.last().event)
        } else {
            before
        }
    }
}

/// The events that were handed to a store, whether it took them or not.
pub open spec fn offered(handed: Seq<Handed>) -> Seq<Event> {
    handed.map_values(|h: Handed| h.event)
}

/// A store took everything that was handed to it.
pub open spec fn all_taken(handed: Seq<Handed>) -> bool {
    forall|i: int| 0 <= i < handed.len() ==> (#[trigger] handed[i]).refused is None
}

/// A store took everything but perhaps the last of what was handed to it.
pub open spec fn taken_so_far(handed: Seq<Handed>) -> bool {
    forall|i: int| 0 <= i < handed.len() - 1 ==> (#[trigger] handed[i]).refused is None
}

/// Why a store did not take the last of what was handed to it.
pub open spec fn last_refusal(handed: Seq<Handed>) -> Option<Seq<char>> {
    if handed.len() == 0 {
        None
    } else {
        handed.last().refused
    }
}

/// An append-only store of events. An implementation may fail to append; then
/// the stream is as it was.
pub trait SessionStore {
    /// Everything that was handed to the store so far, oldest first, with what the store
    /// answered.
    spec fn handed(&self) -> Seq<Handed>;

    /// The store takes its next event.
    spec fn accepts_next(&self) -> bool;

    /// Adds an event at the end and gives its number.
    fn append(&mut self, event: Event) -> (r: Result<u64, String>)
        ensures
            old(self).accepts_next() ==> r is Ok,
            match r {
                Ok(seq) => {
                    &&& seq == taken(old(self).handed()).len()
                    &&& final(self).handed() == old(self).handed().push(took(event))
                    &&& taken(final(self).handed()) == taken(old(self).handed()).push(event)
                },
                Err(e) => {
                    &&& final(self).handed() == old(self).handed().push(
                        Handed { event, refused: Some(e@) },
                    )
                    &&& taken(final(self).handed()) == taken(old(self).handed())
                },
            },
            all_taken(final(self).handed()) <==> all_taken(old(self).handed()) && r is Ok,
    ;

    /// Adds events at the end, all of them or none, and gives the number of the first.
    fn append_all(&mut self, events: Vec<Event>) -> (r: Result<u64, String>)
        ensures
            old(self).accepts_next() || events@.len() == 0 ==> r is Ok,
            match r {
                Ok(seq) => {
                    &&& seq == taken(old(self).handed()).len()
                    &&& final(self).handed() == old(self).handed() + answered(events@, None)
                    &&& taken(final(self).handed()) == taken(old(self).handed()) + events@
                },
                Err(e) => {
                    &&& final(self).handed() == old(self).handed() + answered(events@, Some(e@))
                    &&& taken(final(self).handed()) == taken(old(self).handed())
                },
            },
            all_taken(final(self).handed()) <==> all_taken(old(self).handed()) && r is Ok,
    ;

    /// The number of events.
    fn len(&self) -> (r: u64)
        ensures
            r == taken(self.handed()).len(),
    ;

    /// The newest event with its number.
    fn last_record(&self) -> (r: Option<&SequencedEvent>)
        ensures
            taken(self.handed()).len() > 0 ==> r is Some,
            r matches Some(record) ==> {
                let events = taken(self.handed());
                &&& events.len() > 0
                &&& record.event == events.last()
                &&& record.seq == events.len() - 1
            },
    ;

    /// All events with their numbers. A store gives back whatever it took.
    fn replay_events(&self) -> (r: Result<&Vec<SequencedEvent>, String>)
        ensures
            r matches Ok(records) && recorded(records@) == taken(self.handed()) && numbered(
                records@,
            ),
    ;
}

/// What a store holds.
pub trait StoredEvents {
    /// The events that the store holds, oldest first.
    spec fn events(&self) -> Seq<Event>;

    /// Every event that was handed to the store so far was taken.
    spec fn intact(&self) -> bool;
}

impl<S: SessionStore> StoredEvents for S {
    open spec fn events(&self) -> Seq<Event> {
        taken(self.handed())
    }

    open spec fn intact(&self) -> bool {
        all_taken(self.handed())
    }
}

/// The events of a list, each of them taken.
spec fn all_of(events: Seq<Event>) -> Seq<Handed> {
    events.map_values(|e: Event| took(e))
}

proof fn lemma_all_of(events: Seq<Event>)
    ensures
        taken(all_of(events)) == events,
        all_taken(all_of(events)),
    decreases events.len(),
{
    if events.len() > 0 {
        lemma_all_of(events.drop_last());
        assert(all_of(events).drop_last() =~= all_of(events.drop_last()));
    }
    assert(taken(all_of(events)) =~= events);
}

/// One more event that was handed to a store.
pub proof fn lemma_handed(handed: Seq<Handed>, next: Handed)
    ensures
        taken(handed.push(next)) == (if next.refused is None {
            taken(handed).push(next.event)
        } else {
            taken(handed)
        }),
        all_taken(handed.push(next)) <==> all_taken(handed) && next.refused is None,
{
    let more = handed.push(next);
    assert(more.drop_last() =~= handed);
    if all_taken(more) {
        assert forall|i: int| 0 <= i < handed.len() implies (#[trigger] handed[i]).refused is None by {
            assert(more[i] == handed[i]);
        }
        assert(more[handed.len() as int] == next);
    }
}

/// Events that were handed to a store together.
pub proof fn lemma_answered(handed: Seq<Handed>, events: Seq<Event>, refused: Option<Seq<char>>)
    ensures
        taken(handed + answered(events, refused)) == (if refused is None {
            taken(handed) + events
        } else {
            taken(handed)
        }),
        all_taken(handed + answered(events, refused)) <==> all_taken(handed) && (refused is None
            || events.len() == 0),
    decreases events.len(),
{
    let all = handed + answered(events, refused);
    if events.len() == 0 {
        assert(all =~= handed);
        assert(taken(handed) + events =~= taken(handed));
    } else {
        let fewer = events.drop_last();
        let last = Handed { event: events.last(), refused };
        lemma_answered(handed, fewer, refused);
        assert(all =~= (handed + answered(fewer, refused)).push(last));
        lemma_handed(handed + answered(fewer, refused), last);
        assert((taken(handed) + fewer).push(events.last()) =~= taken(handed) + events);
        assert(all[handed.len() as int] == answered(events, refused)[0]);
        if all_taken(all) {
            assert(all[handed.len() as int].refused is None);
        }
    }
}

/// One more event that was handed to a store after some that it took.
pub proof fn lemma_next_handed(start: Seq<Handed>, log: Seq<Handed>, next: Handed)
    requires
        extends(start, log),
        all_taken(added(start, log)),
    ensures
        extends(start, log.push(next)),
        added(start, log.push(next)) == added(start, log).push(next),
        taken_so_far(added(start, log.push(next))),
        all_taken(added(start, log.push(next))) <==> next.refused is None,
        last_refusal(added(start, log.push(next))) == next.refused,
{
    lemma_extends_push(start, log, next);
    let before = added(start, log);
    let after = before.push(next);
    assert forall|i: int| 0 <= i < after.len() - 1 implies (#[trigger] after[i]).refused is None by {
        assert(after[i] == before[i]);
    }
    assert(after[before.len() as int] == next);
}

/// A store holds everything that was handed to it where it took everything.
pub proof fn lemma_taken_of(handed: Seq<Handed>)
    requires
        all_taken(handed),
    ensures
        taken(handed) == offered(handed),
    decreases handed.len(),
{
    if handed.len() > 0 {
        let before = handed.drop_last();
        assert forall|i: int| 0 <= i < before.len() implies (#[trigger] before[i]).refused is None by {
            assert(before[i] == handed[i]);
        }
        lemma_taken_of(before);
        assert(handed[handed.len() - 1].refused is None);
    }
    assert(taken(handed) =~= offered(handed));
}

/// What a store holds grows with what is handed to it.
pub proof fn lemma_taken_extends(before: Seq<Handed>, after: Seq<Handed>)
    requires
        extends(before, after),
    ensures
        extends(taken(before), taken(after)),
        added(taken(before), taken(after)) == taken(added(before, after)),
    decreases after.len(),
{
    let more = added(before, after);
    if more.len() == 0 {
        assert(after =~= before);
        lemma_extends_refl(taken(before));
        assert(added(taken(before), taken(after)) =~= taken(more));
    } else {
        let earlier = after.drop_last();
        assert(earlier.subrange(0, before.len() as int) =~= after.subrange(0, before.len() as int));
        lemma_taken_extends(before, earlier);
        assert(more.drop_last() =~= added(before, earlier));
        assert(more.last() == after.last());
        if after.last().refused is None {
            lemma_extends_push(taken(before), taken(earlier), after.last().event);
        }
    }
}

/// Adds events to records, each with its number.
fn number_all(records: &mut Vec<SequencedEvent>, events: Vec<Event>)
    requires
        numbered(old(records)@),
    ensures
        numbered(final(records)@),
        recorded(final(records)@) == recorded(old(records)@) + events@,
        extends(old(records)@, final(records)@),
{
    let ghost before = recorded(records@);
    let ghost all = events@;
    let mut rest = events;
    let ghost mut done: int = 0;
    assert(before + all.take(0) =~= before);
    proof {
        lemma_extends_refl(records@);
    }
    while rest.len() > 0
        invariant
            numbered(records@),
            0 <= done <= all.len(),
            rest@ == all.subrange(done, all.len() as int),
            recorded(records@) == before + all.take(done),
            extends(old(records)@, records@),
        decreases rest@.len(),
    {
        let ghost earlier = records@;
        let event = rest.remove(0);
        let seq: u64 = records.len() as u64;
        records.push(SequencedEvent { seq, event });
        proof {
            assert(event == all[done]);
            assert(recorded(records@) =~= recorded(earlier).push(event));
            assert((before + all.take(done)).push(event) =~= before + all.take(done + 1));
            assert(rest@ =~= all.subrange(done + 1, all.len() as int));
            lemma_extends_push(old(records)@, earlier, records@.last());
            done = done + 1;
        }
    }
    assert(all.take(done) =~= all);
}

/// A store that keeps its events in memory.
#[derive(Debug)]
pub struct MemorySession {
    records: Vec<SequencedEvent>,
}

impl MemorySession {
    #[verifier::type_invariant]
    spec fn well_formed(&self) -> bool {
        numbered(self.records@)
    }

    pub fn new() -> (r: MemorySession)
        ensures
            r.handed() == Seq::<Handed>::empty(),
            r.events() == Seq::<Event>::empty(),
            r.intact(),
            r.accepts_next(),
    {
        let r = MemorySession { records: Vec::new() };
        assert(all_of(recorded(r.records@)) =~= Seq::<Handed>::empty());
        r
    }

    /// All records, oldest first.
    pub fn records(&self) -> (r: &Vec<SequencedEvent>)
        ensures
            recorded(r@) == self.events(),
            numbered(r@),
    {
        proof {
            use_type_invariant(self);
            lemma_all_of(recorded(self.records@));
        }
        &self.records
    }
}

impl SessionStore for MemorySession {
    closed spec fn handed(&self) -> Seq<Handed> {
        all_of(recorded(self.records@))
    }

    open spec fn accepts_next(&self) -> bool {
        true
    }

    fn append(&mut self, event: Event) -> (r: Result<u64, String>) {
        proof {
            use_type_invariant(&*self);
            lemma_all_of(recorded(self.records@));
            lemma_handed(self.handed(), took(event));
        }
        let seq: u64 = self.records.len() as u64;
        let mut records: Vec<SequencedEvent> = Vec::new();
        std::mem::swap(&mut records, &mut self.records);
        let ghost before = records@;
        records.push(SequencedEvent { seq, event });
        assert(recorded(records@) =~= recorded(before).push(event));
        assert(all_of(recorded(records@)) =~= all_of(recorded(before)).push(took(event)));
        self.records = records;
        Ok(seq)
    }

    fn append_all(&mut self, events: Vec<Event>) -> (r: Result<u64, String>) {
        proof {
            use_type_invariant(&*self);
            lemma_all_of(recorded(self.records@));
            lemma_answered(self.handed(), events@, None);
        }
        let seq: u64 = self.records.len() as u64;
        let ghost all = events@;
        let mut records: Vec<SequencedEvent> = Vec::new();
        std::mem::swap(&mut records, &mut self.records);
        let ghost before = recorded(records@);
        number_all(&mut records, events);
        assert(all_of(recorded(records@)) =~= all_of(before) + answered(all, None));
        self.records = records;
        Ok(seq)
    }

    fn len(&self) -> (r: u64) {
        proof {
            lemma_all_of(recorded(self.records@));
        }
        self.records.len() as u64
    }

    fn last_record(&self) -> (r: Option<&SequencedEvent>) {
        proof {
            use_type_invariant(self);
            lemma_all_of(recorded(self.records@));
        }
        let n: usize = self.records.len();
        if n == 0 {
            return None;
        }
        assert(recorded(self.records@).last() == self.records@[n - 1].event);
        Some(&self.records[n - 1])
    }

    fn replay_events(&self) -> (r: Result<&Vec<SequencedEvent>, String>) {
        proof {
            use_type_invariant(self);
            lemma_all_of(recorded(self.records@));
        }
        Ok(&self.records)
    }
}

/// Where the records of a session are written, such as a file.
pub trait EventLog {
    /// Writes records, all of them or none. The error is given as its message.
    fn write(&self, records: &Vec<SequencedEvent>) -> Result<(), String>;
}

/// What became of the events that were handed to a log.
struct Written {
    records: Vec<SequencedEvent>,
    /// A record could not be written.
    failed: bool,
    handed: Ghost<Seq<Handed>>,
}

/// A store whose records are written to a log. An event counts once it is written.
pub struct LoggedSession<L> {
    log: L,
    written: Written,
}

/// Why records are not those of a session: a record does not carry its position.
pub open spec fn gap_error(at: nat) -> Seq<char> {
    "session log has a gap at record "@ + decimal(at)
}

impl<L> LoggedSession<L> {
    #[verifier::type_invariant]
    spec fn well_formed(&self) -> bool {
        &&& numbered(self.written.records@)
        &&& taken(self.written.handed@) == recorded(self.written.records@)
        &&& self.written.failed <==> !all_taken(self.written.handed@)
    }

    /// A session that goes on from the records that its log holds.
    pub fn open(log: L, records: Vec<SequencedEvent>) -> (r: Result<LoggedSession<L>, String>)
        ensures
            match r {
                Ok(session) => {
                    &&& numbered(records@)
                    &&& session.held() == records@
                    &&& session.sink() == log
                    &&& !session.has_failed()
                },
                Err(e) => exists|at: int|
                    {
                        &&& 0 <= at < records@.len()
                        &&& (#[trigger] records@[at]).seq != at
                        &&& forall|i: int| 0 <= i < at ==> (#[trigger] records@[i]).seq == i
                        &&& e@ == gap_error(at as nat)
                    },
            },
    {
        let mut i: usize = 0;
        while i < records.len()
            invariant
                i <= records@.len(),
                forall|k: int| 0 <= k < i ==> (#[trigger] records@[k]).seq == k,
            decreases records@.len() - i,
        {
            if records[i].seq != i as u64 {
                return Err(concat2("session log has a gap at record ", &decimal_of(i as u64)));
            }
            i = i + 1;
        }
        proof {
            lemma_all_of(recorded(records@));
        }
        let ghost handed = all_of(recorded(records@));
        Ok(LoggedSession { log, written: Written { records, failed: false, handed: Ghost(handed) } })
    }

    pub closed spec fn sink(&self) -> L {
        self.log
    }

    pub closed spec fn held(&self) -> Seq<SequencedEvent> {
        self.written.records@
    }

    pub closed spec fn has_failed(&self) -> bool {
        self.written.failed
    }

    pub closed spec fn all_handed(&self) -> Seq<Handed> {
        self.written.handed@
    }

    /// Whether every record so far was written.
    pub fn is_intact(&self) -> (r: bool)
        ensures
            r == !self.has_failed(),
            r == all_taken(self.all_handed()),
    {
        proof {
            use_type_invariant(self);
        }
        !self.written.failed
    }

    /// All records, oldest first.
    pub fn records(&self) -> (r: &Vec<SequencedEvent>)
        ensures
            r@ == self.held(),
            numbered(r@),
            recorded(r@) == taken(self.all_handed()),
    {
        proof {
            use_type_invariant(self);
        }
        &self.written.records
    }
}

/// What a session over a log comes to when events are added: they are written with their
/// numbers, all at once, and the answer of the log is the result.
pub open spec fn log_answer<L: EventLog>(
    before: &LoggedSession<L>,
    after: &LoggedSession<L>,
    events: Seq<Event>,
    r: Result<u64, String>,
) -> bool {
    &&& after.sink() == before.sink()
    &&& exists|records: Vec<SequencedEvent>, written: Result<(), String>|
        {
            &&& recorded(records@) == events
            &&& numbered(before.held()) ==> numbered(before.held() + records@)
            &&& #[trigger] call_ensures(L::write, (&before.sink(), &records), written)
            &&& match written {
                Ok(()) => r is Ok && after.held() == before.held() + records@,
                Err(e) => r == Err::<u64, String>(e) && after.held() == before.held(),
            }
        }
}

impl<L: EventLog> SessionStore for LoggedSession<L> {
    open spec fn handed(&self) -> Seq<Handed> {
        self.all_handed()
    }

    /// The log writes the next records whatever they hold.
    open spec fn accepts_next(&self) -> bool {
        forall|records: Vec<SequencedEvent>, written: Result<(), String>| #[trigger]
            call_ensures(L::write, (&self.sink(), &records), written) ==> written is Ok
    }

    fn append(&mut self, event: Event) -> (r: Result<u64, String>)
        ensures
            log_answer(old(self), final(self), seq![event], r),
    {
        let mut events: Vec<Event> = Vec::new();
        events.push(event);
        let ghost before = self.handed();
        let r = self.append_all(events);
        proof {
            assert(events@ =~= seq![event]);
            assert(before + answered(events@, None) =~= before.push(took(event)));
            assert(taken(before) + events@ =~= taken(before).push(event));
            if r is Err {
                let why = Some(r->Err_0@);
                assert(before + answered(events@, why) =~= before.push(
                    Handed { event, refused: why },
                ));
            }
        }
        r
    }

    fn append_all(&mut self, events: Vec<Event>) -> (r: Result<u64, String>)
        ensures
            events@.len() > 0 ==> log_answer(old(self), final(self), events@, r),
            events@.len() == 0 ==> final(self).held() == old(self).held() && final(self).sink()
                == old(self).sink(),
    {
        proof {
            use_type_invariant(&*self);
            lemma_answered(self.handed(), events@, None);
        }
        let seq: u64 = self.written.records.len() as u64;
        if events.len() == 0 {
            assert(self.handed() + answered(events@, None) =~= self.handed());
            return Ok(seq);
        }
        let ghost given = events@;
        let mut kept = Written { records: Vec::new(), failed: false, handed: Ghost(Seq::empty()) };
        assert(recorded(kept.records@) =~= Seq::<Event>::empty());
        std::mem::swap(&mut kept, &mut self.written);
        let Written { records, failed, handed } = kept;
        let ghost all = handed@;
        let ghost before = records@;
        let mut records = records;
        let written: usize = records.len();
        number_all(&mut records, events);
        let ghost whole = records@;
        assert(whole.len() == recorded(whole).len());
        let mut batch = records.split_off(written);
        let ghost more = batch@;
        proof {
            assert forall|i: int| 0 <= i < more.len() implies more[i].event == given[i] by {
                assert(more[i] == whole[before.len() + i]);
                assert(recorded(whole)[before.len() + i] == given[i]);
            }
            assert(recorded(more) =~= given);
            assert(records@ + more =~= whole);
            assert(records@ =~= before);
        }
        let answer = self.log.write(&batch);
        assert(call_ensures(L::write, (&old(self).sink(), &batch), answer));
        assert(recorded(batch@) == given && numbered(before + batch@));
        match answer {
            Ok(()) => {
                records.append(&mut batch);
                assert(recorded(before + more) =~= recorded(before) + recorded(more));
                self.written = Written {
                    records,
                    failed,
                    handed: Ghost(all + answered(given, None)),
                };
                Ok(seq)
            },
            Err(e) => {
                proof {
                    lemma_answered(all, given, Some(e@));
                }
                self.written = Written {
                    records,
                    failed: true,
                    handed: Ghost(all + answered(given, Some(e@))),
                };
                Err(e)
            },
        }
    }

    fn len(&self) -> (r: u64) {
        proof {
            use_type_invariant(self);
        }
        self.written.records.len() as u64
    }

    fn last_record(&self) -> (r: Option<&SequencedEvent>) {
        proof {
            use_type_invariant(self);
        }
        let n: usize = self.written.records.len();
        if n == 0 {
            return None;
        }
        assert(recorded(self.written.records@).last() == self.written.records@[n - 1].event);
        Some(&self.written.records[n - 1])
    }

    fn replay_events(&self) -> (r: Result<&Vec<SequencedEvent>, String>) {
        proof {
            use_type_invariant(self);
        }
        Ok(&self.written.records)
    }
}

// ---------------------------------------------------------------------------
// What holds of a stream
// ---------------------------------------------------------------------------

/// `new` is `old` with events added at the end.
pub open spec fn extends<A>(old: Seq<A>, new: Seq<A>) -> bool {
    old.len() <= new.len() && new.subrange(0, old.len() as int) == old
}

/// The events that `new` has beyond `old`.
pub open spec fn added<A>(old: Seq<A>, new: Seq<A>) -> Seq<A> {
    new.subrange(old.len() as int, new.len() as int)
}

/// A tool call or the result of one.
pub open spec fn is_call_event(e: Event) -> bool {
    e is ToolCallRequested || e is ToolResultAdded
}

/// The beginning or the end of a turn.
pub open spec fn is_turn_event(e: Event) -> bool {
    e is TurnStarted || e is TurnCompleted || e is TurnAborted
}

/// The calls that wait for their result after one more event, or nothing once a
/// result came that no open call waits for.
pub open spec fn call_step(open: Option<Seq<Seq<char>>>, e: Event) -> Option<Seq<Seq<char>>> {
    match open {
        None => None,
        Some(calls) => match e {
            Event::ToolCallRequested { call_id, .. } => Some(calls.push(call_id@)),
            Event::ToolResultAdded { call_id, .. } => if calls.len() > 0 && calls.last()
                == call_id@ {
                Some(calls.drop_last())
            } else {
                None
            },
            _ => Some(calls),
        },
    }
}

/// The calls of a stream that still wait for their result, innermost last. Calls
/// nest; `None` when some result did not answer the innermost open call.
pub open spec fn open_calls(log: Seq<Event>) -> Option<Seq<Seq<char>>>
    decreases log.len(),
{
    if log.len() == 0 {
        Some(Seq::empty())
    } else {
        call_step(open_calls(log.drop_last()), log.last())
    }
}

/// Every call has its result, and every result its call.
pub open spec fn calls_paired(log: Seq<Event>) -> bool {
    open_calls(log) == Some(Seq::<Seq<char>>::empty())
}

/// Where a stream stands with its turns.
pub enum TurnState {
    Idle,
    Active(u64),
    Broken,
}

pub open spec fn turn_step(state: TurnState, e: Event) -> TurnState {
    match e {
        Event::TurnStarted { turn_id } => if state is Idle {
            TurnState::Active(turn_id)
        } else {
            TurnState::Broken
        },
        Event::TurnCompleted { turn_id } => if state == TurnState::Active(turn_id) {
            TurnState::Idle
        } else {
            TurnState::Broken
        },
        Event::TurnAborted { turn_id, .. } => if state == TurnState::Active(turn_id) {
            TurnState::Idle
        } else {
            TurnState::Broken
        },
        _ => state,
    }
}

/// The turn that is open at the end of a stream; broken once a turn began inside
/// another, or ended without having begun.
pub open spec fn turn_state(log: Seq<Event>) -> TurnState
    decreases log.len(),
{
    if log.len() == 0 {
        TurnState::Idle
    } else {
        turn_step(turn_state(log.drop_last()), log.last())
    }
}

/// Going from `before` to `after` opened and closed whole calls only: what waited
/// for a result before waits still, and nothing else does.
pub open spec fn calls_kept(before: Seq<Event>, after: Seq<Event>) -> bool {
    open_calls(before) is Some ==> open_calls(after) == open_calls(before)
}

/// Going from `before` to `after` began and ended no turn.
pub open spec fn turns_kept(before: Seq<Event>, after: Seq<Event>) -> bool {
    turn_state(after) == turn_state(before)
}

/// Everything that `after` has beyond `before` is a tool call or a result.
pub open spec fn adds_only_calls(before: Seq<Event>, after: Seq<Event>) -> bool {
    forall|i: int| before.len() <= i < after.len() ==> is_call_event(#[trigger] after[i])
}

/// What every step inside a turn does to a stream.
pub open spec fn kept(before: Seq<Event>, after: Seq<Event>) -> bool {
    extends(before, after) && turns_kept(before, after)
}

pub proof fn lemma_kept_push(start: Seq<Event>, log: Seq<Event>, e: Event)
    requires
        kept(start, log),
        !is_turn_event(e),
    ensures
        kept(start, log.push(e)),
        added(start, log.push(e)) == added(start, log).push(e),
        open_calls(log.push(e)) == call_step(open_calls(log), e),
        calls_kept(start, log) && !is_call_event(e) ==> calls_kept(start, log.push(e)),
{
    lemma_open_calls_push(log, e);
    lemma_extends_push(start, log, e);
}

pub proof fn lemma_kept_trans(a: Seq<Event>, b: Seq<Event>, c: Seq<Event>)
    requires
        kept(a, b),
        kept(b, c),
    ensures
        kept(a, c),
        added(a, c) == added(a, b) + added(b, c),
        calls_kept(a, b) && calls_kept(b, c) ==> calls_kept(a, c),
{
    lemma_extends_trans(a, b, c);
}

/// A call that is requested and then answered leaves the open calls as they were.
pub proof fn lemma_pair_kept(log: Seq<Event>, request: Event, middle: Seq<Event>, answer: Event)
    requires
        request is ToolCallRequested,
        answer is ToolResultAdded,
        request->ToolCallRequested_call_id@ == answer->ToolResultAdded_call_id@,
        calls_kept(log.push(request), middle),
    ensures
        calls_kept(log, middle.push(answer)),
{
    lemma_open_calls_push(log, request);
    lemma_open_calls_push(middle, answer);
    if open_calls(log) is Some {
        let calls = open_calls(log)->0;
        assert(calls.push(request->ToolCallRequested_call_id@).drop_last() =~= calls);
    }
}

pub proof fn lemma_open_calls_push(log: Seq<Event>, e: Event)
    ensures
        open_calls(log.push(e)) == call_step(open_calls(log), e),
        turn_state(log.push(e)) == turn_step(turn_state(log), e),
{
    assert(log.push(e).drop_last() =~= log);
}

pub proof fn lemma_extends_push<A>(start: Seq<A>, log: Seq<A>, e: A)
    requires
        extends(start, log),
    ensures
        extends(start, log.push(e)),
        added(start, log.push(e)) == added(start, log).push(e),
{
    assert(log.push(e).subrange(0, start.len() as int) =~= log.subrange(0, start.len() as int));
    assert(added(start, log.push(e)) =~= added(start, log).push(e));
}

pub proof fn lemma_extends_refl<A>(log: Seq<A>)
    ensures
        extends(log, log),
        added(log, log) == Seq::<A>::empty(),
{
    assert(log.subrange(0, log.len() as int) =~= log);
    assert(added(log, log) =~= Seq::<A>::empty());
}

pub proof fn lemma_extends_trans<A>(a: Seq<A>, b: Seq<A>, c: Seq<A>)
    requires
        extends(a, b),
        extends(b, c),
    ensures
        extends(a, c),
        added(a, c) == added(a, b) + added(b, c),
{
    assert(c.subrange(0, a.len() as int) =~= c.subrange(0, b.len() as int).subrange(
        0,
        a.len() as int,
    ));
    assert(added(a, c) =~= added(a, b) + added(b, c)) by {
        assert(c.subrange(0, b.len() as int) =~= b);
        assert forall|i: int| 0 <= i < b.len() - a.len() implies added(a, c)[i] == added(a, b)[i] by {
            assert(c.subrange(0, b.len() as int)[i + a.len()] == c[i + a.len()]);
        }
    }
}

/// What is on record is what was taken, in its order; what was refused is not.
pub proof fn what_is_on_record(handed: Seq<Handed>, e: Event, detail: Seq<char>)
    ensures
        taken(Seq::empty()).len() == 0,
        taken(handed.push(Handed { event: e, refused: None })) == taken(handed).push(e),
        taken(handed.push(Handed { event: e, refused: Some(detail) })) == taken(handed),
        last_refusal(handed.push(Handed { event: e, refused: Some(detail) })) == Some(detail),
        last_refusal(handed.push(Handed { event: e, refused: None })) is None,
{
    assert(handed.push(Handed { event: e, refused: None }).drop_last() =~= handed);
    assert(handed.push(Handed { event: e, refused: Some(detail) }).drop_last() =~= handed);
}

/// A turn is open from its start until it is completed or aborted; anything out of that order
/// breaks the log for good.
pub proof fn when_a_turn_is_open(log: Seq<Event>, turn: u64, other: u64, reason: String, e: Event)
    ensures
        turn_state(Seq::empty()) is Idle,
        turn_state(log) is Idle ==> turn_state(log.push(Event::TurnStarted { turn_id: turn }))
            == TurnState::Active(turn),
        !(turn_state(log) is Idle) ==> turn_state(log.push(Event::TurnStarted { turn_id: turn }))
            is Broken,
        turn_state(log) == TurnState::Active(turn) ==> {
            &&& turn_state(log.push(Event::TurnCompleted { turn_id: turn })) is Idle
            &&& turn_state(log.push(Event::TurnAborted { turn_id: turn, reason })) is Idle
            &&& other != turn ==> turn_state(log.push(Event::TurnCompleted { turn_id: other }))
                is Broken
            &&& other != turn ==> turn_state(
                log.push(Event::TurnAborted { turn_id: other, reason }),
            ) is Broken
        },
        !(e is TurnStarted) && !(e is TurnCompleted) && !(e is TurnAborted) ==> turn_state(
            log.push(e),
        ) == turn_state(log),
{
    assert(log.push(Event::TurnStarted { turn_id: turn }).drop_last() =~= log);
    assert(log.push(Event::TurnCompleted { turn_id: turn }).drop_last() =~= log);
    assert(log.push(Event::TurnAborted { turn_id: turn, reason }).drop_last() =~= log);
    assert(log.push(Event::TurnCompleted { turn_id: other }).drop_last() =~= log);
    assert(log.push(Event::TurnAborted { turn_id: other, reason }).drop_last() =~= log);
    assert(log.push(e).drop_last() =~= log);
}

/// A call is open from its request until its result; results answer the latest open call.
pub proof fn when_a_call_is_open(log: Seq<Event>, e: Event, calls: Seq<Seq<char>>)
    requires
        open_calls(log) == Some(calls),
    ensures
        open_calls(Seq::empty()) == Some(Seq::<Seq<char>>::empty()),
        e is ToolCallRequested ==> open_calls(log.push(e)) == Some(
            calls.push(e->ToolCallRequested_call_id@),
        ),
        e is ToolResultAdded && calls.len() > 0 && calls.last() == e->ToolResultAdded_call_id@
            ==> open_calls(log.push(e)) == Some(calls.drop_last()),
        e is ToolResultAdded && (calls.len() == 0 || calls.last() != e->ToolResultAdded_call_id@)
            ==> open_calls(log.push(e)) is None,
        !(e is ToolCallRequested) && !(e is ToolResultAdded) ==> open_calls(log.push(e)) == Some(
            calls,
        ),
{
    assert(log.push(e).drop_last() =~= log);
}

/// What a log took is held behind what was held before; what it did not take is not held.
pub proof fn what_a_log_holds<L: EventLog>(
    before: &LoggedSession<L>,
    after: &LoggedSession<L>,
    events: Seq<Event>,
    r: Result<u64, String>,
    i: int,
)
    requires
        log_answer(before, after, events, r),
    ensures
        r is Ok ==> after.held().len() == before.held().len() + events.len(),
        r is Ok && 0 <= i < before.held().len() ==> after.held()[i] == before.held()[i],
        r is Ok && 0 <= i < events.len() ==> after.held()[before.held().len() + i].event
            == events[i],
        r is Ok && numbered(before.held()) ==> numbered(after.held()),
        r is Err ==> after.held() == before.held(),
{
    let (records, written) = choose|records: Vec<SequencedEvent>, written: Result<(), String>|
        {
            &&& recorded(records@) == events
            &&& numbered(before.held()) ==> numbered(before.held() + records@)
            &&& #[trigger] call_ensures(L::write, (&before.sink(), &records), written)
            &&& match written {
                Ok(()) => r is Ok && after.held() == before.held() + records@,
                Err(e) => r == Err::<u64, String>(e) && after.held() == before.held(),
            }
        };
    assert(recorded(records@).len() == records@.len());
    if 0 <= i < events.len() {
        assert(recorded(records@)[i] == records@[i].event);
    }
}

/// A log that extends another one begins with it, and what was added stands behind it.
pub proof fn a_log_begins_with_what_it_extends<A>(old: Seq<A>, new: Seq<A>, i: int)
    requires
        extends(old, new),
    ensures
        old.len() <= new.len(),
        0 <= i < old.len() ==> new[i] == old[i],
        added(old, new).len() == new.len() - old.len(),
        0 <= i < new.len() - old.len() ==> added(old, new)[i] == new[old.len() + i],
        new == old + added(old, new),
{
    if 0 <= i < old.len() {
        assert(new.subrange(0, old.len() as int)[i] == new[i]);
    }
    assert(new =~= old + added(old, new)) by {
        assert forall|k: int| 0 <= k < old.len() implies new[k] == old[k] by {
            assert(new.subrange(0, old.len() as int)[k] == new[k]);
        }
    }
}

/// Calls are kept where those that were open are open still, and turns where the one that was
/// open is.
pub proof fn what_is_kept_of_a_log(before: Seq<Event>, after: Seq<Event>, i: int)
    ensures
        calls_kept(before, after) && open_calls(before) is Some ==> open_calls(after) == open_calls(
            before,
        ),
        turns_kept(before, after) ==> turn_state(after) == turn_state(before),
        kept(before, after) ==> extends(before, after) && turns_kept(before, after),
        adds_only_calls(before, after) && before.len() <= i < after.len() ==> after[i]
            is ToolCallRequested || after[i] is ToolResultAdded,
        calls_paired(before) <==> open_calls(before) == Some(Seq::<Seq<char>>::empty()),
{
    if adds_only_calls(before, after) && before.len() <= i < after.len() {
        assert(is_call_event(after[i]));
    }
}

/// Records hold their events in order, each under its place where they are numbered.
pub proof fn what_records_hold(records: Seq<SequencedEvent>, i: int)
    ensures
        recorded(records).len() == records.len(),
        0 <= i < records.len() ==> recorded(records)[i] == records[i].event,
        numbered(records) && 0 <= i < records.len() ==> records[i].seq == i,
{
}

} // verus!
