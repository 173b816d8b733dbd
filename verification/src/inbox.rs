//! The inbox of a loop: messages wake it, reports wait for a turn boundary.
use vstd::prelude::*;
use crate::text::views;

verus! {

#[derive(Debug, PartialEq, Eq)]
pub struct Inbox {
    messages: Vec<String>,
    boundary_reports: Vec<String>,
}

pub struct InboxView {
    pub messages: Seq<Seq<char>>,
    /// Reports of subagents, which come out with the next drain only.
    pub reports: Seq<Seq<char>>,
}

impl View for Inbox {
    type V = InboxView;

    closed spec fn view(&self) -> InboxView {
        InboxView { messages: views(self.messages@), reports: views(self.boundary_reports@) }
    }
}

pub open spec fn empty_inbox() -> InboxView {
    InboxView { messages: Seq::empty(), reports: Seq::empty() }
}

impl Default for Inbox {
    fn default() -> (r: Inbox)
        ensures
            r@ == empty_inbox(),
    {
        Inbox::new()
    }
}

impl Inbox {
    pub fn new() -> (r: Inbox)
        ensures
            r@ == empty_inbox(),
    {
        let r = Inbox { messages: Vec::new(), boundary_reports: Vec::new() };
        assert(r@.messages =~= Seq::<Seq<char>>::empty());
        assert(r@.reports =~= Seq::<Seq<char>>::empty());
        r
    }

    pub fn push(&mut self, text: String)
        ensures
            final(self)@ == (InboxView {
                messages: old(self)@.messages.push(text@),
                ..old(self)@
            }),
    {
        let ghost before = self.messages@;
        self.messages.push(text);
        assert(views(self.messages@) =~= views(before).push(text@));
    }

    /// Takes everything out: the messages in order, then the reports in order.
    pub fn drain(&mut self) -> (r: Vec<String>)
        ensures
            views(r@) == old(self)@.messages + old(self)@.reports,
            final(self)@ == empty_inbox(),
    {
        let mut all: Vec<String> = Vec::new();
        let mut reports: Vec<String> = Vec::new();
        std::mem::swap(&mut all, &mut self.messages);
        std::mem::swap(&mut reports, &mut self.boundary_reports);
        let ghost ms = all@;
        let ghost rs = reports@;
        all.append(&mut reports);
        assert(views(all@) =~= views(ms) + views(rs));
        assert(self@.messages =~= Seq::<Seq<char>>::empty());
        assert(self@.reports =~= Seq::<Seq<char>>::empty());
        all
    }

    /// Whether no message waits; a report alone does not wake the loop.
    pub fn is_empty(&self) -> (r: bool)
        ensures
            r == (self@.messages.len() == 0),
    {
        self.messages.len() == 0
    }

    /// Leaves a report for the next turn boundary.
    pub fn queue_boundary_report(&mut self, text: String)
        ensures
            final(self)@ == (InboxView {
                reports: old(self)@.reports.push(text@),
                ..old(self)@
            }),
    {
        let ghost before = self.boundary_reports@;
        self.boundary_reports.push(text);
        assert(views(self.boundary_reports@) =~= views(before).push(text@));
    }
}

// ---------------------------------------------------------------------------
// Laws
// ---------------------------------------------------------------------------

/// An inbox that is empty has no message and no report.
pub proof fn what_an_empty_inbox_has()
    ensures
        empty_inbox().messages.len() == 0,
        empty_inbox().reports.len() == 0,
{
}

} // verus!
