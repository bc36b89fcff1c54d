//! Per-peer outbound message queue.

use vstd::prelude::*;

use crate::config::state::membership::{Membership, MembershipView};
use crate::net::sync::{
    Announce, AnnounceView, MessageView, StatusReport, StatusReportView, UniMessage,
};
use crate::sorted_map::{self, SortedMap};

verus! {

/// Pending messages for one peer, coalesced latest-wins: one slot for the
/// membership, one for the status report and one per repo for announcements,
/// each kept until the sender task takes it.
pub struct Outbox {
    membership: Option<Membership>,
    status: Option<StatusReport>,
    announces: SortedMap<String, Announce>,
}

/// Pending messages by content.
#[verifier::ext_equal]
pub struct OutboxView {
    pub membership: Option<MembershipView>,
    pub status: Option<StatusReportView>,
    pub announces: Map<Seq<char>, AnnounceView>,
}

/// An optional membership by content.
pub open spec fn membership_view(membership: Option<Membership>) -> Option<MembershipView> {
    match membership {
        Some(m) => Some(m@),
        None => None,
    }
}

/// An optional status report by content.
pub open spec fn status_view(status: Option<StatusReport>) -> Option<StatusReportView> {
    match status {
        Some(s) => Some(s@),
        None => None,
    }
}

impl View for Outbox {
    type V = OutboxView;

    closed spec fn view(&self) -> OutboxView {
        OutboxView {
            membership: membership_view(self.membership),
            status: status_view(self.status),
            announces: self.announces@,
        }
    }
}

/// An outbox with nothing pending.
pub open spec fn empty_outbox() -> OutboxView {
    OutboxView { membership: None, status: None, announces: Map::empty() }
}

/// An outbox with an announcement queued, replacing the one pending for its
/// repo.
pub open spec fn with_announce(o: OutboxView, announce: AnnounceView) -> OutboxView {
    OutboxView { announces: o.announces.insert(announce.name, announce), ..o }
}

/// An outbox with a membership queued, replacing the one pending.
pub open spec fn with_membership(o: OutboxView, membership: MembershipView) -> OutboxView {
    OutboxView { membership: Some(membership), ..o }
}

/// An outbox with a status report queued, replacing the one pending.
pub open spec fn with_status(o: OutboxView, status: StatusReportView) -> OutboxView {
    OutboxView { status: Some(status), ..o }
}

/// The message an outbox hands out next: the membership (a new peer should
/// learn the mesh before anything else), then the status report, then the
/// announcements by repo name.
pub open spec fn next_message(o: OutboxView) -> Option<MessageView> {
    if o.membership is Some {
        Some(MessageView::Membership(o.membership->Some_0))
    } else if o.status is Some {
        Some(MessageView::Status(o.status->Some_0))
    } else if o.announces.len() > 0 {
        Some(
            MessageView::Announce(sorted_map::listing::<String, AnnounceView>(o.announces)[0].1),
        )
    } else {
        None
    }
}

/// An outbox once its next message is taken.
pub open spec fn after_next(o: OutboxView) -> OutboxView {
    if o.membership is Some {
        OutboxView { membership: None, ..o }
    } else if o.status is Some {
        OutboxView { status: None, ..o }
    } else if o.announces.len() > 0 {
        OutboxView {
            announces: o.announces.remove(
                sorted_map::listing::<String, AnnounceView>(o.announces)[0].0,
            ),
            ..o
        }
    } else {
        o
    }
}

/// How many messages an outbox holds.
pub open spec fn pending_count(o: OutboxView) -> nat {
    (if o.membership is Some { 1nat } else { 0 }) + (if o.status is Some { 1nat } else { 0 })
        + o.announces.len()
}

impl Outbox {
    /// Pending announcements are finitely many.
    pub proof fn lemma_finite(&self)
        ensures
            self@.announces.dom().finite(),
    {
        self.announces.lemma_finite();
    }

    pub fn new() -> (outbox: Self)
        ensures
            outbox@ == empty_outbox(),
    {
        Outbox { membership: None, status: None, announces: SortedMap::new() }
    }

    /// Queues an announcement, replacing the one pending for its repo.
    pub fn push_announce(&mut self, announce: Announce)
        ensures
            final(self)@ == with_announce(old(self)@, announce@),
    {
        self.announces.insert(announce.name.clone(), announce);
    }

    /// Queues a membership, replacing the one pending.
    pub fn push_membership(&mut self, membership: Membership)
        ensures
            final(self)@ == with_membership(old(self)@, membership@),
    {
        self.membership = Some(membership);
    }

    /// Queues a status report, replacing the one pending.
    pub fn push_status(&mut self, report: StatusReport)
        ensures
            final(self)@ == with_status(old(self)@, report@),
    {
        self.status = Some(report);
    }

    /// Takes the next message, membership first (a new peer should learn the
    /// mesh before anything else), then the status report, then the repo
    /// announcements.
    pub fn pop(&mut self) -> (message: Option<UniMessage>)
        ensures
            match message {
                Some(m) => next_message(old(self)@) == Some(m@),
                None => next_message(old(self)@) is None,
            },
            final(self)@ == after_next(old(self)@),
    {
        if let Some(membership) = self.membership.take() {
            return Some(UniMessage::Membership(membership));
        }
        if let Some(report) = self.status.take() {
            return Some(UniMessage::Status(report));
        }
        if self.announces.len() == 0 {
            return None;
        }
        let (_name, announce): (String, Announce) = self.announces.take_first();
        Some(UniMessage::Announce(announce))
    }
}

/// Every message is handed out once: taking one leaves one fewer, and nothing
/// is handed out only when nothing is pending.
pub proof fn popping_hands_out_everything(o: OutboxView)
    requires
        o.announces.dom().finite(),
    ensures
        next_message(o) is None <==> pending_count(o) == 0,
        next_message(o) is Some ==> pending_count(after_next(o)) + 1 == pending_count(o),
{
    if o.membership is None && o.status is None && o.announces.len() > 0 {
        sorted_map::lemma_listing_exists::<String, AnnounceView>(o.announces);
        sorted_map::lemma_listing_len::<String, AnnounceView>(o.announces);
        let list = sorted_map::listing::<String, AnnounceView>(o.announces);
        assert(o.announces.contains_key(list[0].0));
    }
}

/// A message queued for a slot replaces what was pending there: the latest
/// wins.
pub proof fn queueing_coalesces(
    o: OutboxView,
    first: AnnounceView,
    second: AnnounceView,
    m1: MembershipView,
    m2: MembershipView,
    s1: StatusReportView,
    s2: StatusReportView,
)
    requires
        first.name == second.name,
    ensures
        with_announce(with_announce(o, first), second) == with_announce(o, second),
        with_membership(with_membership(o, m1), m2) == with_membership(o, m2),
        with_status(with_status(o, s1), s2) == with_status(o, s2),
{
    assert(o.announces.insert(first.name, first).insert(second.name, second)
        =~= o.announces.insert(second.name, second));
}

} // verus!
