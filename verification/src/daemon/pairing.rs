//! Daemon-side pairing.
//!
//! The daemon owns the machine-key endpoint, so all pairing runs through it,
//! driven by control-socket requests. The pairing ALPN is always served; what
//! gates pairing is the *ticket*: hosting issues a one-time ticket valid for
//! [`PAIR_TICKET_TTL`], at most one is valid at a time (hosting again revokes
//! the previous one), and redeeming it is atomic: the ticket is consumed before
//! the peer is registered, so a revoked, expired or already-used ticket can
//! never pair.
//!
//! Times are milliseconds of the steady clock.

use vstd::prelude::*;

use crate::config::state::error::StateError;
use crate::daemon::control::protocol::PAIR_TICKET_TTL;
use crate::daemon::store::{MeshStore, MutationView, Prepared};
use crate::net::endpoint::EndpointId;
use crate::order::same_text;

verus! {

/// How long to wait for a relay connection when issuing a ticket.
pub const ONLINE_TIMEOUT: u64 = 30_000;

/// Time budget for one connection to complete the whole exchange.
pub const EXCHANGE_TIMEOUT: u64 = 15_000;

/// Concurrent inbound exchanges; the pairing ALPN accepts connections from
/// unknown endpoints, so surplus is shed rather than queued.
pub const MAX_EXCHANGES: usize = 4;

/// What a joiner is told when no ticket is outstanding.
pub const NO_PAIRING: &'static str = "no pairing in progress on this machine";

/// A ticket handed to the user, redeemable until revoked or expired.
struct IssuedTicket {
    ticket: String,
    expires: u64,
    /// Name this machine announces to the redeeming joiner.
    local_name: String,
}

/// An issued ticket by content.
#[verifier::ext_equal]
pub struct IssuedView {
    pub ticket: Seq<char>,
    pub expires: u64,
    pub local_name: Seq<char>,
}

/// Pairing state of the daemon: the outstanding ticket, if any, and how many
/// exchanges run.
pub struct Pairing {
    issued: Option<IssuedTicket>,
    exchanges: usize,
}

/// A pairing state by content.
#[verifier::ext_equal]
pub struct PairingView {
    pub issued: Option<IssuedView>,
    pub exchanges: nat,
}

impl View for Pairing {
    type V = PairingView;

    closed spec fn view(&self) -> PairingView {
        PairingView {
            issued: match self.issued {
                Some(i) => Some(
                    IssuedView {
                        ticket: i.ticket@,
                        expires: i.expires,
                        local_name: i.local_name@,
                    },
                ),
                None => None,
            },
            exchanges: self.exchanges as nat,
        }
    }
}

/// How an accepted pairing connection is answered.
#[derive(PartialEq, Eq, Debug)]
pub enum Attempt {
    /// Closed as busy: enough exchanges run.
    Busy,
    /// Told that no pairing is in progress.
    NoTicket,
    /// One exchange runs, against this ticket and under this name.
    Exchange { ticket: String, local_name: String },
}

/// How an exchange went.
#[derive(PartialEq, Eq, Debug)]
pub enum Exchange {
    /// The joiner proved possession of the ticket.
    Proved { endpoint: EndpointId, name: String },
    /// Invalid or interrupted attempt.
    Interrupted,
    /// The attempt failed after proving ticket possession (e.g. an unacceptable
    /// name): only the ticket holder can trigger this, and it was sent the
    /// reason, so it may retry.
    Failed,
    /// The time budget ran out.
    TimedOut,
}

/// What follows an exchange.
pub enum Settled {
    /// Nothing to do; the ticket stays valid.
    Ignored,
    /// Close the connection for running out of time; the ticket stays valid.
    TimedOut,
    /// Close the connection as cancelled: the ticket is no longer valid.
    Cancelled,
    /// The ticket is redeemed, but the peer cannot be registered: close the
    /// connection as failed.
    Refused { error: StateError },
    /// The ticket is redeemed: save and commit the peer, then confirm.
    Redeemed { prepared: Prepared },
}

/// The outstanding ticket at a time: none once it expired.
pub open spec fn outstanding(p: PairingView, now: u64) -> Option<IssuedView> {
    match p.issued {
        Some(i) => if i.expires <= now {
            None
        } else {
            Some(i)
        },
        None => None,
    }
}

/// Whether a ticket can be redeemed at a time.
pub open spec fn live(p: PairingView, ticket: Seq<char>, now: u64) -> bool {
    outstanding(p, now) is Some && outstanding(p, now)->Some_0.ticket == ticket
}

/// The pairing state once a ticket is issued.
pub open spec fn hosting(
    p: PairingView,
    ticket: Seq<char>,
    local_name: Seq<char>,
    now: u64,
) -> PairingView {
    PairingView {
        issued: Some(
            IssuedView { ticket, expires: (now + PAIR_TICKET_TTL) as u64, local_name },
        ),
        ..p
    }
}

/// The pairing state once an exchange against a ticket settled.
pub open spec fn settled(
    p: PairingView,
    ticket: Seq<char>,
    exchange: Exchange,
    now: u64,
) -> PairingView {
    if exchange is Proved && live(p, ticket, now) {
        PairingView { issued: None, ..p }
    } else {
        p
    }
}

/// The pairing state once the outstanding ticket is revoked.
pub open spec fn revoked(p: PairingView) -> PairingView {
    PairingView { issued: None, ..p }
}

/// The pairing state once a pairing connection is decided on: an expired ticket
/// is dropped, and the connection counts as an exchange unless busy.
pub open spec fn served(p: PairingView, now: u64) -> PairingView {
    if p.exchanges >= MAX_EXCHANGES {
        p
    } else {
        PairingView { issued: outstanding(p, now), exchanges: p.exchanges + 1 }
    }
}

/// The pairing state once an exchange ended.
pub open spec fn ended(p: PairingView) -> PairingView {
    PairingView {
        exchanges: if p.exchanges > 0 {
            (p.exchanges - 1) as nat
        } else {
            0
        },
        ..p
    }
}

impl Pairing {
    pub fn new() -> (pairing: Self)
        ensures
            pairing@ == (PairingView { issued: None, exchanges: 0 }),
    {
        Pairing { issued: None, exchanges: 0 }
    }

    /// Revokes the outstanding ticket; tells whether there was one. Done before
    /// waiting for a relay: a user re-hosting to kill a leaked ticket must not
    /// depend on the relay being reachable, and a failed reissue must fail
    /// closed.
    pub fn revoke(&mut self) -> (revoked: bool)
        ensures
            revoked == old(self)@.issued is Some,
            final(self)@ == self::revoked(old(self)@),
    {
        let revoked: bool = self.issued.is_some();
        self.issued = None;
        revoked
    }

    /// Issues a fresh one-time ticket.
    pub fn host(&mut self, ticket: String, local_name: String, now: u64)
        requires
            now + PAIR_TICKET_TTL <= u64::MAX,
        ensures
            final(self)@ == hosting(old(self)@, ticket@, local_name@, now),
    {
        self.issued = Some(IssuedTicket { ticket, expires: now + PAIR_TICKET_TTL, local_name });
    }

    /// Decides on an accepted pairing connection: refused outright unless a
    /// ticket is outstanding, otherwise one exchange attempt runs against it. An
    /// expired ticket is dropped on the way. Unless busy, the connection counts
    /// as an exchange until [`Pairing::finished`].
    pub fn serve_inbound(&mut self, now: u64) -> (attempt: Attempt)
        ensures
            final(self)@ == served(old(self)@, now),
            match attempt {
                Attempt::Busy => old(self)@.exchanges >= MAX_EXCHANGES,
                Attempt::NoTicket => {
                    &&& old(self)@.exchanges < MAX_EXCHANGES
                    &&& outstanding(old(self)@, now) is None
                },
                Attempt::Exchange { ticket, local_name } => {
                    &&& old(self)@.exchanges < MAX_EXCHANGES
                    &&& outstanding(old(self)@, now) is Some
                    &&& ticket@ == outstanding(old(self)@, now)->Some_0.ticket
                    &&& local_name@ == outstanding(old(self)@, now)->Some_0.local_name
                },
            },
    {
        if self.exchanges >= MAX_EXCHANGES {
            return Attempt::Busy;
        }
        self.exchanges = self.exchanges + 1;
        match self.issued_ticket(now) {
            Some((ticket, local_name)) => Attempt::Exchange { ticket, local_name },
            None => Attempt::NoTicket,
        }
    }

    /// The outstanding ticket and announced name, dropping the ticket when it
    /// turns out expired.
    fn issued_ticket(&mut self, now: u64) -> (r: Option<(String, String)>)
        ensures
            final(self)@ == (PairingView {
                issued: outstanding(old(self)@, now),
                ..old(self)@
            }),
            match r {
                Some(t) => {
                    &&& outstanding(old(self)@, now) is Some
                    &&& t.0@ == outstanding(old(self)@, now)->Some_0.ticket
                    &&& t.1@ == outstanding(old(self)@, now)->Some_0.local_name
                },
                None => outstanding(old(self)@, now) is None,
            },
    {
        let expired: bool = match &self.issued {
            Some(issued) => issued.expires <= now,
            None => false,
        };
        if expired {
            self.issued = None;
        }
        match &self.issued {
            Some(issued) => Some((issued.ticket.clone(), issued.local_name.clone())),
            None => None,
        }
    }

    /// An exchange ended, whichever way.
    pub fn finished(&mut self)
        ensures
            final(self)@ == ended(old(self)@),
    {
        if self.exchanges > 0 {
            self.exchanges = self.exchanges - 1;
        }
    }

    /// Settles an exchange that ran against `ticket`. A failed attempt leaves
    /// the ticket valid (the joiner was told why and can retry); only a
    /// successful one redeems it. Consuming the ticket comes before preparing
    /// the peer, so a ticket revoked or replaced mid-exchange can never register
    /// a peer, and a ticket is redeemed at most once.
    pub fn settle(
        &mut self,
        store: &MeshStore,
        ticket: &str,
        exchange: Exchange,
        now: u64,
    ) -> (outcome: Settled)
        ensures
            final(self)@ == settled(old(self)@, ticket@, exchange, now),
            match exchange {
                Exchange::Interrupted => outcome is Ignored,
                Exchange::Failed => outcome is Ignored,
                Exchange::TimedOut => outcome is TimedOut,
                Exchange::Proved { endpoint, name } => if !live(old(self)@, ticket@, now) {
                    outcome is Cancelled
                } else {
                    let peer = MutationView::AddPairedPeer { endpoint: endpoint@, name: name@ };
                    match crate::daemon::store::mutated(store@.state, peer, store@.local) {
                        Err(fault) => {
                            &&& outcome is Refused
                            &&& outcome->Refused_error@ == fault
                        },
                        Ok((after, answer)) => {
                            &&& outcome is Redeemed
                            &&& outcome->prepared.outcome@ == answer
                            &&& match outcome->prepared.next {
                                Some(next) => next@ == after && after != store@.state,
                                None => after == store@.state,
                            }
                        },
                    }
                },
            },
    {
        match exchange {
            Exchange::Interrupted => Settled::Ignored,
            Exchange::Failed => Settled::Ignored,
            Exchange::TimedOut => Settled::TimedOut,
            Exchange::Proved { endpoint, name } => {
                let redeemable: bool = match &self.issued {
                    Some(issued) => same_text(issued.ticket.as_str(), ticket) && now
                        < issued.expires,
                    None => false,
                };
                if !redeemable {
                    return Settled::Cancelled;
                }
                self.issued = None;
                match store.add_paired_peer(endpoint, name) {
                    Ok(prepared) => Settled::Redeemed { prepared },
                    Err(error) => Settled::Refused { error },
                }
            },
        }
    }
}

/// Something that happens to a pairing state.
pub enum Event {
    Revoked,
    Hosted { ticket: Seq<char>, local_name: Seq<char>, now: u64 },
    Served { now: u64 },
    Settled { ticket: Seq<char>, exchange: Exchange, now: u64 },
    Ended,
}

/// The pairing state after an event.
pub open spec fn after_event(p: PairingView, event: Event) -> PairingView {
    match event {
        Event::Revoked => revoked(p),
        Event::Hosted { ticket, local_name, now } => hosting(p, ticket, local_name, now),
        Event::Served { now } => served(p, now),
        Event::Settled { ticket, exchange, now } => settled(p, ticket, exchange, now),
        Event::Ended => ended(p),
    }
}

/// The pairing state after events, in order.
pub open spec fn after_events(p: PairingView, events: Seq<Event>) -> PairingView
    decreases events.len(),
{
    if events.len() == 0 {
        p
    } else {
        after_event(after_events(p, events.drop_last()), events.last())
    }
}

/// Whether an event issues a ticket.
pub open spec fn issues(event: Event, ticket: Seq<char>) -> bool {
    event is Hosted && event->Hosted_ticket == ticket
}

/// A ticket that is not valid stays so: nothing but issuing it again makes it
/// valid.
pub proof fn invalid_tickets_stay_invalid(
    p: PairingView,
    ticket: Seq<char>,
    events: Seq<Event>,
    now: u64,
    later: u64,
)
    requires
        !live(p, ticket, now),
        now <= later,
        forall|i: int| 0 <= i < events.len() ==> !issues(#[trigger] events[i], ticket),
    ensures
        !live(after_events(p, events), ticket, later),
    decreases events.len(),
{
    if events.len() > 0 {
        let rest = events.drop_last();
        assert(forall|i: int| 0 <= i < rest.len() ==> #[trigger] rest[i] == events[i]);
        invalid_tickets_stay_invalid(p, ticket, rest, now, later);
        assert(!issues(events[events.len() - 1], ticket));
    }
}

/// A ticket is redeemed at most once: whatever follows a redemption, short of
/// issuing the ticket again, it is no longer valid.
pub proof fn tickets_are_redeemed_once(
    p: PairingView,
    ticket: Seq<char>,
    exchange: Exchange,
    events: Seq<Event>,
    now: u64,
    later: u64,
)
    requires
        exchange is Proved,
        live(p, ticket, now),
        forall|i: int| 0 <= i < events.len() ==> !issues(#[trigger] events[i], ticket),
    ensures
        !live(after_events(settled(p, ticket, exchange, now), events), ticket, later),
{
    invalid_tickets_stay_invalid(settled(p, ticket, exchange, now), ticket, events, 0, later);
}

/// Hosting again revokes the previous ticket.
pub proof fn hosting_again_revokes(
    p: PairingView,
    old_ticket: Seq<char>,
    ticket: Seq<char>,
    local_name: Seq<char>,
    now: u64,
    later: u64,
)
    requires
        old_ticket != ticket,
    ensures
        !live(hosting(p, ticket, local_name, now), old_ticket, later),
{
}

/// A ticket is valid from when it is issued until its time is over, and not
/// beyond.
pub proof fn tickets_expire(
    p: PairingView,
    ticket: Seq<char>,
    local_name: Seq<char>,
    now: u64,
    later: u64,
)
    requires
        now + PAIR_TICKET_TTL <= u64::MAX,
    ensures
        live(hosting(p, ticket, local_name, now), ticket, later) <==> later < now
            + PAIR_TICKET_TTL,
{
}

/// Only an exchange that proves possession of the ticket uses it up.
pub proof fn failed_attempts_keep_the_ticket(
    p: PairingView,
    ticket: Seq<char>,
    exchange: Exchange,
    now: u64,
)
    requires
        !(exchange is Proved),
    ensures
        settled(p, ticket, exchange, now) == p,
{
}

/// A ticket just issued can be redeemed for as long as tickets are valid and not
/// a moment longer, it alone, and under the name it was issued with.
pub proof fn issued_tickets_are_valid(
    p: PairingView,
    ticket: Seq<char>,
    local_name: Seq<char>,
    now: u64,
    later: u64,
    other: Seq<char>,
)
    requires
        now + PAIR_TICKET_TTL <= u64::MAX,
    ensures
        ({
            let after = hosting(p, ticket, local_name, now);
            &&& live(after, other, later) <==> other == ticket && later < now + PAIR_TICKET_TTL
            &&& live(after, ticket, later) ==> outstanding(after, later)->Some_0.local_name
                == local_name
            &&& after.exchanges == p.exchanges
        }),
        PAIR_TICKET_TTL == 180_000,
        MAX_EXCHANGES == 4,
{
}

/// A ticket is outstanding exactly from its issue until it expires.
pub proof fn outstanding_tickets_have_not_expired(p: PairingView, now: u64)
    ensures
        outstanding(p, now) is Some <==> p.issued is Some && now < p.issued->Some_0.expires,
        outstanding(p, now) is Some ==> outstanding(p, now) == p.issued,
{
}

/// Only a proved exchange uses a ticket up, and only the ticket it was for; any
/// other leaves everything as it was.
pub proof fn proofs_use_the_ticket_up(
    p: PairingView,
    ticket: Seq<char>,
    exchange: Exchange,
    now: u64,
)
    ensures
        ({
            let after = settled(p, ticket, exchange, now);
            let valid = p.issued is Some && now < p.issued->Some_0.expires
                && p.issued->Some_0.ticket == ticket;
            &&& exchange is Proved && valid ==> after.issued is None
            &&& !(exchange is Proved && valid) ==> after == p
            &&& after.exchanges == p.exchanges
        }),
{
}

/// A pairing connection counts while there is room for it, and only expired
/// tickets are dropped by it; ending it makes the room again; and revoking takes
/// the ticket and nothing else.
pub proof fn exchanges_are_counted(p: PairingView, now: u64)
    ensures
        ({
            let after = served(p, now);
            let expired = p.issued is Some && p.issued->Some_0.expires <= now;
            &&& p.exchanges < MAX_EXCHANGES ==> after.exchanges == p.exchanges + 1
            &&& p.exchanges < MAX_EXCHANGES && !expired ==> after.issued == p.issued
            &&& p.exchanges < MAX_EXCHANGES && expired ==> after.issued is None
            &&& p.exchanges >= MAX_EXCHANGES ==> after == p
            &&& p.exchanges < MAX_EXCHANGES ==> ended(after).exchanges == p.exchanges
            &&& ended(p).issued == p.issued
            &&& p.exchanges == 0 ==> ended(p).exchanges == 0
            &&& revoked(p).issued is None
            &&& revoked(p).exchanges == p.exchanges
        }),
{
}

} // verus!
