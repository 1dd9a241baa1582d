//! The peer manager: the registry together with the outbox of the presence
//! events that its changes give rise to.

use crate::discovery::{handle_broadcast, parse_announcement};
use crate::error::{ChatError, ChatErrorView};
use crate::identity::PeerIdentity;
use crate::peer::{PeerEvent, PeerEventView, PeerInfo};
use crate::presence::{health_state, is_health_report, is_snapshot, seen_event, seen_state, Registry};
use crate::registry::PeerMap;
use vstd::prelude::*;

verus! {

/// Presence events waiting to be handed to the shell, oldest first.
pub struct PeerNotifier {
    queue: Vec<PeerEvent>,
}

impl View for PeerNotifier {
    type V = Seq<PeerEventView>;

    closed spec fn view(&self) -> Seq<PeerEventView> {
        self.queue.deep_view()
    }
}

impl PeerNotifier {
    /// An empty outbox.
    pub fn new() -> (r: Self)
        ensures
            r@ == Seq::<PeerEventView>::empty(),
    {
        let r = PeerNotifier { queue: Vec::new() };
        assert(r@ =~= Seq::<PeerEventView>::empty());
        r
    }

    /// Puts `event` behind those already waiting.
    pub fn notify(&mut self, event: PeerEvent)
        ensures
            final(self)@ == old(self)@.push(event@),
    {
        self.queue.push(event);
        assert(self@ =~= old(self)@.push(event@));
    }

    /// Puts `events` behind those already waiting, in their order.
    pub fn notify_all(&mut self, events: Vec<PeerEvent>)
        ensures
            final(self)@ == old(self)@ + events.deep_view(),
    {
        let mut events = events;
        let ghost added = events.deep_view();
        assert(events@.len() == added.len());
        self.queue.append(&mut events);
        assert(self@ =~= old(self)@ + added);
    }

    /// Hands out everything that waits, oldest first, and leaves the outbox
    /// empty.
    pub fn drain(&mut self) -> (events: Vec<PeerEvent>)
        ensures
            events.deep_view() == old(self)@,
            final(self)@ == Seq::<PeerEventView>::empty(),
    {
        let mut events: Vec<PeerEvent> = Vec::new();
        std::mem::swap(&mut events, &mut self.queue);
        assert(self@ =~= Seq::<PeerEventView>::empty());
        events
    }

    /// Number of events that wait.
    pub fn len(&self) -> (r: usize)
        ensures
            r == self@.len(),
    {
        self.queue.len()
    }
}

/// Mathematical value of a [`PeerManager`].
pub struct PeerManagerView {
    pub peers: Registry,
    pub outbox: Seq<PeerEventView>,
}

/// The registry and the outbox of its events. Every change that the shell can
/// observe puts exactly one event into the outbox; a change it cannot observe
/// puts none.
pub struct PeerManager {
    peers: PeerMap,
    notifier: PeerNotifier,
}

impl View for PeerManager {
    type V = PeerManagerView;

    closed spec fn view(&self) -> PeerManagerView {
        PeerManagerView { peers: self.peers@, outbox: self.notifier@ }
    }
}

/// The events of `event`, none or one.
pub open spec fn as_events(event: Option<PeerEventView>) -> Seq<PeerEventView> {
    match event {
        Some(e) => seq![e],
        None => Seq::empty(),
    }
}

impl PeerManager {
    /// A manager that knows no peer and has nothing to report.
    pub fn new() -> (r: Self)
        ensures
            r@.peers == Map::<Seq<char>, crate::peer::PeerRecordView>::empty(),
            r@.outbox == Seq::<PeerEventView>::empty(),
    {
        PeerManager { peers: PeerMap::new(), notifier: PeerNotifier::new() }
    }

    /// The listed peers at this moment, as copies.
    pub fn get_all_peers(&self) -> (peers: Vec<PeerInfo>)
        ensures
            is_snapshot(peers.deep_view(), self@.peers),
    {
        self.peers.snapshot()
    }

    /// Takes in one received broadcast (see [`handle_broadcast`]) and puts the
    /// event it gives rise to, if any, into the outbox.
    pub fn on_broadcast(&mut self, local_id: &String, payload: &[u8], now: u64) -> (r: Result<
        (),
        ChatError,
    >)
        ensures
            match parse_announcement(payload@) {
                None => r matches Err(e) && e@ == ChatErrorView::Malformed && final(self)@ == old(
                    self,
                )@,
                Some(a) => r is Ok && if a.peer_id == local_id@ {
                    final(self)@ == old(self)@
                } else {
                    final(self)@.peers == seen_state(
                        old(self)@.peers,
                        a.peer_id,
                        a.metadata,
                        a.address,
                        now,
                    ) && final(self)@.outbox == old(self)@.outbox + as_events(
                        seen_event(old(self)@.peers, a.peer_id, a.metadata),
                    )
                },
            },
    {
        match handle_broadcast(&mut self.peers, local_id, payload, now) {
            Err(e) => Err(e),
            Ok(None) => {
                assert(self@.outbox =~= old(self)@.outbox + Seq::<PeerEventView>::empty());
                Ok(())
            },
            Ok(Some(event)) => {
                self.notifier.notify(event);
                assert(self@.outbox =~= old(self)@.outbox + seq![event@]);
                Ok(())
            },
        }
    }

    /// Runs one health check at `now` and puts its report into the outbox.
    pub fn check_health(&mut self, now: u64, t_stale: u64, t_lost: u64)
        ensures
            final(self)@.peers == health_state(old(self)@.peers, now, t_stale, t_lost),
            old(self)@.outbox.len() <= final(self)@.outbox.len(),
            final(self)@.outbox.take(old(self)@.outbox.len() as int) == old(self)@.outbox,
            is_health_report(
                final(self)@.outbox.skip(old(self)@.outbox.len() as int),
                old(self)@.peers,
                now,
                t_lost,
            ),
    {
        let events = self.peers.health_check(now, t_stale, t_lost);
        let ghost report = events.deep_view();
        self.notifier.notify_all(events);
        proof {
            let n = old(self)@.outbox.len() as int;
            assert(self@.outbox.take(n) =~= old(self)@.outbox);
            assert(self@.outbox.skip(n) =~= report);
        }
    }

    /// Hands out the events that wait for the shell, oldest first.
    pub fn take_events(&mut self) -> (events: Vec<PeerEvent>)
        ensures
            events.deep_view() == old(self)@.outbox,
            final(self)@.peers == old(self)@.peers,
            final(self)@.outbox == Seq::<PeerEventView>::empty(),
    {
        self.notifier.drain()
    }
}

/// Everything the shell's commands work on, in one place.
pub struct AppState {
    pub peers: PeerMap,
    pub identity: PeerIdentity,
    pub notifier: PeerNotifier,
}

} // verus!
