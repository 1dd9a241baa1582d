//! The peer registry: the one place where presence state lives.

use crate::peer::{
    Liveness, PeerEvent, PeerEventView, PeerInfo, PeerMetadata, PeerRecord, PeerRecordView,
};
use crate::presence::{
    active_record, can_go_stale, decayed, health_drops, health_state, is_health_report,
    is_snapshot, listed, lost_event, lost_state, reconnected_event, reconnected_state, seen_event,
    seen_state, stale_state, times_out, with_liveness, Registry,
};
use crate::keyed::{
    assoc, distinct, index_of, lemma_assoc_absent, lemma_assoc_at, lemma_assoc_push,
    lemma_assoc_update,
};
use vstd::prelude::*;

verus! {

/// The records' mathematical values, in storage order.
spec fn record_views(recs: Seq<PeerRecord>) -> Seq<PeerRecordView> {
    Seq::new(recs.len(), |i: int| recs[i]@)
}

/// The peers that the records are about, in storage order.
spec fn record_ids(recs: Seq<PeerRecord>) -> Seq<Seq<char>> {
    Seq::new(recs.len(), |i: int| recs[i].peer_id@)
}

/// The registry of peers, keyed by peer identifier. Its value is the map
/// `self@`; every operation is a function on that map and returns the event, if
/// any, that the change gives rise to.
pub struct PeerMap {
    records: Vec<PeerRecord>,
}

impl View for PeerMap {
    type V = Registry;

    closed spec fn view(&self) -> Registry {
        assoc(record_ids(self.records@), record_views(self.records@))
    }
}

impl PeerMap {
    #[verifier::type_invariant]
    spec fn inv(self) -> bool {
        distinct(record_ids(self.records@))
    }

    /// Every record is filed under the identifier it carries.
    pub proof fn lemma_keyed_by_id(self)
        ensures
            forall|id: Seq<char>| self@.contains_key(id) ==> (#[trigger] self@[id]).peer_id == id,
    {
        let keys = record_ids(self.records@);
        let vals = record_views(self.records@);
        assert forall|id: Seq<char>| self@.contains_key(id) implies (#[trigger] self@[id]).peer_id
            == id by {
            let i = index_of(keys, id);
            assert(vals[i].peer_id == keys[i]);
        }
    }

    /// A registry that knows no peer.
    pub fn new() -> (r: Self)
        ensures
            r@ == Map::<Seq<char>, PeerRecordView>::empty(),
    {
        let r = PeerMap { records: Vec::new() };
        assert(r@ =~= Map::<Seq<char>, PeerRecordView>::empty());
        r
    }

    fn find(&self, peer_id: &String) -> (r: Option<usize>)
        ensures
            match r {
                Some(i) => i < self.records.len() && self.records[i as int].peer_id@ == peer_id@
                    && self@.contains_key(peer_id@) && self@[peer_id@] == self.records[i as int]@,
                None => !self@.contains_key(peer_id@),
            },
    {
        proof {
            use_type_invariant(self);
        }
        let ghost keys = record_ids(self.records@);
        let ghost vals = record_views(self.records@);
        let mut i: usize = 0;
        while i < self.records.len()
            invariant
                i <= self.records.len(),
                keys == record_ids(self.records@),
                vals == record_views(self.records@),
                distinct(keys),
                forall|j: int| 0 <= j < i ==> keys[j] != peer_id@,
            decreases self.records.len() - i,
        {
            if self.records[i].peer_id == *peer_id {
                proof {
                    lemma_assoc_at(keys, vals, i as int);
                }
                return Some(i);
            }
            i = i + 1;
        }
        proof {
            lemma_assoc_absent(keys, vals, peer_id@);
        }
        None
    }

    /// Whether the registry has a record of `peer_id`, listed or lost.
    pub fn knows(&self, peer_id: &String) -> (r: bool)
        ensures
            r == self@.contains_key(peer_id@),
    {
        proof {
            use_type_invariant(self);
        }
        match self.find(peer_id) {
            Some(i) => {
                true
            },
            None => false,
        }
    }

    /// The liveness of `peer_id`, if the registry has a record of it.
    pub fn liveness_of(&self, peer_id: &String) -> (r: Option<Liveness>)
        ensures
            r is Some <==> self@.contains_key(peer_id@),
            r matches Some(l) ==> l == self@[peer_id@].liveness,
    {
        proof {
            use_type_invariant(self);
        }
        match self.find(peer_id) {
            Some(i) => {
                Some(self.records[i].liveness)
            },
            None => None,
        }
    }

    /// A copy of the record of `peer_id`, if there is one.
    pub fn get(&self, peer_id: &String) -> (r: Option<PeerRecord>)
        ensures
            r is Some <==> self@.contains_key(peer_id@),
            r matches Some(rec) ==> rec@ == self@[peer_id@],
    {
        proof {
            use_type_invariant(self);
        }
        match self.find(peer_id) {
            Some(i) => {
                Some(self.records[i].clone())
            },
            None => None,
        }
    }

    /// Records a broadcast from `peer_id` received at `now`. The peer is active
    /// afterwards with the metadata and address given. The event tells first
    /// contact (`Joined`) from a return (`Reconnected`) and from a change of
    /// metadata (`Updated`); a broadcast that only refreshes an active peer
    /// gives none.
    pub fn record_seen(
        &mut self,
        peer_id: String,
        metadata: PeerMetadata,
        address: String,
        now: u64,
    ) -> (event: Option<PeerEvent>)
        ensures
            final(self)@ == seen_state(old(self)@, peer_id@, metadata@, address@, now),
            event.deep_view() == seen_event(old(self)@, peer_id@, metadata@),
    {
        proof {
            use_type_invariant(&*self);
        }
        let found = self.find(&peer_id);
        let mut recs: Vec<PeerRecord> = Vec::new();
        std::mem::swap(&mut recs, &mut self.records);
        let ghost keys = record_ids(recs@);
        let ghost vals = record_views(recs@);
        let ghost after_rec = active_record(peer_id@, metadata@, address@, now);
        let event = match found {
            None => {
                let event = PeerEvent::Joined { peer_id: peer_id.clone(), metadata: metadata.clone() };
                recs.push(
                    PeerRecord { peer_id, metadata, liveness: Liveness::Active, last_seen: now, address },
                );
                proof {
                    lemma_assoc_push(keys, vals, peer_id@, after_rec);
                    assert(record_ids(recs@) =~= keys.push(peer_id@));
                    assert(record_views(recs@) =~= vals.push(after_rec));
                }
                Some(event)
            },
            Some(i) => {
                let event = if recs[i].liveness != Liveness::Active {
                    Some(
                        PeerEvent::Reconnected {
                            peer_id: peer_id.clone(),
                            metadata: metadata.clone(),
                        },
                    )
                } else if !recs[i].metadata.same_as(&metadata) {
                    Some(PeerEvent::Updated { peer_id: peer_id.clone(), metadata: metadata.clone() })
                } else {
                    None
                };
                recs[i].metadata = metadata;
                recs[i].liveness = Liveness::Active;
                recs[i].last_seen = now;
                recs[i].address = address;
                proof {
                    lemma_assoc_update(keys, vals, i as int, after_rec);
                    assert(record_ids(recs@) =~= keys);
                    assert(record_views(recs@) =~= vals.update(i as int, after_rec));
                }
                event
            },
        };
        self.records = recs;
        event
    }

    /// Records the return of a peer that was stale or lost: it is active
    /// afterwards, and the event is `Reconnected`. For a peer that is unknown
    /// or active nothing changes and there is no event.
    pub fn record_reconnected(
        &mut self,
        peer_id: String,
        metadata: PeerMetadata,
        address: String,
        now: u64,
    ) -> (event: Option<PeerEvent>)
        ensures
            final(self)@ == reconnected_state(old(self)@, peer_id@, metadata@, address@, now),
            event.deep_view() == reconnected_event(old(self)@, peer_id@, metadata@),
    {
        match self.liveness_of(&peer_id) {
            Some(Liveness::Stale) | Some(Liveness::Lost) => self.record_seen(
                peer_id,
                metadata,
                address,
                now,
            ),
            _ => None,
        }
    }

    fn set_liveness(&mut self, i: usize, liveness: Liveness)
        requires
            i < old(self).records.len(),
        ensures
            final(self)@ == old(self)@.insert(
                old(self).records[i as int].peer_id@,
                with_liveness(old(self).records[i as int]@, liveness),
            ),
            final(self).records.len() == old(self).records.len(),
    {
        proof {
            use_type_invariant(&*self);
        }
        let mut recs: Vec<PeerRecord> = Vec::new();
        std::mem::swap(&mut recs, &mut self.records);
        let ghost keys = record_ids(recs@);
        let ghost vals = record_views(recs@);
        recs[i].liveness = liveness;
        proof {
            let r = with_liveness(vals[i as int], liveness);
            lemma_assoc_update(keys, vals, i as int, r);
            assert(record_ids(recs@) =~= keys);
            assert(record_views(recs@) =~= vals.update(i as int, r));
        }
        self.records = recs;
    }

    /// Demotes an active peer to stale. No event: staleness is internal.
    /// Returns whether the peer was active.
    pub fn mark_stale(&mut self, peer_id: &String) -> (changed: bool)
        ensures
            final(self)@ == stale_state(old(self)@, peer_id@),
            changed == can_go_stale(old(self)@, peer_id@),
    {
        proof {
            use_type_invariant(&*self);
        }
        match self.find(peer_id) {
            Some(i) => {
                if self.records[i].liveness == Liveness::Active {
                    self.set_liveness(i, Liveness::Stale);
                    true
                } else {
                    false
                }
            },
            None => false,
        }
    }

    /// Declares a stale peer lost: it is no longer listed, and the event is
    /// `Left`. For a peer that is not stale nothing changes and there is no
    /// event.
    pub fn mark_lost(&mut self, peer_id: &String) -> (event: Option<PeerEvent>)
        ensures
            final(self)@ == lost_state(old(self)@, peer_id@),
            event.deep_view() == lost_event(old(self)@, peer_id@),
    {
        proof {
            use_type_invariant(&*self);
        }
        match self.find(peer_id) {
            Some(i) => {
                if self.records[i].liveness == Liveness::Stale {
                    self.set_liveness(i, Liveness::Lost);
                    Some(PeerEvent::Left { peer_id: peer_id.clone() })
                } else {
                    None
                }
            },
            None => None,
        }
    }

    /// The listed peers at this moment, each once, as copies that share
    /// nothing with the registry.
    pub fn snapshot(&self) -> (peers: Vec<PeerInfo>)
        ensures
            is_snapshot(peers.deep_view(), self@),
    {
        proof {
            use_type_invariant(self);
        }
        let ghost keys = record_ids(self.records@);
        let ghost vs = record_views(self.records@);
        let ghost mut src: Seq<int> = Seq::empty();
        let mut peers: Vec<PeerInfo> = Vec::new();
        let mut i: usize = 0;
        while i < self.records.len()
            invariant
                i <= self.records.len(),
                vs == record_views(self.records@),
                src.len() == peers.len(),
                forall|k: int|
                    0 <= k < peers.len() ==> 0 <= #[trigger] src[k] < i && peers[k].id@
                        == vs[src[k]].peer_id && peers[k].metadata@ == vs[src[k]].metadata
                        && vs[src[k]].liveness != Liveness::Lost,
                forall|k: int, l: int| 0 <= k < l < peers.len() ==> #[trigger] src[k] < #[trigger] src[l],
                forall|j: int|
                    0 <= j < i && (#[trigger] vs[j]).liveness != Liveness::Lost ==> exists|k: int|
                        0 <= k < peers.len() && #[trigger] src[k] == j,
            decreases self.records.len() - i,
        {
            assert(vs[i as int] == self.records[i as int]@);
            if self.records[i].liveness != Liveness::Lost {
                let ghost old_src = src;
                let ghost old_len = peers.len() as int;
                peers.push(
                    PeerInfo {
                        id: self.records[i].peer_id.clone(),
                        metadata: self.records[i].metadata.clone(),
                    },
                );
                proof {
                    src = src.push(i as int);
                    assert forall|j: int|
                        0 <= j < i + 1 && (#[trigger] vs[j]).liveness
                            != Liveness::Lost implies exists|k: int|
                        0 <= k < peers.len() && #[trigger] src[k] == j by {
                        if j < i {
                            let k = choose|k: int| 0 <= k < old_len && #[trigger] old_src[k] == j;
                            assert(src[k] == j);
                        } else {
                            assert(src[old_len] == j);
                        }
                    }
                }
            }
            i = i + 1;
        }
        proof {
            let infos = peers.deep_view();
            assert forall|j: int| 0 <= j < keys.len() implies keys[j] == (#[trigger] vs[j]).peer_id by {}
            assert forall|k: int| 0 <= k < infos.len() implies listed(self@, (#[trigger] infos[k]).id)
                && infos[k].metadata == self@[infos[k].id].metadata by {
                assert(infos[k] == peers[k]@);
                lemma_assoc_at(keys, vs, src[k]);
            }
            assert forall|k: int, l: int| 0 <= k < l < infos.len() implies (#[trigger] infos[k]).id != (
            #[trigger] infos[l]).id by {
                assert(infos[k] == peers[k]@ && infos[l] == peers[l]@);
                assert(src[k] < src[l]);
                assert(keys[src[k]] != keys[src[l]]);
            }
            assert forall|id: Seq<char>| listed(self@, id) implies exists|k: int|
                0 <= k < infos.len() && (#[trigger] infos[k]).id == id by {
                let j = index_of(keys, id);
                lemma_assoc_at(keys, vs, j);
                assert(vs[j].liveness != Liveness::Lost);
                let k = choose|k: int| 0 <= k < peers.len() && #[trigger] src[k] == j;
                assert(infos[k] == peers[k]@);
                assert(infos[k].id == id);
            }
        }
        peers
    }

    /// One health check at `now`. An active peer silent for more than
    /// `t_stale` becomes stale, silently; a stale peer silent for more than
    /// `t_lost` becomes lost, with a `Left` event. The events hold one `Left`
    /// for each peer lost by this check, and nothing else.
    pub fn health_check(&mut self, now: u64, t_stale: u64, t_lost: u64) -> (events: Vec<PeerEvent>)
        ensures
            final(self)@ == health_state(old(self)@, now, t_stale, t_lost),
            is_health_report(events.deep_view(), old(self)@, now, t_lost),
    {
        proof {
            use_type_invariant(&*self);
        }
        let mut recs: Vec<PeerRecord> = Vec::new();
        std::mem::swap(&mut recs, &mut self.records);
        let ghost keys = record_ids(recs@);
        let ghost vs = record_views(recs@);
        let ghost mut src: Seq<int> = Seq::empty();
        let mut events: Vec<PeerEvent> = Vec::new();
        let mut i: usize = 0;
        while i < recs.len()
            invariant
                i <= recs.len(),
                recs.len() == vs.len(),
                keys == record_ids(recs@),
                forall|j: int| 0 <= j < vs.len() ==> keys[j] == (#[trigger] vs[j]).peer_id,
                forall|j: int|
                    0 <= j < i ==> (#[trigger] recs[j])@ == decayed(vs[j], now, t_stale, t_lost),
                forall|j: int| i <= j < recs.len() ==> (#[trigger] recs[j])@ == vs[j],
                src.len() == events.len(),
                forall|k: int|
                    0 <= k < events.len() ==> 0 <= #[trigger] src[k] < i && times_out(
                        vs[src[k]],
                        now,
                        t_lost,
                    ) && events[k]@ == (PeerEventView::Left { peer_id: vs[src[k]].peer_id }),
                forall|k: int, l: int| 0 <= k < l < events.len() ==> #[trigger] src[k] < #[trigger] src[l],
                forall|j: int|
                    0 <= j < i && times_out(#[trigger] vs[j], now, t_lost) ==> exists|k: int|
                        0 <= k < events.len() && #[trigger] src[k] == j,
            decreases recs.len() - i,
        {
            let silent = if now > recs[i].last_seen {
                now - recs[i].last_seen
            } else {
                0
            };
            let ghost old_src = src;
            let ghost old_len = events.len() as int;
            assert(recs[i as int]@ == vs[i as int]);
            if recs[i].liveness == Liveness::Active && silent > t_stale {
                recs[i].liveness = Liveness::Stale;
            } else if recs[i].liveness == Liveness::Stale && silent > t_lost {
                recs[i].liveness = Liveness::Lost;
                events.push(PeerEvent::Left { peer_id: recs[i].peer_id.clone() });
                proof {
                    src = src.push(i as int);
                }
            }
            proof {
                assert(record_ids(recs@) =~= keys);
                assert forall|j: int|
                    0 <= j < i + 1 && times_out(#[trigger] vs[j], now, t_lost) implies exists|k: int|
                    0 <= k < events.len() && #[trigger] src[k] == j by {
                    if j < i {
                        let k = choose|k: int| 0 <= k < old_len && #[trigger] old_src[k] == j;
                        assert(src[k] == j);
                    } else {
                        assert(src[old_len] == j);
                    }
                }
            }
            i = i + 1;
        }
        proof {
            let ws = record_views(recs@);
            let before = assoc(keys, vs);
            assert forall|id: Seq<char>| before.contains_key(id) implies assoc(keys, ws)[id]
                == decayed(before[id], now, t_stale, t_lost) by {
                let j = index_of(keys, id);
                lemma_assoc_at(keys, vs, j);
                lemma_assoc_at(keys, ws, j);
                assert(ws[j] == recs[j]@);
            }
            assert(assoc(keys, ws) =~= health_state(before, now, t_stale, t_lost));
            let report = events.deep_view();
            assert forall|k: int| 0 <= k < report.len() implies (#[trigger] report[k]) is Left
                && health_drops(before, report[k].peer_id(), now, t_lost) by {
                assert(report[k] == events[k]@);
                lemma_assoc_at(keys, vs, src[k]);
            }
            assert forall|k: int, l: int| 0 <= k < l < report.len() implies (#[trigger] report[k]).peer_id() != (
            #[trigger] report[l]).peer_id() by {
                assert(report[k] == events[k]@ && report[l] == events[l]@);
                assert(src[k] < src[l]);
                assert(keys[src[k]] != keys[src[l]]);
            }
            assert forall|id: Seq<char>| health_drops(before, id, now, t_lost) implies exists|k: int|
                0 <= k < report.len() && #[trigger] report[k] == (PeerEventView::Left {
                    peer_id: id,
                }) by {
                let j = index_of(keys, id);
                lemma_assoc_at(keys, vs, j);
                let k = choose|k: int| 0 <= k < events.len() && #[trigger] src[k] == j;
                assert(report[k] == events[k]@);
            }
            assert(is_health_report(report, before, now, t_lost));
        }
        self.records = recs;
        events
    }
}

} // verus!
