//! The presence state machine as mathematics: the registry is a map from peer
//! identifier to record, and every stimulus is a function on that map.

use crate::peer::{Liveness, PeerEventView, PeerInfoView, PeerMetadataView, PeerRecordView};
use vstd::prelude::*;

verus! {

/// The registry's mathematical value: every peer ever heard from, by identifier.
pub type Registry = Map<Seq<char>, PeerRecordView>;

/// The record of a peer that has just been heard from.
pub open spec fn active_record(
    peer_id: Seq<char>,
    metadata: PeerMetadataView,
    address: Seq<char>,
    now: u64,
) -> PeerRecordView {
    PeerRecordView { peer_id, metadata, liveness: Liveness::Active, last_seen: now, address }
}

/// A peer the shell is shown: known and not lost.
pub open spec fn listed(m: Registry, peer_id: Seq<char>) -> bool {
    m.contains_key(peer_id) && m[peer_id].liveness != Liveness::Lost
}

/// A peer whose next broadcast is a return rather than news: known but stale
/// or lost.
pub open spec fn awaits_return(m: Registry, peer_id: Seq<char>) -> bool {
    m.contains_key(peer_id) && m[peer_id].liveness != Liveness::Active
}

/// The registry after a broadcast from `peer_id`: whatever was known before,
/// the peer is now active with what the broadcast carried.
pub open spec fn seen_state(
    m: Registry,
    peer_id: Seq<char>,
    metadata: PeerMetadataView,
    address: Seq<char>,
    now: u64,
) -> Registry {
    m.insert(peer_id, active_record(peer_id, metadata, address, now))
}

/// The event that a broadcast from `peer_id` gives rise to: `Joined` on first
/// contact, `Reconnected` for a stale or lost peer, `Updated` for an active
/// peer whose metadata changed, and none for an active peer that only
/// refreshed its timestamp or address.
pub open spec fn seen_event(m: Registry, peer_id: Seq<char>, metadata: PeerMetadataView) -> Option<
    PeerEventView,
> {
    if !m.contains_key(peer_id) {
        Some(PeerEventView::Joined { peer_id, metadata })
    } else if m[peer_id].liveness != Liveness::Active {
        Some(PeerEventView::Reconnected { peer_id, metadata })
    } else if m[peer_id].metadata != metadata {
        Some(PeerEventView::Updated { peer_id, metadata })
    } else {
        None
    }
}

/// The registry after a return is recorded for `peer_id`: a stale or lost peer
/// becomes active; anything else is left alone.
pub open spec fn reconnected_state(
    m: Registry,
    peer_id: Seq<char>,
    metadata: PeerMetadataView,
    address: Seq<char>,
    now: u64,
) -> Registry {
    if awaits_return(m, peer_id) {
        seen_state(m, peer_id, metadata, address, now)
    } else {
        m
    }
}

/// The event of a recorded return: `Reconnected` exactly when the peer was
/// stale or lost.
pub open spec fn reconnected_event(
    m: Registry,
    peer_id: Seq<char>,
    metadata: PeerMetadataView,
) -> Option<PeerEventView> {
    if awaits_return(m, peer_id) {
        Some(PeerEventView::Reconnected { peer_id, metadata })
    } else {
        None
    }
}

/// `r` with another liveness.
pub open spec fn with_liveness(r: PeerRecordView, liveness: Liveness) -> PeerRecordView {
    PeerRecordView { liveness, ..r }
}

/// Whether `peer_id` can be demoted to stale: it is known and active.
pub open spec fn can_go_stale(m: Registry, peer_id: Seq<char>) -> bool {
    m.contains_key(peer_id) && m[peer_id].liveness == Liveness::Active
}

/// The registry after `peer_id` is demoted to stale.
pub open spec fn stale_state(m: Registry, peer_id: Seq<char>) -> Registry {
    if can_go_stale(m, peer_id) {
        m.insert(peer_id, with_liveness(m[peer_id], Liveness::Stale))
    } else {
        m
    }
}

/// Whether `peer_id` can be declared lost: it is known and stale.
pub open spec fn can_be_lost(m: Registry, peer_id: Seq<char>) -> bool {
    m.contains_key(peer_id) && m[peer_id].liveness == Liveness::Stale
}

/// The registry after `peer_id` is declared lost.
pub open spec fn lost_state(m: Registry, peer_id: Seq<char>) -> Registry {
    if can_be_lost(m, peer_id) {
        m.insert(peer_id, with_liveness(m[peer_id], Liveness::Lost))
    } else {
        m
    }
}

/// The event of declaring `peer_id` lost: `Left` exactly when it was stale.
pub open spec fn lost_event(m: Registry, peer_id: Seq<char>) -> Option<PeerEventView> {
    if can_be_lost(m, peer_id) {
        Some(PeerEventView::Left { peer_id })
    } else {
        None
    }
}

/// More than `limit` has passed between `last_seen` and `now`. A `last_seen`
/// that lies after `now` counts as no time passed.
pub open spec fn silent_for_more_than(now: u64, last_seen: u64, limit: u64) -> bool {
    now - last_seen > limit
}

/// An active record that a health check at `now` demotes to stale.
pub open spec fn goes_stale(r: PeerRecordView, now: u64, t_stale: u64) -> bool {
    r.liveness == Liveness::Active && silent_for_more_than(now, r.last_seen, t_stale)
}

/// A stale record that a health check at `now` declares lost.
pub open spec fn times_out(r: PeerRecordView, now: u64, t_lost: u64) -> bool {
    r.liveness == Liveness::Stale && silent_for_more_than(now, r.last_seen, t_lost)
}

/// One record after a health check at `now`. A record takes at most one step
/// per check, judged by its liveness when the check begins.
pub open spec fn decayed(r: PeerRecordView, now: u64, t_stale: u64, t_lost: u64) -> PeerRecordView {
    if goes_stale(r, now, t_stale) {
        with_liveness(r, Liveness::Stale)
    } else if times_out(r, now, t_lost) {
        with_liveness(r, Liveness::Lost)
    } else {
        r
    }
}

/// The registry after a health check at `now`.
pub open spec fn health_state(m: Registry, now: u64, t_stale: u64, t_lost: u64) -> Registry {
    Map::new(
        |id: Seq<char>| m.contains_key(id),
        |id: Seq<char>| decayed(m[id], now, t_stale, t_lost),
    )
}

/// Whether a health check at `now` emits `Left` for `peer_id`.
pub open spec fn health_drops(m: Registry, peer_id: Seq<char>, now: u64, t_lost: u64) -> bool {
    m.contains_key(peer_id) && times_out(m[peer_id], now, t_lost)
}

/// `events` is what a health check at `now` reports of registry `m`: one
/// `Left` for each peer that the check declares lost, and nothing else.
pub open spec fn is_health_report(
    events: Seq<PeerEventView>,
    m: Registry,
    now: u64,
    t_lost: u64,
) -> bool {
    &&& forall|k: int|
        0 <= k < events.len() ==> (#[trigger] events[k]) is Left && health_drops(
            m,
            events[k].peer_id(),
            now,
            t_lost,
        )
    &&& forall|k: int, l: int|
        0 <= k < l < events.len() ==> (#[trigger] events[k]).peer_id() != (
        #[trigger] events[l]).peer_id()
    &&& forall|id: Seq<char>|
        health_drops(m, id, now, t_lost) ==> exists|k: int|
            0 <= k < events.len() && #[trigger] events[k] == (PeerEventView::Left { peer_id: id })
}

/// `peers` is a snapshot of registry `m`: every listed peer once, with the
/// metadata the registry has for it, and no one else.
pub open spec fn is_snapshot(peers: Seq<PeerInfoView>, m: Registry) -> bool {
    &&& forall|k: int|
        0 <= k < peers.len() ==> listed(m, (#[trigger] peers[k]).id) && peers[k].metadata
            == m[peers[k].id].metadata
    &&& forall|k: int, l: int|
        0 <= k < l < peers.len() ==> (#[trigger] peers[k]).id != (#[trigger] peers[l]).id
    &&& forall|id: Seq<char>|
        listed(m, id) ==> exists|k: int| 0 <= k < peers.len() && (#[trigger] peers[k]).id == id
}

/// What the shell is shown of the registry: the listed peers with their
/// metadata. Liveness, timestamps and addresses are internal.
pub open spec fn shown(m: Registry) -> Map<Seq<char>, PeerMetadataView> {
    Map::new(|id: Seq<char>| listed(m, id), |id: Seq<char>| m[id].metadata)
}

/// No change of what the shell is shown goes without its event: a broadcast
/// that gives no event leaves the shown peers as they were, and a health
/// check takes from them exactly the peers it reports as `Left`, and changes
/// nothing else.
pub proof fn law_no_change_without_event(
    m: Registry,
    peer_id: Seq<char>,
    metadata: PeerMetadataView,
    address: Seq<char>,
    now: u64,
    t_stale: u64,
    t_lost: u64,
)
    ensures
        seen_event(m, peer_id, metadata) is None ==> shown(
            seen_state(m, peer_id, metadata, address, now),
        ) == shown(m),
        reconnected_event(m, peer_id, metadata) is None ==> reconnected_state(
            m,
            peer_id,
            metadata,
            address,
            now,
        ) == m,
        lost_event(m, peer_id) is None ==> lost_state(m, peer_id) == m,
        shown(stale_state(m, peer_id)) == shown(m),
        shown(health_state(m, now, t_stale, t_lost)) == shown(m).remove_keys(
            Set::new(|id: Seq<char>| health_drops(m, id, now, t_lost)),
        ),
{
    assert(seen_event(m, peer_id, metadata) is None ==> shown(
        seen_state(m, peer_id, metadata, address, now),
    ) =~= shown(m));
    assert(shown(stale_state(m, peer_id)) =~= shown(m));
    assert(shown(health_state(m, now, t_stale, t_lost)) =~= shown(m).remove_keys(
        Set::new(|id: Seq<char>| health_drops(m, id, now, t_lost)),
    ));
}

/// How often `e` occurs in `events`.
pub open spec fn occurrences(events: Seq<PeerEventView>, e: PeerEventView) -> nat
    decreases events.len(),
{
    if events.len() == 0 {
        0
    } else {
        occurrences(events.drop_first(), e) + if events[0] == e {
            1nat
        } else {
            0nat
        }
    }
}

proof fn lemma_occurrences_among_distinct(events: Seq<PeerEventView>, e: PeerEventView)
    requires
        forall|k: int, l: int|
            0 <= k < l < events.len() ==> (#[trigger] events[k]).peer_id() != (
            #[trigger] events[l]).peer_id(),
    ensures
        occurrences(events, e) == if exists|k: int| 0 <= k < events.len() && #[trigger] events[k] == e {
            1nat
        } else {
            0nat
        },
    decreases events.len(),
{
    if events.len() > 0 {
        let rest = events.drop_first();
        assert forall|k: int, l: int| 0 <= k < l < rest.len() implies (#[trigger] rest[k]).peer_id() != (
        #[trigger] rest[l]).peer_id() by {
            assert(rest[k] == events[k + 1] && rest[l] == events[l + 1]);
        }
        lemma_occurrences_among_distinct(rest, e);
        if events[0] == e {
            assert forall|k: int| 0 <= k < rest.len() implies #[trigger] rest[k] != e by {
                assert(rest[k] == events[k + 1]);
                assert(events[0].peer_id() != events[k + 1].peer_id());
            }
        } else {
            if exists|k: int| 0 <= k < events.len() && #[trigger] events[k] == e {
                let k = choose|k: int| 0 <= k < events.len() && #[trigger] events[k] == e;
                assert(rest[k - 1] == e);
            }
            if exists|k: int| 0 <= k < rest.len() && #[trigger] rest[k] == e {
                let k = choose|k: int| 0 <= k < rest.len() && #[trigger] rest[k] == e;
                assert(events[k + 1] == e);
            }
        }
    }
}

/// A health report holds `Left` for a peer once if the check declares the
/// peer lost, and not at all otherwise: what the report says of one peer is
/// what [`event_about`] says.
pub proof fn law_health_report_says_left_once(
    events: Seq<PeerEventView>,
    m: Registry,
    now: u64,
    t_stale: u64,
    t_lost: u64,
    peer_id: Seq<char>,
)
    requires
        is_health_report(events, m, now, t_lost),
    ensures
        occurrences(events, PeerEventView::Left { peer_id }) == if event_about(
            m,
            Stimulus::HealthCheck { now, t_stale, t_lost },
            peer_id,
        ) is Some {
            1nat
        } else {
            0nat
        },
        forall|k: int| 0 <= k < events.len() ==> (#[trigger] events[k]) is Left,
{
    let e = PeerEventView::Left { peer_id };
    lemma_occurrences_among_distinct(events, e);
    if exists|k: int| 0 <= k < events.len() && #[trigger] events[k] == e {
        let k = choose|k: int| 0 <= k < events.len() && #[trigger] events[k] == e;
        assert(health_drops(m, events[k].peer_id(), now, t_lost));
    }
}

/// Something that happens to the registry.
pub enum Stimulus {
    /// A broadcast from a peer arrives.
    Broadcast { peer_id: Seq<char>, metadata: PeerMetadataView, address: Seq<char>, now: u64 },
    /// The health monitor runs.
    HealthCheck { now: u64, t_stale: u64, t_lost: u64 },
}

/// The four kinds of presence event.
pub enum EventKind {
    Joined,
    Left,
    Updated,
    Reconnected,
}

/// The kind of an event.
pub open spec fn kind_of(e: PeerEventView) -> EventKind {
    match e {
        PeerEventView::Joined { .. } => EventKind::Joined,
        PeerEventView::Left { .. } => EventKind::Left,
        PeerEventView::Updated { .. } => EventKind::Updated,
        PeerEventView::Reconnected { .. } => EventKind::Reconnected,
    }
}

/// The registry after one stimulus.
pub open spec fn step(m: Registry, s: Stimulus) -> Registry {
    match s {
        Stimulus::Broadcast { peer_id, metadata, address, now } => seen_state(
            m,
            peer_id,
            metadata,
            address,
            now,
        ),
        Stimulus::HealthCheck { now, t_stale, t_lost } => health_state(m, now, t_stale, t_lost),
    }
}

/// The event about `peer_id`, if any, that one stimulus gives rise to.
pub open spec fn event_about(m: Registry, s: Stimulus, peer_id: Seq<char>) -> Option<PeerEventView> {
    match s {
        Stimulus::Broadcast { peer_id: from, metadata, .. } => if from == peer_id {
            seen_event(m, peer_id, metadata)
        } else {
            None
        },
        Stimulus::HealthCheck { now, t_lost, .. } => if health_drops(m, peer_id, now, t_lost) {
            Some(PeerEventView::Left { peer_id })
        } else {
            None
        },
    }
}

/// The registry after a sequence of stimuli, first to last.
pub open spec fn run(m: Registry, trace: Seq<Stimulus>) -> Registry
    decreases trace.len(),
{
    if trace.len() == 0 {
        m
    } else {
        run(step(m, trace[0]), trace.drop_first())
    }
}

/// The events about `peer_id` that a sequence of stimuli gives rise to, in order.
pub open spec fn events_about(m: Registry, trace: Seq<Stimulus>, peer_id: Seq<char>) -> Seq<
    PeerEventView,
>
    decreases trace.len(),
{
    if trace.len() == 0 {
        Seq::empty()
    } else {
        let rest = events_about(step(m, trace[0]), trace.drop_first(), peer_id);
        match event_about(m, trace[0], peer_id) {
            Some(e) => seq![e] + rest,
            None => rest,
        }
    }
}

/// How many of `events` are of `kind`.
pub open spec fn count_kind(events: Seq<PeerEventView>, kind: EventKind) -> nat
    decreases events.len(),
{
    if events.len() == 0 {
        0
    } else {
        count_kind(events.drop_first(), kind) + if kind_of(events[0]) == kind {
            1nat
        } else {
            0nat
        }
    }
}

/// A stimulus that is not a broadcast from `peer_id`.
pub open spec fn silent_about(s: Stimulus, peer_id: Seq<char>) -> bool {
    s matches Stimulus::Broadcast { peer_id: from, .. } ==> from != peer_id
}

/// A stimulus that is not a broadcast from `peer_id` with metadata other than
/// `metadata`.
pub open spec fn repeats(s: Stimulus, peer_id: Seq<char>, metadata: PeerMetadataView) -> bool {
    s matches Stimulus::Broadcast { peer_id: from, metadata: carried, .. } ==> from == peer_id
        ==> carried == metadata
}

proof fn lemma_count_cons(e: PeerEventView, rest: Seq<PeerEventView>, kind: EventKind)
    ensures
        count_kind(seq![e] + rest, kind) == count_kind(rest, kind) + if kind_of(e) == kind {
            1nat
        } else {
            0nat
        },
{
    assert((seq![e] + rest).drop_first() =~= rest);
}

/// However the broadcasts of a peer are interleaved with health checks and
/// with the broadcasts of others: as long as the peer's broadcasts all carry
/// the metadata that the registry has for it (or the registry has none yet),
/// the registry emits `Joined` for it at most once, only if it was unknown,
/// and never `Updated`.
pub proof fn law_unchanged_metadata_is_quiet(
    m: Registry,
    trace: Seq<Stimulus>,
    peer_id: Seq<char>,
    metadata: PeerMetadataView,
)
    requires
        m.contains_key(peer_id) ==> m[peer_id].metadata == metadata,
        forall|i: int| 0 <= i < trace.len() ==> repeats(#[trigger] trace[i], peer_id, metadata),
    ensures
        count_kind(events_about(m, trace, peer_id), EventKind::Joined) <= 1,
        m.contains_key(peer_id) ==> count_kind(events_about(m, trace, peer_id), EventKind::Joined)
            == 0,
        count_kind(events_about(m, trace, peer_id), EventKind::Updated) == 0,
    decreases trace.len(),
{
    if trace.len() > 0 {
        let s = trace[0];
        let rest = trace.drop_first();
        let m1 = step(m, s);
        assert(repeats(s, peer_id, metadata));
        assert forall|i: int| 0 <= i < rest.len() implies repeats(
            #[trigger] rest[i],
            peer_id,
            metadata,
        ) by {
            assert(rest[i] == trace[i + 1]);
        }
        assert(m1.contains_key(peer_id) ==> m1[peer_id].metadata == metadata);
        law_unchanged_metadata_is_quiet(m1, rest, peer_id, metadata);
        let tail = events_about(m1, rest, peer_id);
        match event_about(m, s, peer_id) {
            Some(e) => {
                lemma_count_cons(e, tail, EventKind::Joined);
                lemma_count_cons(e, tail, EventKind::Updated);
                assert(m1.contains_key(peer_id));
            },
            None => {},
        }
    }
}

/// While a peer sends nothing, whatever else happens, the registry emits no
/// event about it but `Left`, and `Left` exactly once if the peer was listed
/// before and is lost after, else not at all. Its next broadcast after the
/// loss is answered with `Reconnected`, not with `Joined`.
pub proof fn law_silent_peer_leaves_once(m: Registry, trace: Seq<Stimulus>, peer_id: Seq<char>)
    requires
        forall|i: int| 0 <= i < trace.len() ==> silent_about(#[trigger] trace[i], peer_id),
    ensures
        run(m, trace).contains_key(peer_id) == m.contains_key(peer_id),
        listed(run(m, trace), peer_id) ==> listed(m, peer_id),
        count_kind(events_about(m, trace, peer_id), EventKind::Left) == if listed(m, peer_id)
            && !listed(run(m, trace), peer_id) {
            1nat
        } else {
            0nat
        },
        count_kind(events_about(m, trace, peer_id), EventKind::Joined) == 0,
        count_kind(events_about(m, trace, peer_id), EventKind::Updated) == 0,
        count_kind(events_about(m, trace, peer_id), EventKind::Reconnected) == 0,
        forall|metadata: PeerMetadataView|
            listed(m, peer_id) && !listed(run(m, trace), peer_id) ==> #[trigger] seen_event(
                run(m, trace),
                peer_id,
                metadata,
            ) == Some(PeerEventView::Reconnected { peer_id, metadata }),
    decreases trace.len(),
{
    if trace.len() > 0 {
        let s = trace[0];
        let rest = trace.drop_first();
        let m1 = step(m, s);
        assert(silent_about(s, peer_id));
        assert forall|i: int| 0 <= i < rest.len() implies silent_about(#[trigger] rest[i], peer_id) by {
            assert(rest[i] == trace[i + 1]);
        }
        law_silent_peer_leaves_once(m1, rest, peer_id);
        let tail = events_about(m1, rest, peer_id);
        match event_about(m, s, peer_id) {
            Some(e) => {
                lemma_count_cons(e, tail, EventKind::Joined);
                lemma_count_cons(e, tail, EventKind::Updated);
                lemma_count_cons(e, tail, EventKind::Reconnected);
                lemma_count_cons(e, tail, EventKind::Left);
            },
            None => {},
        }
    }
}

/// An active peer that stays silent is lost after two health checks, the
/// first later than `t_stale` and the second later than `t_lost` after its
/// last broadcast, and the second emits the one `Left`.
pub proof fn law_silence_leads_to_loss(
    m: Registry,
    peer_id: Seq<char>,
    first: u64,
    second: u64,
    t_stale: u64,
    t_lost: u64,
)
    requires
        m.contains_key(peer_id),
        m[peer_id].liveness == Liveness::Active,
        silent_for_more_than(first, m[peer_id].last_seen, t_stale),
        silent_for_more_than(second, m[peer_id].last_seen, t_lost),
    ensures
        ({
            let one = Stimulus::HealthCheck { now: first, t_stale, t_lost };
            let two = Stimulus::HealthCheck { now: second, t_stale, t_lost };
            &&& event_about(m, one, peer_id) is None
            &&& step(m, one)[peer_id].liveness == Liveness::Stale
            &&& event_about(step(m, one), two, peer_id) == Some(PeerEventView::Left { peer_id })
            &&& step(step(m, one), two)[peer_id].liveness == Liveness::Lost
            &&& !listed(step(step(m, one), two), peer_id)
        }),
{
}

} // verus!
