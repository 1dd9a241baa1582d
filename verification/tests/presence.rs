use lanchat::peer::{peer_event_name, Liveness, PeerEvent, PeerInfo, PeerMetadata};
use lanchat::registry::PeerMap;

fn meta(name: &str) -> PeerMetadata {
    PeerMetadata::new(name.to_string(), 1)
}

fn id(s: &str) -> String {
    s.to_string()
}

fn addr() -> String {
    "10.0.0.5:6767".to_string()
}

#[test]
fn first_broadcast_joins() {
    let mut peers = PeerMap::new();
    let event = peers.record_seen(id("A"), meta("Alice"), addr(), 0);
    assert_eq!(event, Some(PeerEvent::Joined { peer_id: id("A"), metadata: meta("Alice") }));
    assert!(peers.knows(&id("A")));
    assert_eq!(peers.liveness_of(&id("A")), Some(Liveness::Active));
    let record = peers.get(&id("A")).unwrap();
    assert_eq!(record.peer_id, "A");
    assert_eq!(record.metadata, meta("Alice"));
    assert_eq!(record.last_seen, 0);
    assert_eq!(record.address, "10.0.0.5:6767");
}

#[test]
fn repeated_broadcast_is_silent_but_refreshes() {
    let mut peers = PeerMap::new();
    peers.record_seen(id("A"), meta("Alice"), addr(), 0);
    let event = peers.record_seen(id("A"), meta("Alice"), "10.0.0.9:6767".to_string(), 7);
    assert_eq!(event, None);
    let record = peers.get(&id("A")).unwrap();
    assert_eq!(record.last_seen, 7);
    assert_eq!(record.address, "10.0.0.9:6767");
}

#[test]
fn unchanged_metadata_gives_one_joined_and_no_updated() {
    let mut peers = PeerMap::new();
    let mut joined = 0;
    let mut updated = 0;
    for now in 0..20u64 {
        match peers.record_seen(id("A"), meta("Alice"), addr(), now) {
            Some(PeerEvent::Joined { .. }) => joined += 1,
            Some(PeerEvent::Updated { .. }) => updated += 1,
            _ => {}
        }
        if now % 3 == 0 {
            peers.health_check(now, 3, 9);
        }
    }
    assert_eq!(joined, 1);
    assert_eq!(updated, 0);
}

#[test]
fn stream_with_rename_gives_joined_then_updated() {
    let t_stale = 3;
    let t_lost = 9;
    let mut peers = PeerMap::new();
    let mut events: Vec<PeerEvent> = Vec::new();
    events.extend(peers.record_seen(id("A"), meta("Alice"), addr(), 0));
    events.extend(peers.record_seen(id("A"), meta("Alice"), addr(), 1));
    for now in 2..5u64 {
        events.extend(peers.health_check(now, t_stale, t_lost));
    }
    events.extend(peers.record_seen(id("A"), meta("Alicia"), addr(), 5));
    assert_eq!(
        events,
        vec![
            PeerEvent::Joined { peer_id: id("A"), metadata: meta("Alice") },
            PeerEvent::Updated { peer_id: id("A"), metadata: meta("Alicia") },
        ]
    );
}

#[test]
fn silence_gives_one_left_then_reconnected() {
    let t_stale = 3;
    let t_lost = 9;
    let mut peers = PeerMap::new();
    peers.record_seen(id("A"), meta("Alice"), addr(), 0);
    let mut lefts = 0;
    for now in 1..40u64 {
        for event in peers.health_check(now, t_stale, t_lost) {
            assert_eq!(event, PeerEvent::Left { peer_id: id("A") });
            lefts += 1;
        }
    }
    assert_eq!(lefts, 1);
    assert_eq!(peers.liveness_of(&id("A")), Some(Liveness::Lost));
    assert!(peers.snapshot().is_empty());
    let event = peers.record_seen(id("A"), meta("Alice"), addr(), 40);
    assert_eq!(event, Some(PeerEvent::Reconnected { peer_id: id("A"), metadata: meta("Alice") }));
    assert_eq!(peers.liveness_of(&id("A")), Some(Liveness::Active));
}

#[test]
fn health_check_takes_one_step_at_a_time() {
    let mut peers = PeerMap::new();
    peers.record_seen(id("A"), meta("Alice"), addr(), 0);
    // Exactly at the limit nothing happens: the silence must be longer.
    assert!(peers.health_check(3, 3, 9).is_empty());
    assert_eq!(peers.liveness_of(&id("A")), Some(Liveness::Active));
    assert!(peers.health_check(100, 3, 9).is_empty());
    assert_eq!(peers.liveness_of(&id("A")), Some(Liveness::Stale));
    assert_eq!(peers.health_check(100, 3, 9), vec![PeerEvent::Left { peer_id: id("A") }]);
    assert_eq!(peers.liveness_of(&id("A")), Some(Liveness::Lost));
    assert!(peers.health_check(200, 3, 9).is_empty());
}

#[test]
fn clock_behind_last_seen_counts_as_no_silence() {
    let mut peers = PeerMap::new();
    peers.record_seen(id("A"), meta("Alice"), addr(), 50);
    assert!(peers.health_check(10, 0, 0).is_empty());
    assert_eq!(peers.liveness_of(&id("A")), Some(Liveness::Active));
}

#[test]
fn stale_peer_returns_as_reconnected() {
    let mut peers = PeerMap::new();
    peers.record_seen(id("A"), meta("Alice"), addr(), 0);
    assert!(peers.mark_stale(&id("A")));
    assert!(!peers.mark_stale(&id("A")));
    let event = peers.record_seen(id("A"), meta("Alice"), addr(), 4);
    assert_eq!(event, Some(PeerEvent::Reconnected { peer_id: id("A"), metadata: meta("Alice") }));
}

#[test]
fn mark_lost_acts_on_stale_peers_only() {
    let mut peers = PeerMap::new();
    peers.record_seen(id("A"), meta("Alice"), addr(), 0);
    assert_eq!(peers.mark_lost(&id("A")), None);
    assert_eq!(peers.mark_lost(&id("B")), None);
    peers.mark_stale(&id("A"));
    assert_eq!(peers.mark_lost(&id("A")), Some(PeerEvent::Left { peer_id: id("A") }));
    assert_eq!(peers.mark_lost(&id("A")), None);
    assert!(!peers.mark_stale(&id("A")));
}

#[test]
fn record_reconnected_acts_on_stale_and_lost_peers_only() {
    let mut peers = PeerMap::new();
    assert_eq!(peers.record_reconnected(id("A"), meta("Alice"), addr(), 0), None);
    assert!(!peers.knows(&id("A")));
    peers.record_seen(id("A"), meta("Alice"), addr(), 0);
    assert_eq!(peers.record_reconnected(id("A"), meta("Bob"), addr(), 1), None);
    assert_eq!(peers.get(&id("A")).unwrap().metadata, meta("Alice"));
    peers.mark_stale(&id("A"));
    peers.mark_lost(&id("A"));
    assert_eq!(
        peers.record_reconnected(id("A"), meta("Bob"), addr(), 2),
        Some(PeerEvent::Reconnected { peer_id: id("A"), metadata: meta("Bob") })
    );
    assert_eq!(peers.get(&id("A")).unwrap().metadata, meta("Bob"));
    assert_eq!(peers.get(&id("A")).unwrap().last_seen, 2);
}

#[test]
fn snapshot_lists_active_and_stale_peers_once() {
    let mut peers = PeerMap::new();
    peers.record_seen(id("A"), meta("Alice"), addr(), 0);
    peers.record_seen(id("B"), meta("Bob"), addr(), 0);
    peers.record_seen(id("C"), meta("Carol"), addr(), 0);
    peers.record_seen(id("A"), meta("Alice"), addr(), 1);
    peers.mark_stale(&id("B"));
    peers.mark_stale(&id("C"));
    peers.mark_lost(&id("C"));
    let mut snapshot = peers.snapshot();
    snapshot.sort_by(|a, b| a.id.cmp(&b.id));
    assert_eq!(
        snapshot,
        vec![
            PeerInfo { id: id("A"), metadata: meta("Alice") },
            PeerInfo { id: id("B"), metadata: meta("Bob") },
        ]
    );
}

#[test]
fn snapshot_is_a_copy() {
    let mut peers = PeerMap::new();
    peers.record_seen(id("A"), meta("Alice"), addr(), 0);
    let mut snapshot = peers.snapshot();
    snapshot[0].metadata.display_name.push_str(" changed");
    assert_eq!(peers.snapshot(), vec![PeerInfo { id: id("A"), metadata: meta("Alice") }]);
}

#[test]
fn metadata_differs_by_name_or_version() {
    assert!(meta("Alice").same_as(&meta("Alice")));
    assert!(!meta("Alice").same_as(&meta("Bob")));
    assert!(!meta("Alice").same_as(&PeerMetadata::new("Alice".to_string(), 2)));
    let mut peers = PeerMap::new();
    peers.record_seen(id("A"), meta("Alice"), addr(), 0);
    let event = peers.record_seen(id("A"), PeerMetadata::new("Alice".to_string(), 2), addr(), 1);
    assert_eq!(
        event,
        Some(PeerEvent::Updated {
            peer_id: id("A"),
            metadata: PeerMetadata::new("Alice".to_string(), 2)
        })
    );
}

#[test]
fn presence_events_have_their_shell_names() {
    assert_eq!(
        peer_event_name(&PeerEvent::Joined { peer_id: id("A"), metadata: meta("Alice") }),
        "peer-connected"
    );
    assert_eq!(peer_event_name(&PeerEvent::Left { peer_id: id("A") }), "peer-disconnected");
    assert_eq!(
        peer_event_name(&PeerEvent::Updated { peer_id: id("A"), metadata: meta("Alice") }),
        "peer-updated"
    );
    assert_eq!(
        peer_event_name(&PeerEvent::Reconnected { peer_id: id("A"), metadata: meta("Alice") }),
        "peer-reconnected"
    );
}

#[test]
fn events_of_different_peers_do_not_mix() {
    let mut peers = PeerMap::new();
    peers.record_seen(id("A"), meta("Alice"), addr(), 0);
    peers.record_seen(id("B"), meta("Bob"), addr(), 10);
    peers.health_check(5, 3, 9);
    assert_eq!(peers.liveness_of(&id("A")), Some(Liveness::Stale));
    assert_eq!(peers.liveness_of(&id("B")), Some(Liveness::Active));
    let report = peers.health_check(10, 3, 9);
    assert_eq!(report, vec![PeerEvent::Left { peer_id: id("A") }]);
    assert_eq!(peers.snapshot(), vec![PeerInfo { id: id("B"), metadata: meta("Bob") }]);
}
