use lanchat::advertise::AdvertiseQueue;
use lanchat::commands::get_current_peers;
use lanchat::config::{
    ADVERTISE_INTERVAL_SECS, DISCOVERY_PORT, HEALTH_INTERVAL_SECS, T_LOST_SECS, T_STALE_SECS,
    WS_PORT,
};
use lanchat::discovery::{
    announce, handle_broadcast, should_broadcast, AdvertiseTrigger, Announcement, PROTOCOL_VERSION,
};
use lanchat::error::ChatError;
use lanchat::identity::PeerIdentity;
use lanchat::manager::{AppState, PeerManager, PeerNotifier};
use lanchat::peer::{PeerEvent, PeerInfo, PeerMetadata};
use lanchat::registry::PeerMap;

fn announcement(id: &str, name: &str) -> Announcement {
    Announcement {
        peer_id: id.to_string(),
        metadata: PeerMetadata::new(name.to_string(), 1),
        address: "10.0.0.5:6767".to_string(),
    }
}

#[test]
fn announcement_has_its_exact_bytes() {
    let a = Announcement {
        peer_id: "A".to_string(),
        metadata: PeerMetadata::new("Al".to_string(), 0x01020304),
        address: "h:1".to_string(),
    };
    let bytes = a.encode().unwrap();
    assert_eq!(
        bytes,
        vec![
            76, 67, 72, 84, 1, 2, 3, 4, 0, 0, 0, 1, 65, 0, 0, 0, 2, 65, 108, 0, 0, 0, 3, 104, 58,
            49
        ]
    );
    assert_eq!(Announcement::decode(&bytes), Ok(a));
}

#[test]
fn announcement_of_the_local_identity() {
    let identity = PeerIdentity::new("peer-1".to_string(), "Alice".to_string());
    let a = announce(&identity, "192.168.1.7:6767");
    assert_eq!(
        a,
        Announcement {
            peer_id: "peer-1".to_string(),
            metadata: PeerMetadata::new("Alice".to_string(), PROTOCOL_VERSION),
            address: "192.168.1.7:6767".to_string(),
        }
    );
    assert_eq!(PROTOCOL_VERSION, 1);
}

#[test]
fn malformed_broadcasts_are_rejected() {
    let good = announcement("A", "Alice").encode().unwrap();
    assert_eq!(Announcement::decode(&[]), Err(ChatError::Malformed));
    assert_eq!(Announcement::decode(b"hello world"), Err(ChatError::Malformed));
    assert_eq!(Announcement::decode(&good[..good.len() - 1]), Err(ChatError::Malformed));
    let mut trailing = good.clone();
    trailing.push(0);
    assert_eq!(Announcement::decode(&trailing), Err(ChatError::Malformed));
    let mut foreign = good.clone();
    foreign[3] = 85;
    assert_eq!(Announcement::decode(&foreign), Err(ChatError::Malformed));
    let anonymous = announcement("", "Alice");
    assert_eq!(anonymous.encode(), None);
    let bytes =
        vec![76, 67, 72, 84, 0, 0, 0, 1, 0, 0, 0, 0, 0, 0, 0, 1, 65, 0, 0, 0, 1, 66];
    assert_eq!(Announcement::decode(&bytes), Err(ChatError::Malformed));
}

#[test]
fn malformed_broadcast_leaves_the_registry_alone() {
    let mut peers = PeerMap::new();
    let local = "me".to_string();
    assert_eq!(handle_broadcast(&mut peers, &local, &[1, 2, 3], 0), Err(ChatError::Malformed));
    assert!(peers.snapshot().is_empty());
}

#[test]
fn own_broadcasts_are_ignored() {
    let mut peers = PeerMap::new();
    let local = "me".to_string();
    let own = announcement("me", "Myself").encode().unwrap();
    assert_eq!(handle_broadcast(&mut peers, &local, &own, 0), Ok(None));
    assert!(!peers.knows(&local));
}

#[test]
fn broadcasts_of_others_feed_the_registry() {
    let mut peers = PeerMap::new();
    let local = "me".to_string();
    let alice = announcement("A", "Alice").encode().unwrap();
    let alicia = announcement("A", "Alicia").encode().unwrap();
    assert_eq!(
        handle_broadcast(&mut peers, &local, &alice, 0),
        Ok(Some(PeerEvent::Joined {
            peer_id: "A".to_string(),
            metadata: PeerMetadata::new("Alice".to_string(), 1)
        }))
    );
    assert_eq!(handle_broadcast(&mut peers, &local, &alice, 1), Ok(None));
    assert_eq!(
        handle_broadcast(&mut peers, &local, &alicia, 2),
        Ok(Some(PeerEvent::Updated {
            peer_id: "A".to_string(),
            metadata: PeerMetadata::new("Alicia".to_string(), 1)
        }))
    );
    peers.health_check(10, 3, 9);
    peers.health_check(20, 3, 9);
    assert_eq!(
        handle_broadcast(&mut peers, &local, &alicia, 21),
        Ok(Some(PeerEvent::Reconnected {
            peer_id: "A".to_string(),
            metadata: PeerMetadata::new("Alicia".to_string(), 1)
        }))
    );
    assert_eq!(peers.get(&"A".to_string()).unwrap().address, "10.0.0.5:6767");
}

#[test]
fn interval_always_broadcasts_and_requests_coalesce() {
    let mut queue = AdvertiseQueue::new(32);
    assert!(should_broadcast(&mut queue, AdvertiseTrigger::Interval));
    assert!(!should_broadcast(&mut queue, AdvertiseTrigger::Request));
    queue.request().unwrap();
    queue.request().unwrap();
    queue.request().unwrap();
    assert!(should_broadcast(&mut queue, AdvertiseTrigger::Request));
    assert!(!should_broadcast(&mut queue, AdvertiseTrigger::Request));
    queue.request().unwrap();
    assert!(should_broadcast(&mut queue, AdvertiseTrigger::Interval));
    assert!(!should_broadcast(&mut queue, AdvertiseTrigger::Request));
}

#[test]
fn manager_puts_one_event_per_observable_change_into_the_outbox() {
    let mut manager = PeerManager::new();
    let local = "me".to_string();
    let alice = announcement("A", "Alice").encode().unwrap();
    let bob = announcement("B", "Bob").encode().unwrap();
    assert_eq!(manager.on_broadcast(&local, &alice, 0), Ok(()));
    assert_eq!(manager.on_broadcast(&local, &alice, 1), Ok(()));
    assert_eq!(manager.on_broadcast(&local, &[0], 1), Err(ChatError::Malformed));
    assert_eq!(manager.on_broadcast(&local, &bob, 8), Ok(()));
    manager.check_health(9, 3, 6);
    manager.check_health(10, 3, 6);
    assert_eq!(
        manager.take_events(),
        vec![
            PeerEvent::Joined {
                peer_id: "A".to_string(),
                metadata: PeerMetadata::new("Alice".to_string(), 1)
            },
            PeerEvent::Joined {
                peer_id: "B".to_string(),
                metadata: PeerMetadata::new("Bob".to_string(), 1)
            },
            PeerEvent::Left { peer_id: "A".to_string() },
        ]
    );
    assert!(manager.take_events().is_empty());
    assert_eq!(
        get_current_peers(&manager),
        Ok(vec![PeerInfo {
            id: "B".to_string(),
            metadata: PeerMetadata::new("Bob".to_string(), 1)
        }])
    );
    assert_eq!(manager.get_all_peers().len(), 1);
}

#[test]
fn notifier_hands_events_out_in_order() {
    let mut notifier = PeerNotifier::new();
    notifier.notify(PeerEvent::Left { peer_id: "A".to_string() });
    notifier.notify_all(vec![
        PeerEvent::Left { peer_id: "B".to_string() },
        PeerEvent::Left { peer_id: "C".to_string() },
    ]);
    assert_eq!(notifier.len(), 3);
    assert_eq!(
        notifier.drain(),
        vec![
            PeerEvent::Left { peer_id: "A".to_string() },
            PeerEvent::Left { peer_id: "B".to_string() },
            PeerEvent::Left { peer_id: "C".to_string() },
        ]
    );
    assert_eq!(notifier.len(), 0);
}

#[test]
fn app_state_holds_registry_identity_and_outbox() {
    let mut state = AppState {
        peers: PeerMap::new(),
        identity: PeerIdentity::new("me".to_string(), "Me".to_string()),
        notifier: PeerNotifier::new(),
    };
    let payload = announcement("A", "Alice").encode().unwrap();
    let local = state.identity.peer_id().clone();
    if let Ok(Some(event)) = handle_broadcast(&mut state.peers, &local, &payload, 0) {
        state.notifier.notify(event);
    }
    assert_eq!(state.notifier.len(), 1);
    assert_eq!(state.peers.snapshot().len(), 1);
}

#[test]
fn timeouts_tolerate_missed_advertisements() {
    assert_eq!(ADVERTISE_INTERVAL_SECS, 5);
    assert_eq!(HEALTH_INTERVAL_SECS, 5);
    assert_eq!(T_STALE_SECS, 2 * ADVERTISE_INTERVAL_SECS);
    assert_eq!(T_LOST_SECS, 4 * ADVERTISE_INTERVAL_SECS);
    assert_eq!(WS_PORT, 6767);
    assert_eq!(DISCOVERY_PORT, 6768);
}

#[test]
fn a_peer_silent_for_both_timeouts_is_lost_by_the_default_policy() {
    let mut manager = PeerManager::new();
    let local = "me".to_string();
    let alice = announcement("A", "Alice").encode().unwrap();
    manager.on_broadcast(&local, &alice, 100).unwrap();
    let mut now = 100;
    while now <= 100 + T_STALE_SECS + T_LOST_SECS + HEALTH_INTERVAL_SECS {
        manager.check_health(now, T_STALE_SECS, T_LOST_SECS);
        now += HEALTH_INTERVAL_SECS;
    }
    let events = manager.take_events();
    assert_eq!(events.len(), 2);
    assert_eq!(events[1], PeerEvent::Left { peer_id: "A".to_string() });
    assert!(manager.get_all_peers().is_empty());
}
