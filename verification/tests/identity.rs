use lanchat::advertise::{AdvertiseQueue, ADVERTISE_CAPACITY};
use lanchat::commands::update_name;
use lanchat::error::ChatError;
use lanchat::identity::PeerIdentity;
use lanchat::text::trim;

fn alice() -> PeerIdentity {
    PeerIdentity::new("peer-1".to_string(), "Alice".to_string())
}

#[test]
fn trim_removes_whitespace_at_both_ends_only() {
    assert_eq!(trim("  Alice \n"), "Alice");
    assert_eq!(trim("\tAlice Smith\r\n"), "Alice Smith");
    assert_eq!(trim("Alice"), "Alice");
    assert_eq!(trim(""), "");
    assert_eq!(trim(" \t\n "), "");
    assert_eq!(trim("\u{3000}Zoë\u{a0}"), "Zoë");
    assert_eq!(trim(" a"), "a");
    assert_eq!(trim("a "), "a");
}

#[test]
fn rename_to_current_name_is_a_no_op() {
    let mut identity = alice();
    let mut queue = AdvertiseQueue::new(ADVERTISE_CAPACITY);
    assert_eq!(update_name("Alice".to_string(), &mut identity, &mut queue), Ok(()));
    assert_eq!(update_name("  Alice\t".to_string(), &mut identity, &mut queue), Ok(()));
    assert_eq!(identity, alice());
    assert_eq!(queue.pending(), 0);
    assert!(!queue.take());
}

#[test]
fn rename_to_blank_name_fails_and_changes_nothing() {
    let mut identity = alice();
    let mut queue = AdvertiseQueue::new(ADVERTISE_CAPACITY);
    assert_eq!(
        update_name("".to_string(), &mut identity, &mut queue),
        Err("Name cannot be empty".to_string())
    );
    assert_eq!(
        update_name(" \t \n".to_string(), &mut identity, &mut queue),
        Err("Name cannot be empty".to_string())
    );
    assert_eq!(identity, alice());
    assert_eq!(queue.pending(), 0);
}

#[test]
fn rename_changes_the_name_and_asks_for_one_advertisement() {
    let mut identity = alice();
    let mut queue = AdvertiseQueue::new(ADVERTISE_CAPACITY);
    assert_eq!(update_name("  Bob ".to_string(), &mut identity, &mut queue), Ok(()));
    assert_eq!(identity.peer_name(), "Bob");
    assert_eq!(identity.peer_id(), "peer-1");
    assert_eq!(queue.pending(), 1);
    assert!(queue.take());
    assert!(!queue.take());
}

#[test]
fn rename_fails_after_the_change_when_the_advertiser_is_gone() {
    let mut identity = alice();
    let mut queue = AdvertiseQueue::new(ADVERTISE_CAPACITY);
    queue.close();
    assert_eq!(
        update_name("Bob".to_string(), &mut identity, &mut queue),
        Err("Failed to trigger re-advertisement".to_string())
    );
    assert_eq!(identity.peer_name(), "Bob");
    assert_eq!(update_name("Bob".to_string(), &mut identity, &mut queue), Ok(()));
}

#[test]
fn identity_rename_reports_whether_the_name_changed() {
    let mut identity = alice();
    assert_eq!(identity.rename(" Alice "), Ok(false));
    assert_eq!(identity.rename("Alicia"), Ok(true));
    assert_eq!(identity.rename("   "), Err(ChatError::EmptyName));
    assert_eq!(identity.peer_name(), "Alicia");
    identity.update_peer_name("  raw ");
    assert_eq!(identity.peer_name(), "  raw ");
}

#[test]
fn a_burst_of_requests_is_one_broadcast() {
    let mut queue = AdvertiseQueue::new(ADVERTISE_CAPACITY);
    for _ in 0..5 {
        assert_eq!(queue.request(), Ok(true));
    }
    assert_eq!(queue.pending(), 5);
    assert!(queue.take());
    assert!(!queue.take());
}

#[test]
fn a_full_queue_drops_requests() {
    let mut queue = AdvertiseQueue::new(2);
    assert_eq!(queue.request(), Ok(true));
    assert_eq!(queue.request(), Ok(true));
    assert_eq!(queue.request(), Ok(false));
    assert_eq!(queue.pending(), 2);
    assert!(queue.take());
    assert_eq!(queue.request(), Ok(true));
}

#[test]
fn a_closed_queue_refuses_requests() {
    let mut queue = AdvertiseQueue::new(2);
    assert_eq!(queue.request(), Ok(true));
    queue.close();
    assert_eq!(queue.request(), Err(ChatError::AdvertiserGone));
    assert_eq!(queue.pending(), 1);
}

#[test]
fn persisted_identity_has_its_exact_bytes() {
    let identity = PeerIdentity::new("id".to_string(), "Zoë".to_string());
    let bytes = identity.to_bytes().unwrap();
    assert_eq!(
        bytes,
        vec![76, 67, 73, 68, 0, 0, 0, 2, 105, 100, 0, 0, 0, 4, 90, 111, 0xc3, 0xab]
    );
    assert_eq!(PeerIdentity::from_bytes(&bytes), Ok(identity));
}

#[test]
fn identity_without_identifier_is_not_storable() {
    let identity = PeerIdentity::new(String::new(), "Alice".to_string());
    assert_eq!(identity.to_bytes(), None);
    let bytes = vec![76, 67, 73, 68, 0, 0, 0, 0, 0, 0, 0, 1, 65];
    assert_eq!(PeerIdentity::from_bytes(&bytes), Err(ChatError::InvalidIdentity));
}

#[test]
fn corrupt_identity_is_rejected() {
    let good = alice().to_bytes().unwrap();
    assert_eq!(PeerIdentity::from_bytes(&[]), Err(ChatError::InvalidIdentity));
    assert_eq!(PeerIdentity::from_bytes(&good[..good.len() - 1]), Err(ChatError::InvalidIdentity));
    let mut longer = good.clone();
    longer.push(0);
    assert_eq!(PeerIdentity::from_bytes(&longer), Err(ChatError::InvalidIdentity));
    let mut magic = good.clone();
    magic[0] = 77;
    assert_eq!(PeerIdentity::from_bytes(&magic), Err(ChatError::InvalidIdentity));
    let mut not_utf8 = good.clone();
    let last = not_utf8.len() - 1;
    not_utf8[last] = 0xff;
    assert_eq!(PeerIdentity::from_bytes(&not_utf8), Err(ChatError::InvalidIdentity));
}

#[test]
fn load_or_generate_prefers_a_valid_persisted_identity() {
    let bytes = alice().to_bytes().unwrap();
    let (identity, fresh) =
        PeerIdentity::load_or_generate(Some(&bytes), "peer-2".to_string(), "Me".to_string());
    assert_eq!(identity, alice());
    assert!(!fresh);
}

#[test]
fn load_or_generate_falls_back_to_a_fresh_identity() {
    let (identity, fresh) =
        PeerIdentity::load_or_generate(None, "peer-2".to_string(), "Me".to_string());
    assert_eq!(identity, PeerIdentity::new("peer-2".to_string(), "Me".to_string()));
    assert!(fresh);
    let (identity, fresh) = PeerIdentity::load_or_generate(
        Some(&[1, 2, 3]),
        "peer-3".to_string(),
        "Me".to_string(),
    );
    assert_eq!(identity.peer_id(), "peer-3");
    assert!(fresh);
}

#[test]
fn errors_have_their_messages() {
    assert_eq!(ChatError::EmptyName.message(), "Name cannot be empty");
    assert_eq!(ChatError::AdvertiserGone.message(), "Failed to trigger re-advertisement");
    assert_eq!(
        ChatError::PeerUnreachable { addr: "10.0.0.5:6767".to_string() }.message(),
        "No connection to 10.0.0.5:6767"
    );
    assert_eq!(
        ChatError::Network { detail: "connection refused".to_string() }.message(),
        "Network error: connection refused"
    );
    assert_eq!(ChatError::Malformed.message(), "Malformed data received");
    assert_eq!(ChatError::TooLong.message(), "Text is too long");
    assert_eq!(ChatError::InvalidIdentity.message(), "Persisted identity is not valid");
}
