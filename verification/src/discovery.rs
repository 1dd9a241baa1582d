//! Discovery: what the engine broadcasts about itself, what it makes of the
//! broadcasts of others, and when it broadcasts.

use crate::advertise::{taken, AdvertiseQueue};
use crate::error::{ChatError, ChatErrorView};
use crate::identity::PeerIdentity;
use crate::peer::{PeerEvent, PeerMetadata, PeerMetadataView};
use crate::presence::{seen_event, seen_state};
use crate::registry::PeerMap;
use crate::wire::{
    all_fit, append_block, be32, blocks, fits, from_be32, parse_blocks, read_blocks, remaining,
};
use vstd::prelude::*;

verus! {

/// The version of the discovery protocol that this engine speaks.
pub const PROTOCOL_VERSION: u32 = 1;

/// What one broadcast says: who is there, what it calls itself, and where it
/// listens for connections.
#[derive(Debug, PartialEq, Eq)]
pub struct Announcement {
    pub peer_id: String,
    pub metadata: PeerMetadata,
    pub address: String,
}

/// Mathematical value of an [`Announcement`].
pub struct AnnouncementView {
    pub peer_id: Seq<char>,
    pub metadata: PeerMetadataView,
    pub address: Seq<char>,
}

impl View for Announcement {
    type V = AnnouncementView;

    open spec fn view(&self) -> AnnouncementView {
        AnnouncementView { peer_id: self.peer_id@, metadata: self.metadata@, address: self.address@ }
    }
}

/// The four bytes that open a broadcast.
pub open spec fn announcement_magic() -> Seq<u8> {
    seq![76u8, 67u8, 72u8, 84u8]
}

/// The texts of an announcement in wire order.
pub open spec fn announcement_texts(v: AnnouncementView) -> Seq<Seq<char>> {
    seq![v.peer_id, v.metadata.display_name, v.address]
}

/// An announcement that can be put on the wire: the identifier is not empty
/// and every text fits a block.
pub open spec fn sendable(v: AnnouncementView) -> bool {
    v.peer_id.len() > 0 && fits(v.peer_id) && fits(v.metadata.display_name) && fits(v.address)
}

/// The wire form of an announcement: the opening bytes, the protocol version
/// as four bytes, then identifier, display name and address as text blocks.
pub open spec fn announcement_bytes(v: AnnouncementView) -> Seq<u8> {
    announcement_magic() + be32(v.metadata.protocol_version as int) + blocks(announcement_texts(v))
}

/// Reads a broadcast. `None` for anything that is not the wire form of a
/// sendable announcement.
pub open spec fn parse_announcement(bytes: Seq<u8>) -> Option<AnnouncementView> {
    if bytes.len() >= 8 && bytes.take(4) == announcement_magic() {
        match parse_blocks(bytes.skip(8), 3) {
            Some(texts) => if texts[0].len() > 0 {
                Some(
                    AnnouncementView {
                        peer_id: texts[0],
                        metadata: PeerMetadataView {
                            display_name: texts[1],
                            protocol_version: from_be32(bytes.skip(4)) as u32,
                        },
                        address: texts[2],
                    },
                )
            } else {
                None
            },
            None => None,
        }
    } else {
        None
    }
}

/// What is received is what was sent.
pub proof fn law_announcement_roundtrip(v: AnnouncementView)
    requires
        sendable(v),
    ensures
        parse_announcement(announcement_bytes(v)) == Some(v),
{
    let texts = announcement_texts(v);
    let bytes = announcement_bytes(v);
    let version = v.metadata.protocol_version as int;
    assert(all_fit(texts));
    crate::wire::lemma_blocks_roundtrip(texts);
    crate::wire::lemma_be32_roundtrip(version);
    assert(bytes.take(4) =~= announcement_magic());
    assert(bytes.skip(8) =~= blocks(texts));
    let tail = bytes.skip(4);
    assert(tail[0] == be32(version)[0] && tail[1] == be32(version)[1] && tail[2] == be32(
        version,
    )[2] && tail[3] == be32(version)[3]);
}

/// Whatever reads as an announcement is the wire form of that announcement,
/// and the announcement is sendable.
pub proof fn law_announcement_canonical(bytes: Seq<u8>)
    requires
        parse_announcement(bytes) is Some,
    ensures
        sendable(parse_announcement(bytes)->0),
        bytes == announcement_bytes(parse_announcement(bytes)->0),
{
    let v = parse_announcement(bytes)->0;
    crate::wire::lemma_parse_blocks_canonical(bytes.skip(8), 3);
    let texts = parse_blocks(bytes.skip(8), 3)->0;
    assert(texts =~= announcement_texts(v));
    assert(fits(texts[0]) && fits(texts[1]) && fits(texts[2]));
    let tail = bytes.skip(4);
    let n = from_be32(tail);
    assert(be32(n) =~= tail.take(4)) by {
        assert(tail[0] as int == n / 16777216);
        assert(tail[1] as int == (n / 65536) % 256);
        assert(tail[2] as int == (n / 256) % 256);
        assert(tail[3] as int == n % 256);
    }
    assert(bytes =~= bytes.take(4) + tail.take(4) + bytes.skip(8));
}

impl Announcement {
    /// The wire form of this announcement. `None` if it is not sendable.
    pub fn encode(&self) -> (r: Option<Vec<u8>>)
        ensures
            r is Some <==> sendable(self@),
            r matches Some(bytes) ==> bytes@ == announcement_bytes(self@),
    {
        if self.peer_id.as_str().is_empty() {
            return None;
        }
        let version = self.metadata.protocol_version;
        let mut out: Vec<u8> = Vec::new();
        out.push(76u8);
        out.push(67u8);
        out.push(72u8);
        out.push(84u8);
        out.push((version / 16777216) as u8);
        out.push(((version / 65536) % 256) as u8);
        out.push(((version / 256) % 256) as u8);
        out.push((version % 256) as u8);
        assert(out@ =~= announcement_magic() + be32(version as int));
        if !append_block(&mut out, self.peer_id.as_str()) {
            return None;
        }
        if !append_block(&mut out, self.metadata.display_name.as_str()) {
            return None;
        }
        if !append_block(&mut out, self.address.as_str()) {
            return None;
        }
        proof {
            let texts = announcement_texts(self@);
            let t1 = texts.drop_first();
            let t2 = t1.drop_first();
            assert(t1 =~= seq![self@.metadata.display_name, self@.address]);
            assert(t2 =~= seq![self@.address]);
            assert(t2.drop_first() =~= Seq::<Seq<char>>::empty());
            assert(blocks(t2.drop_first()) =~= Seq::<u8>::empty());
            assert(blocks(t2) =~= crate::wire::block(self@.address));
            assert(blocks(t1) =~= crate::wire::block(self@.metadata.display_name) + blocks(t2));
            assert(out@ =~= announcement_bytes(self@));
        }
        Some(out)
    }

    /// Reads a broadcast. Fails with `Malformed` on anything that is not the
    /// wire form of a sendable announcement.
    pub fn decode(bytes: &[u8]) -> (r: Result<Announcement, ChatError>)
        ensures
            match r {
                Ok(a) => parse_announcement(bytes@) == Some(a@),
                Err(e) => parse_announcement(bytes@) is None && e@ == ChatErrorView::Malformed,
            },
    {
        if bytes.len() < 8 || bytes[0] != 76u8 || bytes[1] != 67u8 || bytes[2] != 72u8 || bytes[3]
            != 84u8 {
            proof {
                if bytes.len() >= 8 {
                    let head = bytes@.take(4);
                    assert(head[0] == bytes@[0] && head[1] == bytes@[1] && head[2] == bytes@[2]
                        && head[3] == bytes@[3]);
                }
            }
            return Err(ChatError::Malformed);
        }
        assert(bytes@.take(4) =~= announcement_magic());
        assert(remaining(bytes@, 8) == bytes@.skip(8));
        let protocol_version: u32 = (bytes[4] as u32) * 16777216 + (bytes[5] as u32) * 65536 + (
        bytes[6] as u32) * 256 + (bytes[7] as u32);
        proof {
            let tail = bytes@.skip(4);
            assert(tail[0] == bytes@[4] && tail[1] == bytes@[5] && tail[2] == bytes@[6] && tail[3]
                == bytes@[7]);
        }
        match read_blocks(bytes, 8, 3) {
            None => Err(ChatError::Malformed),
            Some(mut texts) => {
                proof {
                    crate::wire::lemma_parse_blocks_canonical(bytes@.skip(8), 3);
                }
                let ghost views = texts.deep_view();
                assert(views[0] == texts[0]@ && views[1] == texts[1]@ && views[2] == texts[2]@);
                let address = texts.pop().unwrap();
                let display_name = texts.pop().unwrap();
                let peer_id = texts.pop().unwrap();
                if peer_id.as_str().is_empty() {
                    Err(ChatError::Malformed)
                } else {
                    Ok(
                        Announcement {
                            peer_id,
                            metadata: PeerMetadata { display_name, protocol_version },
                            address,
                        },
                    )
                }
            },
        }
    }
}

/// The announcement of the local participant listening at `address`.
pub fn announce(identity: &PeerIdentity, address: &str) -> (a: Announcement)
    ensures
        a@.peer_id == identity@.peer_id,
        a@.metadata.display_name == identity@.display_name,
        a@.metadata.protocol_version == PROTOCOL_VERSION,
        a@.address == address@,
{
    Announcement {
        peer_id: identity.peer_id().clone(),
        metadata: PeerMetadata {
            display_name: identity.peer_name().to_owned(),
            protocol_version: PROTOCOL_VERSION,
        },
        address: address.to_owned(),
    }
}

/// Takes in one received broadcast. A payload that is not an announcement is
/// rejected with `Malformed`; an announcement of the local participant itself
/// is ignored; both leave the registry as it is. Any other announcement is
/// recorded as a broadcast from its sender, with the event that this gives
/// rise to.
pub fn handle_broadcast(peers: &mut PeerMap, local_id: &String, payload: &[u8], now: u64) -> (r:
    Result<Option<PeerEvent>, ChatError>)
    ensures
        match parse_announcement(payload@) {
            None => r matches Err(e) && e@ == ChatErrorView::Malformed && final(peers)@ == old(
                peers,
            )@,
            Some(a) => r matches Ok(event) && if a.peer_id == local_id@ {
                event is None && final(peers)@ == old(peers)@
            } else {
                final(peers)@ == seen_state(old(peers)@, a.peer_id, a.metadata, a.address, now)
                    && event.deep_view() == seen_event(old(peers)@, a.peer_id, a.metadata)
            },
        },
{
    match Announcement::decode(payload) {
        Err(e) => Err(e),
        Ok(a) => {
            if a.peer_id == *local_id {
                Ok(None)
            } else {
                let awaited = match peers.liveness_of(&a.peer_id) {
                    Some(crate::peer::Liveness::Stale) | Some(crate::peer::Liveness::Lost) => true,
                    _ => false,
                };
                if awaited {
                    Ok(peers.record_reconnected(a.peer_id, a.metadata, a.address, now))
                } else {
                    Ok(peers.record_seen(a.peer_id, a.metadata, a.address, now))
                }
            }
        },
    }
}

/// Why the advertiser woke up.
#[derive(Clone, Copy, Debug, PartialEq, Eq, Structural)]
pub enum AdvertiseTrigger {
    /// The advertisement interval has passed.
    Interval,
    /// A re-advertisement request arrived.
    Request,
}

/// Whether the advertiser broadcasts now. It always does when the interval
/// has passed. On a request it does if any is still pending: requests that an
/// earlier broadcast has answered give no second one. Either way nothing is
/// pending afterwards.
pub fn should_broadcast(queue: &mut AdvertiseQueue, trigger: AdvertiseTrigger) -> (go: bool)
    ensures
        final(queue)@ == taken(old(queue)@),
        go == (trigger == AdvertiseTrigger::Interval || old(queue)@.pending > 0),
{
    let due = queue.take();
    match trigger {
        AdvertiseTrigger::Interval => true,
        AdvertiseTrigger::Request => due,
    }
}

} // verus!
