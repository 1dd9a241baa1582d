//! Peers as the registry records them, and the presence events it emits.

use vstd::prelude::*;

verus! {

/// What a peer says about itself in its broadcasts.
#[derive(Debug, PartialEq, Eq)]
pub struct PeerMetadata {
    pub display_name: String,
    pub protocol_version: u32,
}

/// Mathematical value of a [`PeerMetadata`].
pub struct PeerMetadataView {
    pub display_name: Seq<char>,
    pub protocol_version: u32,
}

impl View for PeerMetadata {
    type V = PeerMetadataView;

    open spec fn view(&self) -> PeerMetadataView {
        PeerMetadataView {
            display_name: self.display_name@,
            protocol_version: self.protocol_version,
        }
    }
}

impl Clone for PeerMetadata {
    fn clone(&self) -> (r: Self)
        ensures
            r@ == self@,
    {
        PeerMetadata {
            display_name: self.display_name.clone(),
            protocol_version: self.protocol_version,
        }
    }
}

impl PeerMetadata {
    pub fn new(display_name: String, protocol_version: u32) -> (r: Self)
        ensures
            r@.display_name == display_name@,
            r@.protocol_version == protocol_version,
    {
        PeerMetadata { display_name, protocol_version }
    }

    /// Whether two broadcasts carry the same metadata.
    pub fn same_as(&self, other: &PeerMetadata) -> (r: bool)
        ensures
            r == (self@ == other@),
    {
        self.display_name == other.display_name && self.protocol_version
            == other.protocol_version
    }
}

/// How recently a peer has been heard from.
#[derive(Clone, Copy, Debug, PartialEq, Eq, Structural)]
pub enum Liveness {
    /// Heard from within the staleness timeout.
    Active,
    /// Silent for longer than the staleness timeout.
    Stale,
    /// Silent for longer than the loss timeout; no longer listed, but
    /// remembered so that its return is told apart from a first contact.
    Lost,
}

/// One entry of the peer registry.
#[derive(Debug, PartialEq, Eq)]
pub struct PeerRecord {
    pub peer_id: String,
    pub metadata: PeerMetadata,
    pub liveness: Liveness,
    /// Time of the last broadcast received from the peer.
    pub last_seen: u64,
    /// Where the peer listens for connections.
    pub address: String,
}

/// Mathematical value of a [`PeerRecord`].
pub struct PeerRecordView {
    pub peer_id: Seq<char>,
    pub metadata: PeerMetadataView,
    pub liveness: Liveness,
    pub last_seen: u64,
    pub address: Seq<char>,
}

impl View for PeerRecord {
    type V = PeerRecordView;

    open spec fn view(&self) -> PeerRecordView {
        PeerRecordView {
            peer_id: self.peer_id@,
            metadata: self.metadata@,
            liveness: self.liveness,
            last_seen: self.last_seen,
            address: self.address@,
        }
    }
}

impl DeepView for PeerRecord {
    type V = PeerRecordView;

    open spec fn deep_view(&self) -> PeerRecordView {
        self@
    }
}

impl Clone for PeerRecord {
    fn clone(&self) -> (r: Self)
        ensures
            r@ == self@,
    {
        PeerRecord {
            peer_id: self.peer_id.clone(),
            metadata: self.metadata.clone(),
            liveness: self.liveness,
            last_seen: self.last_seen,
            address: self.address.clone(),
        }
    }
}

/// A listed peer as the shell sees it.
#[derive(Debug, PartialEq, Eq)]
pub struct PeerInfo {
    pub id: String,
    pub metadata: PeerMetadata,
}

/// Mathematical value of a [`PeerInfo`].
pub struct PeerInfoView {
    pub id: Seq<char>,
    pub metadata: PeerMetadataView,
}

impl View for PeerInfo {
    type V = PeerInfoView;

    open spec fn view(&self) -> PeerInfoView {
        PeerInfoView { id: self.id@, metadata: self.metadata@ }
    }
}

impl DeepView for PeerInfo {
    type V = PeerInfoView;

    open spec fn deep_view(&self) -> PeerInfoView {
        self@
    }
}

/// A change of the registry that the shell can observe.
#[derive(Debug, PartialEq, Eq)]
pub enum PeerEvent {
    /// First contact with a peer.
    Joined { peer_id: String, metadata: PeerMetadata },
    /// A peer was silent for too long and is no longer listed.
    Left { peer_id: String },
    /// A listed, active peer changed its metadata.
    Updated { peer_id: String, metadata: PeerMetadata },
    /// A stale or lost peer was heard from again.
    Reconnected { peer_id: String, metadata: PeerMetadata },
}

/// Mathematical value of a [`PeerEvent`].
pub enum PeerEventView {
    Joined { peer_id: Seq<char>, metadata: PeerMetadataView },
    Left { peer_id: Seq<char> },
    Updated { peer_id: Seq<char>, metadata: PeerMetadataView },
    Reconnected { peer_id: Seq<char>, metadata: PeerMetadataView },
}

impl View for PeerEvent {
    type V = PeerEventView;

    open spec fn view(&self) -> PeerEventView {
        match *self {
            PeerEvent::Joined { peer_id, metadata } => PeerEventView::Joined {
                peer_id: peer_id@,
                metadata: metadata@,
            },
            PeerEvent::Left { peer_id } => PeerEventView::Left { peer_id: peer_id@ },
            PeerEvent::Updated { peer_id, metadata } => PeerEventView::Updated {
                peer_id: peer_id@,
                metadata: metadata@,
            },
            PeerEvent::Reconnected { peer_id, metadata } => PeerEventView::Reconnected {
                peer_id: peer_id@,
                metadata: metadata@,
            },
        }
    }
}

impl DeepView for PeerEvent {
    type V = PeerEventView;

    open spec fn deep_view(&self) -> PeerEventView {
        self@
    }
}

impl Clone for PeerEvent {
    fn clone(&self) -> (r: Self)
        ensures
            r@ == self@,
    {
        match self {
            PeerEvent::Joined { peer_id, metadata } => PeerEvent::Joined {
                peer_id: peer_id.clone(),
                metadata: metadata.clone(),
            },
            PeerEvent::Left { peer_id } => PeerEvent::Left { peer_id: peer_id.clone() },
            PeerEvent::Updated { peer_id, metadata } => PeerEvent::Updated {
                peer_id: peer_id.clone(),
                metadata: metadata.clone(),
            },
            PeerEvent::Reconnected { peer_id, metadata } => PeerEvent::Reconnected {
                peer_id: peer_id.clone(),
                metadata: metadata.clone(),
            },
        }
    }
}

impl PeerEventView {
    /// The peer that the event is about.
    pub open spec fn peer_id(self) -> Seq<char> {
        match self {
            PeerEventView::Joined { peer_id, .. } => peer_id,
            PeerEventView::Left { peer_id } => peer_id,
            PeerEventView::Updated { peer_id, .. } => peer_id,
            PeerEventView::Reconnected { peer_id, .. } => peer_id,
        }
    }
}

/// The shell event under which a presence event is published.
pub open spec fn peer_event_name_spec(event: PeerEventView) -> Seq<char> {
    match event {
        PeerEventView::Joined { .. } => "peer-connected"@,
        PeerEventView::Left { .. } => "peer-disconnected"@,
        PeerEventView::Updated { .. } => "peer-updated"@,
        PeerEventView::Reconnected { .. } => "peer-reconnected"@,
    }
}

/// The shell event under which a presence event is published.
pub fn peer_event_name(event: &PeerEvent) -> (name: &'static str)
    ensures
        name@ == peer_event_name_spec(event@),
{
    match event {
        PeerEvent::Joined { .. } => "peer-connected",
        PeerEvent::Left { .. } => "peer-disconnected",
        PeerEvent::Updated { .. } => "peer-updated",
        PeerEvent::Reconnected { .. } => "peer-reconnected",
    }
}

} // verus!
