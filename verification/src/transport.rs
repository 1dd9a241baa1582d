//! The transport manager: one connection per remote address, each with the
//! bytes of an unfinished inbound frame and a queue of outbound frames.

use crate::error::ChatError;
use crate::event::{WsEvent, WsEventView};
use crate::frame::{decode_stream, encode_frame, frame, Decoded, FrameDecoder};
use crate::keyed::{
    assoc, distinct, lemma_assoc_absent, lemma_assoc_at, lemma_assoc_len, lemma_assoc_push,
    lemma_assoc_remove, lemma_assoc_update,
};
use crate::wire::fits;
use vstd::prelude::*;

verus! {

/// One live connection.
pub struct Connection {
    remote_address: String,
    inbound: FrameDecoder,
    outbound: Vec<Vec<u8>>,
}

/// Mathematical value of a [`Connection`].
pub struct ConnectionView {
    /// Bytes received that do not yet make a whole frame.
    pub inbound: Seq<u8>,
    /// Frames waiting to be written, oldest first.
    pub outbound: Seq<Seq<u8>>,
}

impl View for Connection {
    type V = ConnectionView;

    closed spec fn view(&self) -> ConnectionView {
        ConnectionView { inbound: self.inbound@.buffered, outbound: frames_of(self.outbound@) }
    }
}

/// The queued frames as byte sequences.
pub open spec fn frames_of(queue: Seq<Vec<u8>>) -> Seq<Seq<u8>> {
    Seq::new(queue.len(), |i: int| queue[i]@)
}

/// The connection table's mathematical value: connections by remote address.
pub type Connections = Map<Seq<char>, ConnectionView>;

/// A connection that has just been opened.
pub open spec fn fresh_connection() -> ConnectionView {
    ConnectionView { inbound: Seq::empty(), outbound: Seq::empty() }
}

/// The table after a connection to `addr` is opened: a new entry unless there
/// is one already.
pub open spec fn opened_state(m: Connections, addr: Seq<char>) -> Connections {
    if m.contains_key(addr) {
        m
    } else {
        m.insert(addr, fresh_connection())
    }
}

/// The event of opening a connection to `addr`: `Connected` unless it was
/// open already.
pub open spec fn opened_event(m: Connections, addr: Seq<char>) -> Option<WsEventView> {
    if m.contains_key(addr) {
        None
    } else {
        Some(WsEventView::Connected { addr })
    }
}

/// The table after the connection to `addr` is closed.
pub open spec fn closed_state(m: Connections, addr: Seq<char>) -> Connections {
    m.remove(addr)
}

/// The event of closing the connection to `addr`: `Disconnected` if there
/// was one.
pub open spec fn closed_event(m: Connections, addr: Seq<char>) -> Option<WsEventView> {
    if m.contains_key(addr) {
        Some(WsEventView::Disconnected { addr })
    } else {
        None
    }
}

/// Whether `text` can be sent to `addr`: there is a connection and the text
/// fits a frame.
pub open spec fn can_send(m: Connections, addr: Seq<char>, text: Seq<char>) -> bool {
    m.contains_key(addr) && fits(text)
}

/// The table after `text` is queued for `addr`.
pub open spec fn sent_state(m: Connections, addr: Seq<char>, text: Seq<char>) -> Connections {
    if can_send(m, addr, text) {
        m.insert(
            addr,
            ConnectionView { outbound: m[addr].outbound.push(frame(text)), ..m[addr] },
        )
    } else {
        m
    }
}

/// What a chunk received from `addr` decodes to, together with the bytes
/// held back before it.
pub open spec fn inbound_decoded(m: Connections, addr: Seq<char>, chunk: Seq<u8>) -> Decoded {
    decode_stream(m[addr].inbound + chunk)
}

/// The table after a chunk is received from `addr`: the unfinished frame is
/// kept; a connection whose stream broke the framing is gone.
pub open spec fn received_state(m: Connections, addr: Seq<char>, chunk: Seq<u8>) -> Connections {
    if !m.contains_key(addr) {
        m
    } else if inbound_decoded(m, addr, chunk).failed {
        m.remove(addr)
    } else {
        m.insert(addr, ConnectionView { inbound: inbound_decoded(m, addr, chunk).rest, ..m[addr] })
    }
}

/// The events of a chunk received from `addr`: one `MessageReceived` per
/// whole frame, in order, then `Disconnected` if the stream broke the framing.
pub open spec fn received_events(m: Connections, addr: Seq<char>, chunk: Seq<u8>) -> Seq<
    WsEventView,
> {
    if !m.contains_key(addr) {
        Seq::empty()
    } else {
        let d = inbound_decoded(m, addr, chunk);
        let received = Seq::new(
            d.messages.len(),
            |i: int| WsEventView::MessageReceived { addr, message: d.messages[i] },
        );
        if d.failed {
            received.push(WsEventView::Disconnected { addr })
        } else {
            received
        }
    }
}

/// Whether a frame is waiting to be written to `addr`.
pub open spec fn has_outbound(m: Connections, addr: Seq<char>) -> bool {
    m.contains_key(addr) && m[addr].outbound.len() > 0
}

/// The table after the oldest frame waiting for `addr` is taken for writing.
pub open spec fn taken_state(m: Connections, addr: Seq<char>) -> Connections {
    if has_outbound(m, addr) {
        m.insert(addr, ConnectionView { outbound: m[addr].outbound.drop_first(), ..m[addr] })
    } else {
        m
    }
}

/// However a connection ends, `Disconnected` is emitted for it once: closing
/// what is closed gives no event, and neither does closing a connection that
/// a broken stream has already ended.
pub proof fn law_disconnected_once(m: Connections, addr: Seq<char>, chunk: Seq<u8>)
    ensures
        closed_event(closed_state(m, addr), addr) is None,
        m.contains_key(addr) && inbound_decoded(m, addr, chunk).failed ==> {
            &&& received_events(m, addr, chunk).last() == (WsEventView::Disconnected { addr })
            &&& closed_event(received_state(m, addr, chunk), addr) is None
        },
        m.contains_key(addr) && !inbound_decoded(m, addr, chunk).failed ==> closed_event(
            received_state(m, addr, chunk),
            addr,
        ) == Some(WsEventView::Disconnected { addr }),
{
}

/// Sending never makes a connection: without one the table stays as it is,
/// and with one only that connection's queue grows.
pub proof fn law_send_makes_no_connection(m: Connections, addr: Seq<char>, text: Seq<char>)
    ensures
        sent_state(m, addr, text).dom() == m.dom(),
        !m.contains_key(addr) ==> sent_state(m, addr, text) == m,
        forall|other: Seq<char>|
            other != addr && m.contains_key(other) ==> #[trigger] sent_state(m, addr, text)[other]
                == m[other],
{
    assert(sent_state(m, addr, text).dom() =~= m.dom());
}

/// The remote addresses, in storage order.
spec fn addresses(conns: Seq<Connection>) -> Seq<Seq<char>> {
    Seq::new(conns.len(), |i: int| conns[i].remote_address@)
}

/// The connections' mathematical values, in storage order.
spec fn connection_views(conns: Seq<Connection>) -> Seq<ConnectionView> {
    Seq::new(conns.len(), |i: int| conns[i]@)
}

/// What to do about a request to connect.
#[derive(Clone, Copy, Debug, PartialEq, Eq, Structural)]
pub enum ConnectPlan {
    /// There is a connection already: use it.
    Reuse,
    /// There is none: dial the address.
    Dial,
}

/// The connection table.
pub struct WsManager {
    connections: Vec<Connection>,
}

impl View for WsManager {
    type V = Connections;

    closed spec fn view(&self) -> Connections {
        assoc(addresses(self.connections@), connection_views(self.connections@))
    }
}

impl WsManager {
    #[verifier::type_invariant]
    spec fn inv(self) -> bool {
        &&& distinct(addresses(self.connections@))
        &&& forall|i: int|
            0 <= i < self.connections.len() ==> !(#[trigger] self.connections[i]).inbound@.failed
    }

    /// A table without connections.
    pub fn new() -> (r: Self)
        ensures
            r@ == Map::<Seq<char>, ConnectionView>::empty(),
    {
        let r = WsManager { connections: Vec::new() };
        assert(r@ =~= Map::<Seq<char>, ConnectionView>::empty());
        r
    }

    fn find(&self, addr: &String) -> (r: Option<usize>)
        ensures
            match r {
                Some(i) => i < self.connections.len() && self.connections[i as int].remote_address@
                    == addr@ && self@.contains_key(addr@) && self@[addr@]
                    == self.connections[i as int]@,
                None => !self@.contains_key(addr@),
            },
    {
        proof {
            use_type_invariant(self);
        }
        let ghost keys = addresses(self.connections@);
        let ghost vals = connection_views(self.connections@);
        let mut i: usize = 0;
        while i < self.connections.len()
            invariant
                i <= self.connections.len(),
                keys == addresses(self.connections@),
                vals == connection_views(self.connections@),
                distinct(keys),
                forall|j: int| 0 <= j < i ==> keys[j] != addr@,
            decreases self.connections.len() - i,
        {
            if self.connections[i].remote_address == *addr {
                proof {
                    lemma_assoc_at(keys, vals, i as int);
                }
                return Some(i);
            }
            i = i + 1;
        }
        proof {
            lemma_assoc_absent(keys, vals, addr@);
        }
        None
    }

    /// Whether there is a live connection to `addr`.
    pub fn is_connected(&self, addr: &String) -> (r: bool)
        ensures
            r == self@.contains_key(addr@),
    {
        self.find(addr).is_some()
    }

    /// Number of live connections.
    pub fn connection_count(&self) -> (r: usize)
        ensures
            r == self@.dom().len(),
    {
        proof {
            use_type_invariant(self);
            lemma_assoc_len(addresses(self.connections@), connection_views(self.connections@));
        }
        self.connections.len()
    }

    /// What a request to connect to `addr` calls for.
    pub fn plan_connect(&self, addr: &String) -> (plan: ConnectPlan)
        ensures
            plan == if self@.contains_key(addr@) {
                ConnectPlan::Reuse
            } else {
                ConnectPlan::Dial
            },
    {
        if self.is_connected(addr) {
            ConnectPlan::Reuse
        } else {
            ConnectPlan::Dial
        }
    }

    /// Enters a connection to `addr` that was dialled or accepted. An address
    /// has at most one connection: if there is one already, it stays and no
    /// event is emitted.
    pub fn open(&mut self, addr: String) -> (event: Option<WsEvent>)
        ensures
            final(self)@ == opened_state(old(self)@, addr@),
            event.deep_view() == opened_event(old(self)@, addr@),
    {
        proof {
            use_type_invariant(&*self);
        }
        match self.find(&addr) {
            Some(_) => None,
            None => {
                let event = WsEvent::Connected { addr: addr.clone() };
                let mut conns: Vec<Connection> = Vec::new();
                std::mem::swap(&mut conns, &mut self.connections);
                let ghost keys = addresses(conns@);
                let ghost vals = connection_views(conns@);
                let conn = Connection {
                    remote_address: addr,
                    inbound: FrameDecoder::new(),
                    outbound: Vec::new(),
                };
                proof {
                    assert(conn@.outbound =~= Seq::<Seq<u8>>::empty());
                    lemma_assoc_push(keys, vals, addr@, fresh_connection());
                }
                conns.push(conn);
                assert(addresses(conns@) =~= keys.push(addr@));
                assert(connection_views(conns@) =~= vals.push(fresh_connection()));
                self.connections = conns;
                Some(event)
            },
        }
    }

    /// Removes the connection to `addr`, whoever ended it; its queue is
    /// dropped with it. `Disconnected` is emitted once: a second call finds
    /// nothing to close.
    pub fn close(&mut self, addr: &String) -> (event: Option<WsEvent>)
        ensures
            final(self)@ == closed_state(old(self)@, addr@),
            event.deep_view() == closed_event(old(self)@, addr@),
    {
        proof {
            use_type_invariant(&*self);
        }
        match self.find(addr) {
            None => {
                assert(self@.remove(addr@) =~= self@);
                None
            },
            Some(i) => {
                let mut conns: Vec<Connection> = Vec::new();
                std::mem::swap(&mut conns, &mut self.connections);
                let ghost keys = addresses(conns@);
                let ghost vals = connection_views(conns@);
                proof {
                    lemma_assoc_remove(keys, vals, i as int);
                }
                let _ = conns.remove(i);
                assert(addresses(conns@) =~= keys.remove(i as int));
                assert(connection_views(conns@) =~= vals.remove(i as int));
                self.connections = conns;
                Some(WsEvent::Disconnected { addr: addr.clone() })
            },
        }
    }

    /// Queues `text` for `addr` as one frame. Fails with `PeerUnreachable`
    /// if there is no connection to `addr`, and with `TooLong` if there is one
    /// but the text does not fit a frame; the table is then left as it is and
    /// nothing is queued.
    pub fn send_message(&mut self, addr: &String, text: &str) -> (r: Result<(), ChatError>)
        ensures
            final(self)@ == sent_state(old(self)@, addr@, text@),
            match r {
                Ok(_) => can_send(old(self)@, addr@, text@),
                Err(e) => !can_send(old(self)@, addr@, text@) && e@ == if !old(self)@.contains_key(
                    addr@,
                ) {
                    crate::error::ChatErrorView::PeerUnreachable { addr: addr@ }
                } else {
                    crate::error::ChatErrorView::TooLong
                },
            },
    {
        proof {
            use_type_invariant(&*self);
        }
        match self.find(addr) {
            None => Err(ChatError::PeerUnreachable { addr: addr.clone() }),
            Some(i) => match encode_frame(text) {
                None => Err(ChatError::TooLong),
                Some(bytes) => {
                    let mut conns: Vec<Connection> = Vec::new();
                    std::mem::swap(&mut conns, &mut self.connections);
                    let ghost keys = addresses(conns@);
                    let ghost vals = connection_views(conns@);
                    let ghost queue = frames_of(conns[i as int].outbound@);
                    let ghost after = ConnectionView {
                        outbound: vals[i as int].outbound.push(frame(text@)),
                        ..vals[i as int]
                    };
                    conns[i].outbound.push(bytes);
                    proof {
                        assert(frames_of(conns[i as int].outbound@) =~= queue.push(frame(text@)));
                        lemma_assoc_update(keys, vals, i as int, after);
                        assert(addresses(conns@) =~= keys);
                        assert(connection_views(conns@) =~= vals.update(i as int, after));
                    }
                    self.connections = conns;
                    Ok(())
                },
            },
        }
    }

    /// Takes the oldest frame waiting to be written to `addr`, if there is one.
    pub fn next_outbound(&mut self, addr: &String) -> (r: Option<Vec<u8>>)
        ensures
            final(self)@ == taken_state(old(self)@, addr@),
            r is Some <==> has_outbound(old(self)@, addr@),
            r matches Some(bytes) ==> bytes@ == old(self)@[addr@].outbound.first(),
    {
        proof {
            use_type_invariant(&*self);
        }
        match self.find(addr) {
            None => None,
            Some(i) => {
                if self.connections[i].outbound.len() == 0 {
                    return None;
                }
                let mut conns: Vec<Connection> = Vec::new();
                std::mem::swap(&mut conns, &mut self.connections);
                let ghost keys = addresses(conns@);
                let ghost vals = connection_views(conns@);
                let ghost queue = frames_of(conns[i as int].outbound@);
                let ghost after = ConnectionView {
                    outbound: vals[i as int].outbound.drop_first(),
                    ..vals[i as int]
                };
                let bytes = conns[i].outbound.remove(0);
                proof {
                    assert(frames_of(conns[i as int].outbound@) =~= queue.drop_first());
                    lemma_assoc_update(keys, vals, i as int, after);
                    assert(addresses(conns@) =~= keys);
                    assert(connection_views(conns@) =~= vals.update(i as int, after));
                }
                self.connections = conns;
                Some(bytes)
            },
        }
    }

    /// Takes in a chunk of bytes read from `addr`. Every frame that is whole
    /// now gives a `MessageReceived`, in order; the bytes of an unfinished
    /// frame are kept for the next chunk. A stream that breaks the framing
    /// ends the connection: it is removed, and `Disconnected` follows the
    /// messages that came before the fault. A chunk from an address without a
    /// connection is ignored.
    pub fn receive(&mut self, addr: &String, chunk: &[u8]) -> (events: Vec<WsEvent>)
        ensures
            final(self)@ == received_state(old(self)@, addr@, chunk@),
            events.deep_view() == received_events(old(self)@, addr@, chunk@),
    {
        proof {
            use_type_invariant(&*self);
        }
        let mut events: Vec<WsEvent> = Vec::new();
        match self.find(addr) {
            None => {
                assert(events.deep_view() =~= Seq::<WsEventView>::empty());
            },
            Some(i) => {
                let mut conns: Vec<Connection> = Vec::new();
                std::mem::swap(&mut conns, &mut self.connections);
                let ghost keys = addresses(conns@);
                let ghost vals = connection_views(conns@);
                let ghost d = decode_stream(vals[i as int].inbound + chunk@);
                assert(!conns[i as int].inbound@.failed);
                let messages = conns[i].inbound.push(chunk);
                let failed = conns[i].inbound.has_failed();
                if failed {
                    proof {
                        lemma_assoc_remove(keys, vals, i as int);
                    }
                    let _ = conns.remove(i);
                    assert(addresses(conns@) =~= keys.remove(i as int));
                    assert(connection_views(conns@) =~= vals.remove(i as int));
                } else {
                    proof {
                        let after = ConnectionView { inbound: d.rest, ..vals[i as int] };
                        lemma_assoc_update(keys, vals, i as int, after);
                        assert(addresses(conns@) =~= keys);
                        assert(connection_views(conns@) =~= vals.update(i as int, after));
                    }
                }
                self.connections = conns;
                let mut j: usize = 0;
                while j < messages.len()
                    invariant
                        j <= messages.len(),
                        messages.deep_view() == d.messages,
                        events.len() == j,
                        forall|k: int|
                            0 <= k < j ==> (#[trigger] events[k])@ == (WsEventView::MessageReceived {
                                addr: addr@,
                                message: d.messages[k],
                            }),
                    decreases messages.len() - j,
                {
                    assert(messages.deep_view()[j as int] == messages[j as int]@);
                    events.push(
                        WsEvent::MessageReceived { addr: addr.clone(), message: messages[j].clone() },
                    );
                    j = j + 1;
                }
                if failed {
                    events.push(WsEvent::Disconnected { addr: addr.clone() });
                }
                assert(events.deep_view() =~= received_events(old(self)@, addr@, chunk@));
            },
        }
        events
    }
}

} // verus!
