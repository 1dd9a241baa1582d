//! The command surface: what the shell asks of the engine, as functions on
//! the engine's state. Each returns its error, if any, as the text that the
//! shell shows.

use crate::advertise::{requested, AdvertiseQueue};
use crate::error::{message_of, ChatError, ChatErrorView};
use crate::event::WsEvent;
use crate::identity::PeerIdentity;
use crate::manager::PeerManager;
use crate::peer::PeerInfo;
use crate::presence::is_snapshot;
use crate::text::trimmed;
use crate::transport::{can_send, opened_event, opened_state, sent_state, WsManager};
use vstd::prelude::*;

verus! {

/// The address on which the transport server listens.
pub fn ws_listen_address() -> (addr: &'static str)
    ensures
        addr@ == "0.0.0.0:6767"@,
{
    "0.0.0.0:6767"
}

/// The listed peers.
pub fn get_current_peers(peer_manager: &PeerManager) -> (r: Result<Vec<PeerInfo>, String>)
    ensures
        r matches Ok(peers) && is_snapshot(peers.deep_view(), peer_manager@.peers),
{
    Ok(peer_manager.get_all_peers())
}

/// Renames the local participant and asks for the new name to be advertised.
///
/// The name is taken without its leading and trailing whitespace. If nothing
/// is left of it the command fails and changes nothing. If it is the name the
/// participant already has the command succeeds and changes nothing: no
/// re-advertisement is asked for. Otherwise the name is changed and one
/// re-advertisement is requested; the command fails, with the name changed,
/// only if the advertiser is gone.
pub fn update_name(new_name: String, identity: &mut PeerIdentity, advertise: &mut AdvertiseQueue) -> (r:
    Result<(), String>)
    ensures
        final(identity)@.peer_id == old(identity)@.peer_id,
        trimmed(new_name@).len() == 0 ==> {
            &&& r matches Err(text) && text@ == message_of(ChatErrorView::EmptyName)
            &&& final(identity)@ == old(identity)@
            &&& final(advertise)@ == old(advertise)@
        },
        trimmed(new_name@).len() > 0 && trimmed(new_name@) == old(identity)@.display_name ==> {
            &&& r is Ok
            &&& final(identity)@ == old(identity)@
            &&& final(advertise)@ == old(advertise)@
        },
        trimmed(new_name@).len() > 0 && trimmed(new_name@) != old(identity)@.display_name ==> {
            &&& final(identity)@.display_name == trimmed(new_name@)
            &&& final(advertise)@ == requested(old(advertise)@)
            &&& if old(advertise)@.open {
                r is Ok
            } else {
                r matches Err(text) && text@ == message_of(ChatErrorView::AdvertiserGone)
            }
        },
{
    match identity.rename(new_name.as_str()) {
        Err(e) => Err(e.message()),
        Ok(false) => Ok(()),
        Ok(true) => match advertise.request() {
            Ok(_) => Ok(()),
            Err(e) => Err(e.message()),
        },
    }
}

/// Completes a request to connect to `addr`. `dialed` is how dialling the
/// address went; `Ok` too where none was needed because a connection exists
/// (see [`WsManager::plan_connect`]). After a failed dial the command fails
/// with the network error and the table is left as it is. Otherwise the
/// connection is entered, and the result is the `Connected` event, or none if
/// the connection existed.
pub fn connect_to_peer(addr: String, ws_manager: &mut WsManager, dialed: Result<(), String>) -> (r:
    Result<Option<WsEvent>, String>)
    ensures
        match dialed {
            Err(detail) => r matches Err(text) && text@ == message_of(
                ChatErrorView::Network { detail: detail@ },
            ) && final(ws_manager)@ == old(ws_manager)@,
            Ok(_) => r matches Ok(event) && event.deep_view() == opened_event(
                old(ws_manager)@,
                addr@,
            ) && final(ws_manager)@ == opened_state(old(ws_manager)@, addr@),
        },
{
    match dialed {
        Err(detail) => Err(ChatError::Network { detail }.message()),
        Ok(_) => Ok(ws_manager.open(addr)),
    }
}

/// Queues `message` for the connection to `addr`. Fails, with nothing queued
/// and the table left as it is, if there is no connection to `addr` or the
/// message does not fit a frame; no connection is made on the way.
pub fn send_message_to_peer(addr: String, message: String, ws_manager: &mut WsManager) -> (r: Result<
    (),
    String,
>)
    ensures
        final(ws_manager)@ == sent_state(old(ws_manager)@, addr@, message@),
        r is Ok <==> can_send(old(ws_manager)@, addr@, message@),
        r matches Err(text) ==> text@ == message_of(
            if !old(ws_manager)@.contains_key(addr@) {
                ChatErrorView::PeerUnreachable { addr: addr@ }
            } else {
                ChatErrorView::TooLong
            },
        ),
{
    match ws_manager.send_message(&addr, message.as_str()) {
        Ok(_) => Ok(()),
        Err(e) => Err(e.message()),
    }
}

} // verus!
