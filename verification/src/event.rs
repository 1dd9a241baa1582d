//! Events of the transport layer, keyed by remote address.

use vstd::prelude::*;

verus! {

/// What the transport layer reports to the shell.
#[derive(Debug, PartialEq, Eq)]
pub enum WsEvent {
    Connected { addr: String },
    Disconnected { addr: String },
    MessageReceived { addr: String, message: String },
}

/// Mathematical value of a [`WsEvent`].
pub enum WsEventView {
    Connected { addr: Seq<char> },
    Disconnected { addr: Seq<char> },
    MessageReceived { addr: Seq<char>, message: Seq<char> },
}

impl View for WsEvent {
    type V = WsEventView;

    open spec fn view(&self) -> WsEventView {
        match *self {
            WsEvent::Connected { addr } => WsEventView::Connected { addr: addr@ },
            WsEvent::Disconnected { addr } => WsEventView::Disconnected { addr: addr@ },
            WsEvent::MessageReceived { addr, message } => WsEventView::MessageReceived {
                addr: addr@,
                message: message@,
            },
        }
    }
}

impl DeepView for WsEvent {
    type V = WsEventView;

    open spec fn deep_view(&self) -> WsEventView {
        self@
    }
}

impl Clone for WsEvent {
    fn clone(&self) -> (r: Self)
        ensures
            r@ == self@,
    {
        match self {
            WsEvent::Connected { addr } => WsEvent::Connected { addr: addr.clone() },
            WsEvent::Disconnected { addr } => WsEvent::Disconnected { addr: addr.clone() },
            WsEvent::MessageReceived { addr, message } => WsEvent::MessageReceived {
                addr: addr.clone(),
                message: message.clone(),
            },
        }
    }
}

/// The shell event under which a transport event is published.
pub fn ws_event_name(event: &WsEvent) -> (name: &'static str)
    ensures
        name@ == ws_event_name_spec(event@),
{
    match event {
        WsEvent::Connected { .. } => "ws-connected",
        WsEvent::Disconnected { .. } => "ws-disconnected",
        WsEvent::MessageReceived { .. } => "ws-message",
    }
}

pub open spec fn ws_event_name_spec(event: WsEventView) -> Seq<char> {
    match event {
        WsEventView::Connected { .. } => "ws-connected"@,
        WsEventView::Disconnected { .. } => "ws-disconnected"@,
        WsEventView::MessageReceived { .. } => "ws-message"@,
    }
}

} // verus!
