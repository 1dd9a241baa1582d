//! What can go wrong, as typed values handed back to the caller.

use vstd::prelude::*;
use vstd::string::StringExecFns;

verus! {

/// An error of this engine.
#[derive(Debug, PartialEq, Eq)]
pub enum ChatError {
    /// Configuration: the persisted identity is missing or not valid.
    InvalidIdentity,
    /// Network I/O: a socket operation failed; `detail` is what the system said.
    Network { detail: String },
    /// Protocol: a discovery payload or a message frame is malformed.
    Malformed,
    /// Validation: a display name is empty or all whitespace.
    EmptyName,
    /// Validation: a text is too long for one block.
    TooLong,
    /// There is no live connection to `addr`.
    PeerUnreachable { addr: String },
    /// The advertiser no longer listens for re-advertisement requests.
    AdvertiserGone,
}

/// Mathematical value of a [`ChatError`].
pub enum ChatErrorView {
    InvalidIdentity,
    Network { detail: Seq<char> },
    Malformed,
    EmptyName,
    TooLong,
    PeerUnreachable { addr: Seq<char> },
    AdvertiserGone,
}

impl View for ChatError {
    type V = ChatErrorView;

    open spec fn view(&self) -> ChatErrorView {
        match *self {
            ChatError::InvalidIdentity => ChatErrorView::InvalidIdentity,
            ChatError::Network { detail } => ChatErrorView::Network { detail: detail@ },
            ChatError::Malformed => ChatErrorView::Malformed,
            ChatError::EmptyName => ChatErrorView::EmptyName,
            ChatError::TooLong => ChatErrorView::TooLong,
            ChatError::PeerUnreachable { addr } => ChatErrorView::PeerUnreachable { addr: addr@ },
            ChatError::AdvertiserGone => ChatErrorView::AdvertiserGone,
        }
    }
}

/// The text shown to the user for an error.
pub open spec fn message_of(e: ChatErrorView) -> Seq<char> {
    match e {
        ChatErrorView::InvalidIdentity => "Persisted identity is not valid"@,
        ChatErrorView::Network { detail } => "Network error: "@ + detail,
        ChatErrorView::Malformed => "Malformed data received"@,
        ChatErrorView::EmptyName => "Name cannot be empty"@,
        ChatErrorView::TooLong => "Text is too long"@,
        ChatErrorView::PeerUnreachable { addr } => "No connection to "@ + addr,
        ChatErrorView::AdvertiserGone => "Failed to trigger re-advertisement"@,
    }
}

impl ChatError {
    /// The text shown to the user for this error.
    pub fn message(&self) -> (r: String)
        ensures
            r@ == message_of(self@),
    {
        match self {
            ChatError::InvalidIdentity => String::from_str("Persisted identity is not valid"),
            ChatError::Network { detail } => String::from_str("Network error: ").concat(
                detail.as_str(),
            ),
            ChatError::Malformed => String::from_str("Malformed data received"),
            ChatError::EmptyName => String::from_str("Name cannot be empty"),
            ChatError::TooLong => String::from_str("Text is too long"),
            ChatError::PeerUnreachable { addr } => String::from_str("No connection to ").concat(
                addr.as_str(),
            ),
            ChatError::AdvertiserGone => String::from_str("Failed to trigger re-advertisement"),
        }
    }
}

} // verus!
