//! Errors of the peer library.
use crate::signal::{PeerId, SignallingError};
use vstd::prelude::*;

verus! {

pub enum SignalError {
    ConnectionFailed(String),
    ChannelClosed,
    InvalidMessage(String),
}

pub enum RtcError {
    ConnectionFailed(String),
    ChannelClosed,
    IceFailed,
}

pub enum MediaError {
    EncodingFailed(String),
    DecodingFailed(String),
    InvalidFormat,
}

/// Everything that can go wrong in the peer library. An I/O error is
/// kept as its message.
pub enum Error {
    Signaling(SignalError),
    WebRTC(RtcError),
    Media(MediaError),
    PeerNotFound(PeerId),
    ConnectionFailed(String),
    NotConnected,
    AlreadyConnected,
    Io(String),
}

impl SignalError {
    /// An error the signalling server reported, as the library reports it:
    /// an unknown peer is an invalid message, an internal error a failed
    /// connection.
    pub fn from_signalling(err: SignallingError) -> (e: SignalError)
        ensures
            err is NoSuchPeer ==> (e matches SignalError::InvalidMessage(m) && m@
                == "no such peer"@),
            err is InternalError ==> (e matches SignalError::ConnectionFailed(m) && m@
                == "internal error"@),
    {
        match err {
            SignallingError::NoSuchPeer(_) => SignalError::InvalidMessage(
                String::from_str("no such peer"),
            ),
            SignallingError::InternalError => SignalError::ConnectionFailed(
                String::from_str("internal error"),
            ),
        }
    }
}

} // verus!
