//! A remote peer as the application sees it: its id and where its
//! connection stands.
use crate::media::VideoBuffer;
use crate::protocol::{StreamRequest, StreamRequestResponse};
use crate::signal::PeerId;
use vstd::prelude::*;

verus! {

#[derive(Clone, Copy, Debug, PartialEq, Eq, Structural)]
pub enum DisconnectReason {
    UserInitiated,
    ConnectionFailed,
    RemoteClosed,
    Timeout,
}

#[derive(Clone, Copy, Debug, PartialEq, Eq, Structural)]
pub enum RemotePeerState {
    Connecting,
    Connected,
    Disconnecting,
    Disconnected { reason: DisconnectReason },
}

pub enum RemotePeerEvent {
    StateChanged { new_state: RemotePeerState },
    StreamRequested { request: StreamRequest },
    StreamResponse { response: StreamRequestResponse },
    VideoFrame { frame: VideoBuffer },
    AudioData { data: Vec<u8> },
    Disconnected { reason: DisconnectReason },
    Error { error: String },
}

/// A remote peer; its events arrive through the application's channel.
pub struct RemotePeer {
    peer_id: PeerId,
    state: RemotePeerState,
}

impl RemotePeer {
    pub closed spec fn spec_id(&self) -> Seq<char> {
        self.peer_id@
    }

    pub closed spec fn spec_state(&self) -> RemotePeerState {
        self.state
    }

    /// A remote peer starts out connecting.
    pub fn new(peer_id: PeerId) -> (p: RemotePeer)
        ensures
            p.spec_id() == peer_id@,
            p.spec_state() == RemotePeerState::Connecting,
    {
        RemotePeer { peer_id, state: RemotePeerState::Connecting }
    }

    pub fn id(&self) -> (id: &PeerId)
        ensures
            id@ == self.spec_id(),
    {
        &self.peer_id
    }

    pub fn state(&self) -> (s: &RemotePeerState)
        ensures
            *s == self.spec_state(),
    {
        &self.state
    }

    /// Giving up the remote peer always succeeds.
    pub fn disconnect(self) -> (r: Result<(), crate::error::Error>)
        ensures
            r is Ok,
    {
        Ok(())
    }
}

} // verus!
