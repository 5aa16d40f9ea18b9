//! A local peer: its id, the remote peers it is connected to and the
//! connection requests it may still accept, and how it answers its
//! owner's requests and the signalling service's events.
use crate::connection::PeerConnectionControl;
use crate::error::Error;
use crate::media::Encoder;
use crate::protocol::StreamRequest;
use crate::rtc::Api;
use crate::signal::{ConnectionId, PeerId, SignallingControl, SignallingEvent};
use std::collections::HashMap;
use vstd::prelude::*;

verus! {

broadcast use vstd::std_specs::hash::group_hash_axioms;

/// A session description or candidate from a remote peer.
pub enum SignalMessage {
    Offer(String),
    Answer(String),
    IceCandidate(String),
}

#[derive(Clone, Copy, Debug, PartialEq, Eq, Structural)]
pub enum DisconnectReason {
    UserInitiated,
    ConnectionFailed,
    RemoteClosed,
    Timeout,
}

/// What a peer reports to its owner.
pub enum PeerEvent {
    ConnectionRequested { peer_id: PeerId, connection_id: ConnectionId },
    PeerConnected { peer_id: PeerId },
    PeerDisconnected { peer_id: PeerId, reason: DisconnectReason },
    SignalMessage { peer_id: PeerId, message: SignalMessage },
    IncomingStream { peer_id: PeerId },
    Error { peer_id: Option<PeerId>, error: String },
}

/// How a peer is set up.
pub struct PeerConfig {
    pub signal_server: String,
    pub webrtc_api: Api,
    pub encoder: Encoder,
    pub width: u32,
    pub height: u32,
    pub framerate: u32,
    pub bitrate: u32,
    pub media_filename: Option<String>,
}

impl Default for PeerConfig {
    fn default() -> (c: PeerConfig)
        ensures
            c.signal_server@ == "wss://signall.ing"@,
            c.webrtc_api == Api::WebrtcRs,
            c.encoder == Encoder::MediaFoundation,
            c.width == 1920,
            c.height == 1080,
            c.framerate == 30,
            c.bitrate == 8_000_000,
            c.media_filename is None,
    {
        PeerConfig {
            signal_server: String::from_str("wss://signall.ing"),
            webrtc_api: Api::WebrtcRs,
            encoder: Encoder::MediaFoundation,
            width: 1920,
            height: 1080,
            framerate: 30,
            bitrate: 8_000_000,
            media_filename: None,
        }
    }
}

/// The peer's bookkeeping as values.
pub struct PeerModel {
    pub id: Seq<char>,
    pub config: PeerConfig,
    pub remote_peers: Set<Seq<char>>,
    pub pending_connections: Map<u128, Seq<char>>,
}

/// Whether asking to connect to `p` is refused: it is already connected.
pub open spec fn connect_refused(m: PeerModel, p: Seq<char>) -> bool {
    m.remote_peers.contains(p)
}

/// The bookkeeping once a connection to `p` is up.
pub open spec fn with_connected(m: PeerModel, p: Seq<char>) -> PeerModel {
    PeerModel { remote_peers: m.remote_peers.insert(p), ..m }
}

/// The bookkeeping once disconnected from `p`.
pub open spec fn with_disconnected(m: PeerModel, p: Seq<char>) -> PeerModel {
    PeerModel { remote_peers: m.remote_peers.remove(p), ..m }
}

/// The local peer.
pub struct Peer {
    id: PeerId,
    config: PeerConfig,
    remote_peers: Vec<PeerId>,
    pending_connections: HashMap<ConnectionId, PeerId>,
}

pub open spec fn peer_ids(s: Seq<PeerId>) -> Set<Seq<char>> {
    Set::new(|p: Seq<char>| exists|i: int| 0 <= i < s.len() && (#[trigger] s[i])@ == p)
}

impl View for Peer {
    type V = PeerModel;

    closed spec fn view(&self) -> PeerModel {
        PeerModel {
            id: self.id@,
            config: self.config,
            remote_peers: peer_ids(self.remote_peers@),
            pending_connections: self.pending_connections@.map_values(|p: PeerId| p@),
        }
    }
}

/// What the peer does for an event of the signalling service.
pub enum SignalOutcome {
    /// Nothing (a repeated id, or an error that is only logged).
    Ignore,
    /// Report this to the owner.
    Emit(PeerEvent),
    /// The named peer accepted our request: open a connection to it as
    /// the controlling side, and report it connected once that worked.
    Connect(PeerId),
}

impl Peer {
    /// Each connected peer is listed once.
    #[verifier::type_invariant]
    spec fn inv(&self) -> bool {
        forall|i: int, j: int|
            0 <= i < j < self.remote_peers@.len() ==> (#[trigger] self.remote_peers@[i])@ != (
            #[trigger] self.remote_peers@[j])@
    }

    /// A peer that got `id` from the signalling service, with no
    /// connections yet.
    pub fn new(id: PeerId, config: PeerConfig) -> (p: Peer)
        ensures
            p@.id == id@,
            p@.remote_peers == Set::<Seq<char>>::empty(),
            p@.pending_connections == Map::<u128, Seq<char>>::empty(),
            p@.config == config,
    {
        let remote_peers: Vec<PeerId> = Vec::new();
        let p = Peer { id, config, remote_peers, pending_connections: HashMap::new() };
        assert(p@.remote_peers =~= Set::<Seq<char>>::empty());
        assert(p@.pending_connections =~= Map::<u128, Seq<char>>::empty());
        p
    }

    pub fn id(&self) -> (id: &PeerId)
        ensures
            id@ == self@.id,
    {
        &self.id
    }

    pub fn config(&self) -> (c: &PeerConfig)
        ensures
            *c == self@.config,
    {
        &self.config
    }

    fn find_remote(&self, p: &PeerId) -> (r: Option<usize>)
        ensures
            match r {
                Some(i) => i < self.remote_peers@.len() && self.remote_peers@[i as int]@ == p@,
                None => !self@.remote_peers.contains(p@),
            },
    {
        let mut i: usize = 0;
        while i < self.remote_peers.len()
            invariant
                i <= self.remote_peers@.len(),
                forall|j: int| 0 <= j < i ==> (#[trigger] self.remote_peers@[j])@ != p@,
            decreases self.remote_peers.len() - i,
        {
            if self.remote_peers[i] == *p {
                return Some(i);
            }
            i = i + 1;
        }
        None
    }

    /// Whether the peer is connected to `peer_id`.
    pub fn is_connected(&self, peer_id: &PeerId) -> (r: bool)
        ensures
            r == self@.remote_peers.contains(peer_id@),
    {
        match self.find_remote(peer_id) {
            Some(_) => true,
            None => false,
        }
    }

    /// Asking to connect to a peer: refused when already connected to it,
    /// otherwise the request to send through signalling.
    pub fn connect(&self, peer_id: PeerId) -> (r: Result<SignallingControl, Error>)
        ensures
            connect_refused(self@, peer_id@) ==> r matches Err(Error::AlreadyConnected),
            !connect_refused(self@, peer_id@) ==> (r matches Ok(
                SignallingControl::RequestConnection(p),
            ) && p@ == peer_id@),
    {
        if self.is_connected(&peer_id) {
            Err(Error::AlreadyConnected)
        } else {
            Ok(SignallingControl::RequestConnection(peer_id))
        }
    }

    /// Accepting a pending connection request: it is taken out of the
    /// pending ones, and the peer that asked is handed back with the
    /// acceptance to send through signalling; without such a request this
    /// fails with "No pending connection".
    pub fn accept_connection(&mut self, connection_id: ConnectionId) -> (r: Result<
        (PeerId, SignallingControl),
        Error,
    >)
        ensures
            final(self)@.id == old(self)@.id,
            final(self)@.config == old(self)@.config,
            final(self)@.remote_peers == old(self)@.remote_peers,
            final(self)@.pending_connections == old(self)@.pending_connections.remove(connection_id),
            old(self)@.pending_connections.contains_key(connection_id) ==> (r matches Ok(
                (p, SignallingControl::AcceptConnection(c)),
            ) && p@ == old(self)@.pending_connections[connection_id] && c == connection_id),
            !old(self)@.pending_connections.contains_key(connection_id) ==> (r matches Err(
                Error::ConnectionFailed(m),
            ) && m@ == "No pending connection"@),
    {
        proof {
            use_type_invariant(&*self);
        }
        let ghost old_pending = self.pending_connections@;
        let mut pending: HashMap<ConnectionId, PeerId> = HashMap::new();
        std::mem::swap(&mut pending, &mut self.pending_connections);
        let removed = pending.remove(&connection_id);
        self.pending_connections = pending;
        assert(self@.pending_connections =~= old_pending.map_values(|p: PeerId| p@).remove(
            connection_id,
        ));
        match removed {
            Some(peer_id) => Ok((peer_id, SignallingControl::AcceptConnection(connection_id))),
            None => Err(Error::ConnectionFailed(String::from_str("No pending connection"))),
        }
    }

    /// A connection to `peer_id` is up: the peer counts as connected and
    /// the owner is told.
    pub fn connected(&mut self, peer_id: PeerId) -> (e: PeerEvent)
        ensures
            final(self)@ == with_connected(old(self)@, peer_id@),
            e matches PeerEvent::PeerConnected { peer_id: p } && p@ == peer_id@,
    {
        proof {
            use_type_invariant(&*self);
        }
        let ghost old_peers = self.remote_peers@;
        let ev = PeerEvent::PeerConnected { peer_id: peer_id.clone() };
        let found = self.find_remote(&peer_id);
        let mut peers: Vec<PeerId> = Vec::new();
        std::mem::swap(&mut peers, &mut self.remote_peers);
        match found {
            Some(_) => {
                assert(peer_ids(peers@) =~= peer_ids(old_peers).insert(peer_id@));
            },
            None => {
                let ghost pv = peer_id@;
                peers.push(peer_id);
                proof {
                    let np = peers@;
                    assert forall|p: Seq<char>| peer_ids(np).contains(p) <==> peer_ids(old_peers).insert(pv).contains(p) by {
                        if peer_ids(np).contains(p) {
                            let i = choose|i: int| 0 <= i < np.len() && (#[trigger] np[i])@ == p;
                            if i < old_peers.len() {
                                assert(old_peers[i] == np[i]);
                            }
                        }
                        if peer_ids(old_peers).contains(p) {
                            let i = choose|i: int| 0 <= i < old_peers.len() && (#[trigger] old_peers[i])@ == p;
                            assert(np[i] == old_peers[i]);
                        }
                        if p == pv {
                            assert(np[np.len() - 1]@ == p);
                        }
                    }
                    assert(peer_ids(np) =~= peer_ids(old_peers).insert(pv));
                    assert forall|i: int, j: int| 0 <= i < j < np.len() implies (#[trigger] np[i])@ != (#[trigger] np[j])@ by {
                        if j == np.len() - 1 {
                            assert(np[i] == old_peers[i]);
                            assert(peer_ids(old_peers).contains(np[i]@));
                        } else {
                            assert(np[i] == old_peers[i] && np[j] == old_peers[j]);
                        }
                    }
                }
            },
        }
        self.remote_peers = peers;
        ev
    }

    /// Disconnecting from a peer: when connected to it, it is forgotten,
    /// its connection is told to disconnect and the owner is told the user
    /// asked for it; otherwise nothing happens.
    pub fn disconnect(&mut self, peer_id: &PeerId) -> (e: Option<(PeerConnectionControl, PeerEvent)>)
        ensures
            final(self)@ == with_disconnected(old(self)@, peer_id@),
            old(self)@.remote_peers.contains(peer_id@) ==> (e matches Some(
                (
                    PeerConnectionControl::Disconnect,
                    PeerEvent::PeerDisconnected { peer_id: p, reason: DisconnectReason::UserInitiated },
                ),
            ) && p@ == peer_id@),
            !old(self)@.remote_peers.contains(peer_id@) ==> e is None,
    {
        proof {
            use_type_invariant(&*self);
        }
        let ghost old_peers = self.remote_peers@;
        let found = self.find_remote(peer_id);
        let mut peers: Vec<PeerId> = Vec::new();
        std::mem::swap(&mut peers, &mut self.remote_peers);
        let r = match found {
            Some(i) => {
                peers.remove(i);
                proof {
                    let np = peers@;
                    assert forall|p: Seq<char>| peer_ids(np).contains(p) <==> peer_ids(old_peers).remove(peer_id@).contains(p) by {
                        if peer_ids(np).contains(p) {
                            let k = choose|k: int| 0 <= k < np.len() && (#[trigger] np[k])@ == p;
                            if k < i {
                                assert(np[k] == old_peers[k]);
                                assert(old_peers[k]@ != old_peers[i as int]@);
                            } else {
                                assert(np[k] == old_peers[k + 1]);
                                assert(old_peers[k + 1]@ != old_peers[i as int]@);
                            }
                        }
                        if peer_ids(old_peers).remove(peer_id@).contains(p) {
                            let k = choose|k: int| 0 <= k < old_peers.len() && (#[trigger] old_peers[k])@ == p;
                            assert(k != i);
                            if k < i {
                                assert(np[k] == old_peers[k]);
                            } else {
                                assert(np[k - 1] == old_peers[k]);
                            }
                        }
                    }
                    assert(peer_ids(np) =~= peer_ids(old_peers).remove(peer_id@));
                    assert forall|a: int, b: int| 0 <= a < b < np.len() implies (#[trigger] np[a])@ != (#[trigger] np[b])@ by {
                        let a2 = if a < i { a } else { a + 1 };
                        let b2 = if b < i { b } else { b + 1 };
                        assert(np[a] == old_peers[a2] && np[b] == old_peers[b2]);
                    }
                }
                Some(
                    (
                        PeerConnectionControl::Disconnect,
                        PeerEvent::PeerDisconnected {
                            peer_id: peer_id.clone(),
                            reason: DisconnectReason::UserInitiated,
                        },
                    ),
                )
            },
            None => {
                assert(peer_ids(peers@) =~= peer_ids(old_peers).remove(peer_id@));
                None
            },
        };
        self.remote_peers = peers;
        r
    }

    /// Asking a peer for a stream: the control that carries the request to
    /// the peer's connection; fails with `PeerNotFound` naming it when not
    /// connected to it.
    pub fn request_stream(&self, peer_id: &PeerId, request: StreamRequest) -> (r: Result<
        PeerConnectionControl,
        Error,
    >)
        ensures
            self@.remote_peers.contains(peer_id@) ==> r == Ok::<PeerConnectionControl, Error>(
                PeerConnectionControl::RequestStream(request),
            ),
            !self@.remote_peers.contains(peer_id@) ==> (r matches Err(Error::PeerNotFound(p)) && p@
                == peer_id@),
    {
        if self.is_connected(peer_id) {
            Ok(PeerConnectionControl::RequestStream(request))
        } else {
            Err(Error::PeerNotFound(peer_id.clone()))
        }
    }

    /// The peers connected to, each once.
    pub fn connected_peers(&self) -> (ps: Vec<PeerId>)
        ensures
            peer_ids(ps@) == self@.remote_peers,
            forall|i: int, j: int| 0 <= i < j < ps@.len() ==> (#[trigger] ps@[i])@ != (#[trigger] ps@[j])@,
    {
        proof {
            use_type_invariant(self);
        }
        let mut ps: Vec<PeerId> = Vec::new();
        let mut i: usize = 0;
        while i < self.remote_peers.len()
            invariant
                i <= self.remote_peers@.len(),
                ps@.len() == i,
                forall|j: int| 0 <= j < i ==> (#[trigger] ps@[j])@ == self.remote_peers@[j]@,
            decreases self.remote_peers.len() - i,
        {
            ps.push(self.remote_peers[i].clone());
            i = i + 1;
        }
        proof {
            assert forall|p: Seq<char>| peer_ids(ps@).contains(p) <==> peer_ids(self.remote_peers@).contains(p) by {
                if peer_ids(ps@).contains(p) {
                    let k = choose|k: int| 0 <= k < ps@.len() && (#[trigger] ps@[k])@ == p;
                    assert(self.remote_peers@[k]@ == p);
                }
                if peer_ids(self.remote_peers@).contains(p) {
                    let k = choose|k: int| 0 <= k < self.remote_peers@.len() && (#[trigger] self.remote_peers@[k])@ == p;
                    assert(ps@[k]@ == p);
                }
            }
            assert(peer_ids(ps@) =~= self@.remote_peers);
            assert forall|a: int, b: int| 0 <= a < b < ps@.len() implies (#[trigger] ps@[a])@ != (#[trigger] ps@[b])@ by {
                assert(ps@[a]@ == self.remote_peers@[a]@ && ps@[b]@ == self.remote_peers@[b]@);
            }
        }
        ps
    }
}

/// The id in the first message of the signalling service, which is the
/// only one the peer waits for; any other event before it is skipped.
pub fn id_from_event(e: SignallingEvent) -> (id: Option<PeerId>)
    ensures
        match e {
            SignallingEvent::Id(p) => id == Some(p),
            _ => id is None,
        },
{
    match e {
        SignallingEvent::Id(p) => Some(p),
        _ => None,
    }
}

/// One step of waiting for the peer's id: the id ends the wait, any other
/// event is skipped, and a signalling stream that ends first fails the
/// peer with "Signal channel closed".
pub fn id_wait_step(e: Option<SignallingEvent>) -> (r: Result<Option<PeerId>, Error>)
    ensures
        match e {
            Some(SignallingEvent::Id(p)) => r == Ok::<Option<PeerId>, Error>(Some(p)),
            Some(_) => r == Ok::<Option<PeerId>, Error>(None),
            None => r matches Err(Error::ConnectionFailed(m)) && m@ == "Signal channel closed"@,
        },
{
    match e {
        Some(ev) => Ok(id_from_event(ev)),
        None => {
            let m = String::from_str("Signal channel closed");
            proof {
                reveal_strlit("Signal channel closed");
            }
            Err(Error::ConnectionFailed(m))
        },
    }
}

/// What the peer does for an event of the signalling service once it has
/// its id: connection requests and session descriptions and candidates
/// are reported to the owner with the peer they came from, an accepted
/// request opens a connection, anything else is ignored.
pub fn handle_signal_event(e: SignallingEvent) -> (o: SignalOutcome)
    ensures
        match e {
            SignallingEvent::Id(_) => o is Ignore,
            SignallingEvent::Error(_) => o is Ignore,
            SignallingEvent::ConectionRequest(p, c) => o == SignalOutcome::Emit(
                PeerEvent::ConnectionRequested { peer_id: p, connection_id: c },
            ),
            SignallingEvent::ConnectionAccepted(p, _) => o == SignalOutcome::Connect(p),
            SignallingEvent::Offer(p, s) => o == SignalOutcome::Emit(
                PeerEvent::SignalMessage { peer_id: p, message: SignalMessage::Offer(s) },
            ),
            SignallingEvent::Answer(p, s) => o == SignalOutcome::Emit(
                PeerEvent::SignalMessage { peer_id: p, message: SignalMessage::Answer(s) },
            ),
            SignallingEvent::IceCandidate(p, s) => o == SignalOutcome::Emit(
                PeerEvent::SignalMessage { peer_id: p, message: SignalMessage::IceCandidate(s) },
            ),
        },
{
    match e {
        SignallingEvent::Id(_) => SignalOutcome::Ignore,
        SignallingEvent::ConectionRequest(peer_id, connection_id) => SignalOutcome::Emit(
            PeerEvent::ConnectionRequested { peer_id, connection_id },
        ),
        SignallingEvent::ConnectionAccepted(peer_id, _) => SignalOutcome::Connect(peer_id),
        SignallingEvent::Offer(peer_id, offer) => SignalOutcome::Emit(
            PeerEvent::SignalMessage { peer_id, message: SignalMessage::Offer(offer) },
        ),
        SignallingEvent::Answer(peer_id, answer) => SignalOutcome::Emit(
            PeerEvent::SignalMessage { peer_id, message: SignalMessage::Answer(answer) },
        ),
        SignallingEvent::IceCandidate(peer_id, candidate) => SignalOutcome::Emit(
            PeerEvent::SignalMessage { peer_id, message: SignalMessage::IceCandidate(candidate) },
        ),
        SignallingEvent::Error(_) => SignalOutcome::Ignore,
    }
}

/// Connecting is refused exactly while connected: once a connection to
/// `p` is up, asking to connect to it fails with `AlreadyConnected`
/// (`connect`), and once disconnected from it (`disconnect`), asking is
/// sent on to the server again; other peers are not affected.
pub proof fn law_connected_refuses_connect(m: PeerModel, p: Seq<char>, q: Seq<char>)
    requires
        q != p,
    ensures
        connect_refused(with_connected(m, p), p),
        !connect_refused(with_disconnected(with_connected(m, p), p), p),
        connect_refused(with_connected(m, p), q) == connect_refused(m, q),
        connect_refused(with_disconnected(m, p), q) == connect_refused(m, q),
{
}

} // verus!
