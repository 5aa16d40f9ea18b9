//! The signalling service: how the server routes what peers send it, and
//! how a peer's client turns its own requests into messages for the
//! server and the server's messages into events.
//!
//! Peers are known to the server by a short random id; a connection
//! request gets a random connection id, is remembered by the server, and
//! can be accepted once, by the peer it was addressed to.
use rand::Rng;
use vstd::prelude::*;

verus! {

pub type PeerId = String;

/// A connection id is a random (version 4) UUID, kept as its 128-bit value.
pub type ConnectionId = u128;

// ---------------------------------------------------------------------------
// Messages
// ---------------------------------------------------------------------------

pub enum SignallingError {
    NoSuchPeer(PeerId),
    InternalError,
}

pub enum SignallingErrorView {
    NoSuchPeer(Seq<char>),
    InternalError,
}

impl View for SignallingError {
    type V = SignallingErrorView;

    open spec fn view(&self) -> SignallingErrorView {
        match self {
            SignallingError::NoSuchPeer(p) => SignallingErrorView::NoSuchPeer(p@),
            SignallingError::InternalError => SignallingErrorView::InternalError,
        }
    }
}

/// What a peer asks of the server.
pub enum PeerToServer {
    IceCandidate(PeerId, String),
    Offer(PeerId, String),
    Answer(PeerId, String),
    ConnectToPeer(PeerId),
    AcceptConnection(ConnectionId),
}

pub enum PeerToServerView {
    IceCandidate(Seq<char>, Seq<char>),
    Offer(Seq<char>, Seq<char>),
    Answer(Seq<char>, Seq<char>),
    ConnectToPeer(Seq<char>),
    AcceptConnection(u128),
}

impl View for PeerToServer {
    type V = PeerToServerView;

    open spec fn view(&self) -> PeerToServerView {
        match self {
            PeerToServer::IceCandidate(p, s) => PeerToServerView::IceCandidate(p@, s@),
            PeerToServer::Offer(p, s) => PeerToServerView::Offer(p@, s@),
            PeerToServer::Answer(p, s) => PeerToServerView::Answer(p@, s@),
            PeerToServer::ConnectToPeer(p) => PeerToServerView::ConnectToPeer(p@),
            PeerToServer::AcceptConnection(c) => PeerToServerView::AcceptConnection(*c),
        }
    }
}

pub struct PeerToServerMessage {
    pub job_id: usize,
    pub inner: PeerToServer,
}

/// What the server tells a peer.
pub enum ServerToPeer {
    Id(PeerId),
    ConnectionRequest(PeerId, ConnectionId),
    ConnectionAccepted(PeerId, ConnectionId),
    Offer(PeerId, String),
    Answer(PeerId, String),
    IceCandidate(PeerId, String),
    Error(SignallingError),
}

pub enum ServerToPeerView {
    Id(Seq<char>),
    ConnectionRequest(Seq<char>, u128),
    ConnectionAccepted(Seq<char>, u128),
    Offer(Seq<char>, Seq<char>),
    Answer(Seq<char>, Seq<char>),
    IceCandidate(Seq<char>, Seq<char>),
    Error(SignallingErrorView),
}

impl View for ServerToPeer {
    type V = ServerToPeerView;

    open spec fn view(&self) -> ServerToPeerView {
        match self {
            ServerToPeer::Id(p) => ServerToPeerView::Id(p@),
            ServerToPeer::ConnectionRequest(p, c) => ServerToPeerView::ConnectionRequest(p@, *c),
            ServerToPeer::ConnectionAccepted(p, c) => ServerToPeerView::ConnectionAccepted(p@, *c),
            ServerToPeer::Offer(p, s) => ServerToPeerView::Offer(p@, s@),
            ServerToPeer::Answer(p, s) => ServerToPeerView::Answer(p@, s@),
            ServerToPeer::IceCandidate(p, s) => ServerToPeerView::IceCandidate(p@, s@),
            ServerToPeer::Error(e) => ServerToPeerView::Error(e@),
        }
    }
}

pub struct ServerToPeerMessage {
    pub job_id: usize,
    pub inner: ServerToPeer,
}

/// A message the server is to deliver, and to whom.
pub struct Outgoing {
    pub to: PeerId,
    pub message: ServerToPeerMessage,
}

pub struct OutgoingView {
    pub to: Seq<char>,
    pub job_id: usize,
    pub inner: ServerToPeerView,
}

impl View for Outgoing {
    type V = OutgoingView;

    open spec fn view(&self) -> OutgoingView {
        OutgoingView { to: self.to@, job_id: self.message.job_id, inner: self.message.inner@ }
    }
}

pub open spec fn outgoing_view(s: Seq<Outgoing>) -> Seq<OutgoingView> {
    s.map_values(|o: Outgoing| o@)
}

/// What a peer's program asks its signalling client to do.
pub enum SignallingControl {
    IceCandidate(PeerId, String),
    Offer(PeerId, String),
    Answer(PeerId, String),
    RequestConnection(PeerId),
    AcceptConnection(ConnectionId),
    RejectConnection(ConnectionId),
}

pub enum SignallingControlView {
    IceCandidate(Seq<char>, Seq<char>),
    Offer(Seq<char>, Seq<char>),
    Answer(Seq<char>, Seq<char>),
    RequestConnection(Seq<char>),
    AcceptConnection(u128),
    RejectConnection(u128),
}

impl View for SignallingControl {
    type V = SignallingControlView;

    open spec fn view(&self) -> SignallingControlView {
        match self {
            SignallingControl::IceCandidate(p, s) => SignallingControlView::IceCandidate(p@, s@),
            SignallingControl::Offer(p, s) => SignallingControlView::Offer(p@, s@),
            SignallingControl::Answer(p, s) => SignallingControlView::Answer(p@, s@),
            SignallingControl::RequestConnection(p) => SignallingControlView::RequestConnection(p@),
            SignallingControl::AcceptConnection(c) => SignallingControlView::AcceptConnection(*c),
            SignallingControl::RejectConnection(c) => SignallingControlView::RejectConnection(*c),
        }
    }
}

/// What the signalling client reports to the peer's program.
pub enum SignallingEvent {
    Id(PeerId),
    ConectionRequest(PeerId, ConnectionId),
    Offer(PeerId, String),
    Answer(PeerId, String),
    IceCandidate(PeerId, String),
    ConnectionAccepted(PeerId, ConnectionId),
    Error(SignallingError),
}

pub enum SignallingEventView {
    Id(Seq<char>),
    ConectionRequest(Seq<char>, u128),
    Offer(Seq<char>, Seq<char>),
    Answer(Seq<char>, Seq<char>),
    IceCandidate(Seq<char>, Seq<char>),
    ConnectionAccepted(Seq<char>, u128),
    Error(SignallingErrorView),
}

impl View for SignallingEvent {
    type V = SignallingEventView;

    open spec fn view(&self) -> SignallingEventView {
        match self {
            SignallingEvent::Id(p) => SignallingEventView::Id(p@),
            SignallingEvent::ConectionRequest(p, c) => SignallingEventView::ConectionRequest(p@, *c),
            SignallingEvent::Offer(p, s) => SignallingEventView::Offer(p@, s@),
            SignallingEvent::Answer(p, s) => SignallingEventView::Answer(p@, s@),
            SignallingEvent::IceCandidate(p, s) => SignallingEventView::IceCandidate(p@, s@),
            SignallingEvent::ConnectionAccepted(p, c) => SignallingEventView::ConnectionAccepted(
                p@,
                *c,
            ),
            SignallingEvent::Error(e) => SignallingEventView::Error(e@),
        }
    }
}

// ---------------------------------------------------------------------------
// Ids
// ---------------------------------------------------------------------------

/// Length of a peer id.
pub const ID_LEN: usize = 5;

/// Number of characters a peer id is drawn from.
pub const ID_CHARSET_LEN: usize = 36;

/// The `i`-th character of the id alphabet: `A`..`Z` then `0`..`9`.
pub open spec fn id_char(i: int) -> char {
    if i < 26 {
        (65 + i) as char
    } else {
        (48 + (i - 26)) as char
    }
}

/// Whether `c` is an upper-case ASCII letter or an ASCII digit.
pub open spec fn is_id_char(c: char) -> bool {
    ('A' <= c && c <= 'Z') || ('0' <= c && c <= '9')
}

/// The id alphabet is exactly the upper-case letters and the digits, each
/// once: every draw below the alphabet's size names an id character,
/// different draws name different characters, and every id character is
/// named by some draw.
pub proof fn law_id_alphabet(i: int, j: int, c: char)
    requires
        0 <= i < ID_CHARSET_LEN,
        0 <= j < ID_CHARSET_LEN,
    ensures
        is_id_char(id_char(i)),
        i != j ==> id_char(i) != id_char(j),
        is_id_char(c) ==> exists|k: int| 0 <= k < ID_CHARSET_LEN && id_char(k) == c,
{
    assert(id_char(i) as int == if i < 26 { 65 + i } else { 48 + (i - 26) });
    assert(id_char(j) as int == if j < 26 { 65 + j } else { 48 + (j - 26) });
    if is_id_char(c) {
        let k: int = if 'A' <= c && c <= 'Z' { c as int - 65 } else { c as int - 48 + 26 };
        assert(id_char(k) as int == c as int);
        assert(id_char(k) == c);
    }
}

fn charset_char(i: usize) -> (c: char)
    requires
        i < ID_CHARSET_LEN,
    ensures
        c == id_char(i as int),
        is_id_char(c),
{
    let b: u8 = if i < 26 {
        65u8 + (i as u8)
    } else {
        48u8 + ((i - 26) as u8)
    };
    b as char
}

/// Appends `c` to `s`: calls `String::push`, which appends the given
/// character to the end of the string.
#[verifier::external_body]
fn push_char(s: &mut String, c: char)
    ensures
        final(s)@ == old(s)@.push(c),
{
    s.push(c)
}

#[verifier::external_type_specification]
#[verifier::external_body]
pub struct ExThreadRng(rand::rngs::ThreadRng);

/// The thread-local random generator: calls `rand::thread_rng`.
#[verifier::external_body]
fn thread_rng() -> (rng: rand::rngs::ThreadRng) {
    rand::thread_rng()
}

/// A random index below `n`: calls `Rng::gen_range` on `0..n`, which
/// samples uniformly from the half-open range and panics on an empty one.
#[verifier::external_body]
fn gen_index(rng: &mut rand::rngs::ThreadRng, n: usize) -> (i: usize)
    requires
        n > 0,
    ensures
        i < n,
{
    rng.gen_range(0..n)
}

/// A fresh peer id: five characters drawn at random from `A`..`Z` and
/// `0`..`9`.
pub fn make_id() -> (id: PeerId)
    ensures
        id@.len() == ID_LEN,
        forall|i: int| 0 <= i < id@.len() ==> is_id_char(#[trigger] id@[i]),
{
    let mut rng = thread_rng();
    let mut id = String::new();
    let mut k: usize = 0;
    while k < ID_LEN
        invariant
            k <= ID_LEN,
            id@.len() == k,
            forall|i: int| 0 <= i < id@.len() ==> is_id_char(#[trigger] id@[i]),
        decreases ID_LEN - k,
    {
        let i = gen_index(&mut rng, ID_CHARSET_LEN);
        let c = charset_char(i);
        push_char(&mut id, c);
        k = k + 1;
    }
    id
}

/// The 128-bit value of a fresh random UUID: calls `uuid::Uuid::new_v4`
/// and `Uuid::as_u128`. The version field (bits 76..80) is 4 and the
/// variant field (bits 62..64) is `0b10`, as `new_v4` sets them; the other
/// bits are random, and nothing is stated of them.
#[verifier::external_body]
fn uuid_v4() -> (id: u128)
    ensures
        (id >> 76u128) & 0xfu128 == 4u128,
        (id >> 62u128) & 0x3u128 == 2u128,
{
    uuid::Uuid::new_v4().as_u128()
}

/// A fresh connection id: a random version 4 UUID.
pub fn make_connection_id() -> (id: ConnectionId)
    ensures
        (id >> 76u128) & 0xfu128 == 4u128,
        (id >> 62u128) & 0x3u128 == 2u128,
{
    uuid_v4()
}

// ---------------------------------------------------------------------------
// Server
// ---------------------------------------------------------------------------

/// The server's state as values: connected peers, and the pending
/// connection requests by id as (requester, requestee).
pub struct ServerModel {
    pub peers: Set<Seq<char>>,
    pub requests: Map<u128, (Seq<char>, Seq<char>)>,
}

/// The messages the server sends for one message from `from`, or the
/// error it answers with, and its state afterwards. `fresh` is the id a
/// new connection request gets.
pub open spec fn server_step(
    s: ServerModel,
    from: Seq<char>,
    job_id: usize,
    m: PeerToServerView,
    fresh: u128,
) -> (ServerModel, Result<Seq<OutgoingView>, SignallingErrorView>) {
    match m {
        PeerToServerView::IceCandidate(to, x) => if s.peers.contains(to) {
            (
                s,
                Ok(
                    seq![OutgoingView { to: to, job_id: 0, inner: ServerToPeerView::IceCandidate(from, x) }],
                ),
            )
        } else {
            (s, Err(SignallingErrorView::NoSuchPeer(to)))
        },
        PeerToServerView::Offer(to, x) => if s.peers.contains(to) {
            (
                s,
                Ok(seq![OutgoingView { to: to, job_id: 0, inner: ServerToPeerView::Offer(from, x) }]),
            )
        } else {
            (s, Err(SignallingErrorView::NoSuchPeer(to)))
        },
        PeerToServerView::Answer(to, x) => if s.peers.contains(to) {
            (
                s,
                Ok(seq![OutgoingView { to: to, job_id: 0, inner: ServerToPeerView::Answer(from, x) }]),
            )
        } else {
            (s, Err(SignallingErrorView::NoSuchPeer(to)))
        },
        PeerToServerView::ConnectToPeer(to) => if to == from {
            (s, Ok(Seq::empty()))
        } else if s.peers.contains(to) {
            (
                ServerModel { peers: s.peers, requests: s.requests.insert(fresh, (from, to)) },
                Ok(
                    seq![OutgoingView { to: to, job_id: job_id, inner: ServerToPeerView::ConnectionRequest(from, fresh) }],
                ),
            )
        } else {
            (s, Err(SignallingErrorView::NoSuchPeer(to)))
        },
        PeerToServerView::AcceptConnection(c) => if s.requests.contains_key(c)
            && s.requests[c].1 == from {
            let requester = s.requests[c].0;
            let requestee = s.requests[c].1;
            (
                ServerModel { peers: s.peers, requests: s.requests.remove(c) },
                Ok(
                    if s.peers.contains(requester) && s.peers.contains(requestee) {
                        seq![OutgoingView { to: requester, job_id: 0, inner: ServerToPeerView::ConnectionAccepted(requestee, c) }]
                    } else {
                        Seq::empty()
                    },
                ),
            )
        } else {
            (s, Ok(Seq::empty()))
        },
    }
}

pub open spec fn routed_view(r: Result<Vec<Outgoing>, SignallingError>) -> Result<
    Seq<OutgoingView>,
    SignallingErrorView,
> {
    match r {
        Ok(v) => Ok(outgoing_view(v@)),
        Err(e) => Err(e@),
    }
}

/// The server's own invariant: no peer has asked to connect to itself.
pub open spec fn server_wf(s: ServerModel) -> bool {
    &&& s.peers.finite()
    &&& s.requests.dom().finite()
    &&& forall|c: u128| #[trigger] s.requests.contains_key(c) ==> s.requests[c].0 != s.requests[c].1
}

/// The routing state of the signalling server.
pub struct SignalServer {
    peers: Vec<PeerId>,
    requests: std::collections::HashMap<ConnectionId, (PeerId, PeerId)>,
}

pub open spec fn peer_set(peers: Seq<PeerId>) -> Set<Seq<char>> {
    Set::new(|p: Seq<char>| exists|i: int| 0 <= i < peers.len() && (#[trigger] peers[i])@ == p)
}

impl View for SignalServer {
    type V = ServerModel;

    closed spec fn view(&self) -> ServerModel {
        ServerModel {
            peers: peer_set(self.peers@),
            requests: self.requests@.map_values(
                |v: (PeerId, PeerId)| (v.0@, v.1@),
            ),
        }
    }
}

fn clone_id(p: &PeerId) -> (q: PeerId)
    ensures
        q@ == p@,
{
    p.clone()
}

proof fn lemma_peer_set_finite(peers: Seq<PeerId>)
    ensures
        peer_set(peers).finite(),
    decreases peers.len(),
{
    if peers.len() == 0 {
        assert(peer_set(peers) =~= Set::empty());
    } else {
        lemma_peer_set_finite(peers.drop_last());
        assert(peer_set(peers) =~= peer_set(peers.drop_last()).insert(peers.last()@)) by {
            assert forall|p: Seq<char>| peer_set(peers).contains(p) implies peer_set(
                peers.drop_last(),
            ).insert(peers.last()@).contains(p) by {
                let i = choose|i: int| 0 <= i < peers.len() && (#[trigger] peers[i])@ == p;
                if i < peers.len() - 1 {
                    assert(peers.drop_last()[i] == peers[i]);
                }
            }
            assert forall|p: Seq<char>| peer_set(peers.drop_last()).insert(peers.last()@).contains(
                p,
            ) implies peer_set(peers).contains(p) by {
                if p != peers.last()@ {
                    let i = choose|i: int|
                        0 <= i < peers.drop_last().len() && (#[trigger] peers.drop_last()[i])@ == p;
                    assert(peers[i] == peers.drop_last()[i]);
                } else {
                    assert(peers[peers.len() - 1]@ == p);
                }
            }
        }
    }
}

impl SignalServer {
    /// No pending request has the same peer at both ends, and each
    /// connected peer is listed once.
    #[verifier::type_invariant]
    spec fn inv(&self) -> bool {
        &&& server_wf(self@)
        &&& forall|i: int, j: int|
            0 <= i < j < self.peers@.len() ==> (#[trigger] self.peers@[i])@ != (
            #[trigger] self.peers@[j])@
    }

    pub fn new() -> (s: SignalServer)
        ensures
            s@.peers == Set::<Seq<char>>::empty(),
            s@.requests == Map::<u128, (Seq<char>, Seq<char>)>::empty(),
    {
        let peers: Vec<PeerId> = Vec::new();
        let requests: std::collections::HashMap<ConnectionId, (PeerId, PeerId)> =
            std::collections::HashMap::new();
        proof {
            assert(peer_set(peers@) =~= Set::<Seq<char>>::empty());
            assert(requests@.map_values(|v: (PeerId, PeerId)| (v.0@, v.1@)) =~= Map::<
                u128,
                (Seq<char>, Seq<char>),
            >::empty());
        }
        SignalServer { peers, requests }
    }

    fn find_peer(&self, p: &PeerId) -> (r: Option<usize>)
        ensures
            match r {
                Some(i) => i < self.peers@.len() && self.peers@[i as int]@ == p@,
                None => !peer_set(self.peers@).contains(p@),
            },
    {
        let mut i: usize = 0;
        while i < self.peers.len()
            invariant
                i <= self.peers@.len(),
                forall|j: int| 0 <= j < i ==> (#[trigger] self.peers@[j])@ != p@,
            decreases self.peers.len() - i,
        {
            if self.peers[i] == *p {
                return Some(i);
            }
            i = i + 1;
        }
        None
    }

    /// Whether a peer with this id is connected.
    pub fn has_peer(&self, p: &PeerId) -> (r: bool)
        ensures
            r == self@.peers.contains(p@),
    {
        match self.find_peer(p) {
            Some(_) => true,
            None => false,
        }
    }

    /// A peer connected: it is known from now on and is told its id.
    pub fn peer_joined(&mut self, id: PeerId) -> (out: Outgoing)
        ensures
            final(self)@.peers == old(self)@.peers.insert(id@),
            final(self)@.requests == old(self)@.requests,
            out@ == (OutgoingView { to: id@, job_id: 0, inner: ServerToPeerView::Id(id@) }),
    {
        proof {
            use_type_invariant(&*self);
        }
        let ghost old_peers = self.peers@;
        let to = clone_id(&id);
        let msg = clone_id(&id);
        let found = self.find_peer(&id);
        let mut peers: Vec<PeerId> = Vec::new();
        proof {
            assert(peer_set(peers@) =~= Set::<Seq<char>>::empty());
        }
        std::mem::swap(&mut peers, &mut self.peers);
        match found {
            Some(_) => {
                assert(peer_set(peers@) =~= peer_set(old_peers).insert(id@));
            },
            None => {
                peers.push(id);
                proof {
                    let np = peers@;
                    assert forall|p: Seq<char>| peer_set(np).contains(p) <==> peer_set(old_peers).insert(id@).contains(p) by {
                        if peer_set(np).contains(p) {
                            let i = choose|i: int| 0 <= i < np.len() && (#[trigger] np[i])@ == p;
                            if i < old_peers.len() {
                                assert(old_peers[i] == np[i]);
                            }
                        }
                        if peer_set(old_peers).contains(p) {
                            let i = choose|i: int| 0 <= i < old_peers.len() && (#[trigger] old_peers[i])@ == p;
                            assert(np[i] == old_peers[i]);
                        }
                        if p == id@ {
                            assert(np[np.len() - 1]@ == p);
                        }
                    }
                    assert(peer_set(np) =~= peer_set(old_peers).insert(id@));
                    assert forall|i: int, j: int| 0 <= i < j < np.len() implies (#[trigger] np[i])@ != (#[trigger] np[j])@ by {
                        if j == np.len() - 1 {
                            assert(np[i] == old_peers[i]);
                            assert(peer_set(old_peers).contains(np[i]@));
                        } else {
                            assert(np[i] == old_peers[i] && np[j] == old_peers[j]);
                        }
                    }
                }
            },
        }
        proof {
            lemma_peer_set_finite(peers@);
        }
        self.peers = peers;
        Outgoing { to, message: ServerToPeerMessage { job_id: 0, inner: ServerToPeer::Id(msg) } }
    }

    /// A peer disconnected: it is forgotten. Pending requests stay.
    pub fn peer_left(&mut self, id: &PeerId)
        ensures
            final(self)@.peers == old(self)@.peers.remove(id@),
            final(self)@.requests == old(self)@.requests,
    {
        proof {
            use_type_invariant(&*self);
        }
        let ghost old_peers = self.peers@;
        let found = self.find_peer(id);
        let mut peers: Vec<PeerId> = Vec::new();
        proof {
            assert(peer_set(peers@) =~= Set::<Seq<char>>::empty());
        }
        std::mem::swap(&mut peers, &mut self.peers);
        match found {
            Some(i) => {
                peers.remove(i);
                proof {
                    let np = peers@;
                    assert forall|p: Seq<char>| peer_set(np).contains(p) <==> peer_set(old_peers).remove(id@).contains(p) by {
                        if peer_set(np).contains(p) {
                            let k = choose|k: int| 0 <= k < np.len() && (#[trigger] np[k])@ == p;
                            if k < i {
                                assert(np[k] == old_peers[k]);
                                assert(old_peers[k]@ != old_peers[i as int]@);
                            } else {
                                assert(np[k] == old_peers[k + 1]);
                                assert(old_peers[k + 1]@ != old_peers[i as int]@);
                            }
                        }
                        if peer_set(old_peers).remove(id@).contains(p) {
                            let k = choose|k: int| 0 <= k < old_peers.len() && (#[trigger] old_peers[k])@ == p;
                            assert(k != i);
                            if k < i {
                                assert(np[k] == old_peers[k]);
                            } else {
                                assert(np[k - 1] == old_peers[k]);
                            }
                        }
                    }
                    assert(peer_set(np) =~= peer_set(old_peers).remove(id@));
                    assert forall|a: int, b: int| 0 <= a < b < np.len() implies (#[trigger] np[a])@ != (#[trigger] np[b])@ by {
                        let a2 = if a < i { a } else { a + 1 };
                        let b2 = if b < i { b } else { b + 1 };
                        assert(np[a] == old_peers[a2] && np[b] == old_peers[b2]);
                    }
                }
            },
            None => {
                assert(peer_set(peers@) =~= peer_set(old_peers).remove(id@));
            },
        }
        proof {
            lemma_peer_set_finite(peers@);
        }
        self.peers = peers;
    }

    fn relay(&self, to: PeerId, msg: ServerToPeer) -> (r: Result<Vec<Outgoing>, SignallingError>)
        ensures
            routed_view(r) == (if self@.peers.contains(to@) {
                Ok(seq![OutgoingView { to: to@, job_id: 0, inner: msg@ }])
            } else {
                Err(SignallingErrorView::NoSuchPeer(to@))
            }),
    {
        if self.has_peer(&to) {
            let mut v: Vec<Outgoing> = Vec::new();
            v.push(Outgoing { to, message: ServerToPeerMessage { job_id: 0, inner: msg } });
            assert(outgoing_view(v@) =~= seq![v@[0]@]);
            Ok(v)
        } else {
            Err(SignallingError::NoSuchPeer(to))
        }
    }

    /// Handles one message from peer `from`; `fresh` is the id a new
    /// connection request gets. Returns the messages to deliver, or the
    /// error to answer `from` with (tagged with the message's job id).
    pub fn handle_incoming_message_inner(
        &mut self,
        from: &PeerId,
        message: PeerToServerMessage,
        fresh: ConnectionId,
    ) -> (r: Result<Vec<Outgoing>, SignallingError>)
        ensures
            (final(self)@, routed_view(r)) == server_step(
                old(self)@,
                from@,
                message.job_id,
                message.inner@,
                fresh,
            ),
    {
        proof {
            use_type_invariant(&*self);
        }
        let job_id = message.job_id;
        match message.inner {
            PeerToServer::IceCandidate(to, inner) => {
                self.relay(to, ServerToPeer::IceCandidate(clone_id(from), inner))
            },
            PeerToServer::Offer(to, inner) => {
                self.relay(to, ServerToPeer::Offer(clone_id(from), inner))
            },
            PeerToServer::Answer(to, inner) => {
                self.relay(to, ServerToPeer::Answer(clone_id(from), inner))
            },
            PeerToServer::ConnectToPeer(to) => {
                if to == *from {
                    let v: Vec<Outgoing> = Vec::new();
                    assert(outgoing_view(v@) =~= Seq::<OutgoingView>::empty());
                    Ok(v)
                } else if self.has_peer(&to) {
                    let ghost old_req = self.requests@;
                    let mut requests: std::collections::HashMap<ConnectionId, (PeerId, PeerId)> =
                        std::collections::HashMap::new();
                    proof {
                        lemma_peer_set_finite(self.peers@);
                        assert(requests@.map_values(|v: (PeerId, PeerId)| (v.0@, v.1@)) =~= Map::<
                            u128,
                            (Seq<char>, Seq<char>),
                        >::empty());
                    }
                    std::mem::swap(&mut requests, &mut self.requests);
                    requests.insert(fresh, (clone_id(from), clone_id(&to)));
                    proof {
                        assert(requests@.map_values(|v: (PeerId, PeerId)| (v.0@, v.1@))
                            =~= old_req.map_values(|v: (PeerId, PeerId)| (v.0@, v.1@)).insert(
                            fresh,
                            (from@, to@),
                        ));
                    }
                    self.requests = requests;
                    proof {
                        assert(self@.requests =~= old_req.map_values(
                            |v: (PeerId, PeerId)| (v.0@, v.1@),
                        ).insert(fresh, (from@, to@)));
                    }
                    let mut v: Vec<Outgoing> = Vec::new();
                    v.push(
                        Outgoing {
                            to,
                            message: ServerToPeerMessage {
                                job_id,
                                inner: ServerToPeer::ConnectionRequest(clone_id(from), fresh),
                            },
                        },
                    );
                    assert(outgoing_view(v@) =~= seq![v@[0]@]);
                    Ok(v)
                } else {
                    Err(SignallingError::NoSuchPeer(to))
                }
            },
            PeerToServer::AcceptConnection(c) => {
                let ghost old_req = self.requests@;
                let found = match self.requests.get(&c) {
                    Some(entry) => entry.1 == *from,
                    None => false,
                };
                if found {
                    let mut requests: std::collections::HashMap<ConnectionId, (PeerId, PeerId)> =
                        std::collections::HashMap::new();
                    proof {
                        lemma_peer_set_finite(self.peers@);
                        assert(requests@.map_values(|v: (PeerId, PeerId)| (v.0@, v.1@)) =~= Map::<
                            u128,
                            (Seq<char>, Seq<char>),
                        >::empty());
                    }
                    std::mem::swap(&mut requests, &mut self.requests);
                    let removed = requests.remove(&c);
                    proof {
                        assert(requests@.map_values(|v: (PeerId, PeerId)| (v.0@, v.1@))
                            =~= old_req.map_values(|v: (PeerId, PeerId)| (v.0@, v.1@)).remove(c));
                    }
                    self.requests = requests;
                    let (requester, requestee) = match removed {
                        Some(e) => e,
                        None => {
                            assert(false);
                            (clone_id(from), clone_id(from))
                        },
                    };
                    proof {
                        assert(self@.requests =~= old_req.map_values(
                            |v: (PeerId, PeerId)| (v.0@, v.1@),
                        ).remove(c));
                    }
                    let mut v: Vec<Outgoing> = Vec::new();
                    if self.has_peer(&requester) && self.has_peer(&requestee) {
                        v.push(
                            Outgoing {
                                to: requester,
                                message: ServerToPeerMessage {
                                    job_id: 0,
                                    inner: ServerToPeer::ConnectionAccepted(requestee, c),
                                },
                            },
                        );
                        assert(outgoing_view(v@) =~= seq![v@[0]@]);
                    } else {
                        assert(outgoing_view(v@) =~= Seq::<OutgoingView>::empty());
                    }
                    Ok(v)
                } else {
                    let v: Vec<Outgoing> = Vec::new();
                    assert(outgoing_view(v@) =~= Seq::<OutgoingView>::empty());
                    Ok(v)
                }
            },
        }
    }

    /// Handles one message from peer `from`, giving a new connection
    /// request a fresh random version 4 UUID as its id.
    pub fn handle_incoming_message(&mut self, from: &PeerId, message: PeerToServerMessage) -> (r:
        Result<Vec<Outgoing>, SignallingError>)
        ensures
            exists|fresh: u128|
                (fresh >> 76u128) & 0xfu128 == 4u128 && (fresh >> 62u128) & 0x3u128 == 2u128 && (
                final(self)@,
                routed_view(r),
                ) == server_step(
                    old(self)@,
                    from@,
                    message.job_id,
                    message.inner@,
                    fresh,
                ),
    {
        let fresh = make_connection_id();
        self.handle_incoming_message_inner(from, message, fresh)
    }
}

// ---------------------------------------------------------------------------
// Client
// ---------------------------------------------------------------------------

/// The message a client sends the server for a request of its program.
pub open spec fn control_message(c: SignallingControlView) -> PeerToServerView
    recommends
        !(c is RejectConnection),
{
    match c {
        SignallingControlView::IceCandidate(p, s) => PeerToServerView::IceCandidate(p, s),
        SignallingControlView::Offer(p, s) => PeerToServerView::Offer(p, s),
        SignallingControlView::Answer(p, s) => PeerToServerView::Answer(p, s),
        SignallingControlView::RequestConnection(p) => PeerToServerView::ConnectToPeer(p),
        SignallingControlView::AcceptConnection(c) => PeerToServerView::AcceptConnection(c),
        SignallingControlView::RejectConnection(_) => vstd::pervasive::arbitrary(),
    }
}

/// The event a client reports for a message from the server.
pub open spec fn server_event(m: ServerToPeerView) -> SignallingEventView {
    match m {
        ServerToPeerView::Id(p) => SignallingEventView::Id(p),
        ServerToPeerView::ConnectionRequest(p, c) => SignallingEventView::ConectionRequest(p, c),
        ServerToPeerView::ConnectionAccepted(p, c) => SignallingEventView::ConnectionAccepted(p, c),
        ServerToPeerView::Offer(p, s) => SignallingEventView::Offer(p, s),
        ServerToPeerView::Answer(p, s) => SignallingEventView::Answer(p, s),
        ServerToPeerView::IceCandidate(p, s) => SignallingEventView::IceCandidate(p, s),
        ServerToPeerView::Error(e) => SignallingEventView::Error(e),
    }
}

/// Turns a request of the peer's program into the message for the
/// server. Rejecting a connection has no message and is not accepted.
pub fn handle_control(control: SignallingControl) -> (m: PeerToServerMessage)
    requires
        !(control is RejectConnection),
    ensures
        m.job_id == 0,
        m.inner@ == control_message(control@),
{
    let inner = match control {
        SignallingControl::IceCandidate(p, c) => PeerToServer::IceCandidate(p, c),
        SignallingControl::Offer(p, o) => PeerToServer::Offer(p, o),
        SignallingControl::Answer(p, a) => PeerToServer::Answer(p, a),
        SignallingControl::RequestConnection(p) => PeerToServer::ConnectToPeer(p),
        SignallingControl::AcceptConnection(c) => PeerToServer::AcceptConnection(c),
        SignallingControl::RejectConnection(_) => vstd::pervasive::unreached(),
    };
    PeerToServerMessage { job_id: 0, inner }
}

/// Turns a message from the server into the event for the peer's program.
pub fn handle_message(message: ServerToPeerMessage) -> (e: SignallingEvent)
    ensures
        e@ == server_event(message.inner@),
{
    match message.inner {
        ServerToPeer::Id(p) => SignallingEvent::Id(p),
        ServerToPeer::ConnectionRequest(p, c) => SignallingEvent::ConectionRequest(p, c),
        ServerToPeer::ConnectionAccepted(p, c) => SignallingEvent::ConnectionAccepted(p, c),
        ServerToPeer::Offer(p, o) => SignallingEvent::Offer(p, o),
        ServerToPeer::Answer(p, a) => SignallingEvent::Answer(p, a),
        ServerToPeer::IceCandidate(p, c) => SignallingEvent::IceCandidate(p, c),
        ServerToPeer::Error(err) => SignallingEvent::Error(err),
    }
}

// ---------------------------------------------------------------------------
// Laws
// ---------------------------------------------------------------------------

/// Session descriptions and candidates reach the named peer unchanged,
/// tagged with the sender: when `from` asks its client to send an offer,
/// answer or ICE candidate to a connected peer `to`, the server delivers
/// exactly one message, to `to`, whose event at `to` carries `from` and
/// the same payload; the server's state does not change.
pub proof fn law_relay_reaches_peer(s: ServerModel, from: Seq<char>, c: SignallingControlView, fresh: u128)
    requires
        c is Offer || c is Answer || c is IceCandidate,
        s.peers.contains(
            match c {
                SignallingControlView::Offer(to, _) => to,
                SignallingControlView::Answer(to, _) => to,
                SignallingControlView::IceCandidate(to, _) => to,
                _ => Seq::empty(),
            },
        ),
    ensures
        ({
            let r = server_step(s, from, 0, control_message(c), fresh);
            &&& r.0 == s
            &&& r.1 is Ok
            &&& r.1->Ok_0.len() == 1
            &&& match c {
                SignallingControlView::Offer(to, sdp) => r.1->Ok_0[0].to == to && server_event(
                    r.1->Ok_0[0].inner,
                ) == SignallingEventView::Offer(from, sdp),
                SignallingControlView::Answer(to, sdp) => r.1->Ok_0[0].to == to && server_event(
                    r.1->Ok_0[0].inner,
                ) == SignallingEventView::Answer(from, sdp),
                SignallingControlView::IceCandidate(to, cand) => r.1->Ok_0[0].to == to
                    && server_event(r.1->Ok_0[0].inner) == SignallingEventView::IceCandidate(
                    from,
                    cand,
                ),
                _ => false,
            }
        }),
{
}

/// A message addressed to a peer that is not connected is answered with
/// `NoSuchPeer` naming it, and changes nothing.
pub proof fn law_unknown_peer_is_reported(s: ServerModel, from: Seq<char>, job_id: usize, m: PeerToServerView, fresh: u128)
    requires
        match m {
            PeerToServerView::IceCandidate(to, _) => !s.peers.contains(to),
            PeerToServerView::Offer(to, _) => !s.peers.contains(to),
            PeerToServerView::Answer(to, _) => !s.peers.contains(to),
            PeerToServerView::ConnectToPeer(to) => !s.peers.contains(to) && to != from,
            PeerToServerView::AcceptConnection(_) => false,
        },
    ensures
        server_step(s, from, job_id, m, fresh) == (
            s,
            Err::<Seq<OutgoingView>, SignallingErrorView>(
                SignallingErrorView::NoSuchPeer(
                    match m {
                        PeerToServerView::IceCandidate(to, _) => to,
                        PeerToServerView::Offer(to, _) => to,
                        PeerToServerView::Answer(to, _) => to,
                        PeerToServerView::ConnectToPeer(to) => to,
                        PeerToServerView::AcceptConnection(_) => Seq::empty(),
                    },
                ),
            ),
        ),
{
}

/// A peer asking to connect to itself is ignored: no request is
/// recorded and nothing is sent.
pub proof fn law_no_self_connection(s: ServerModel, from: Seq<char>, job_id: usize, fresh: u128)
    ensures
        server_step(s, from, job_id, PeerToServerView::ConnectToPeer(from), fresh) == (
            s,
            Ok::<Seq<OutgoingView>, SignallingErrorView>(Seq::empty()),
        ),
{
}

/// A connection request to a connected peer is recorded under the fresh
/// id and announced to that peer, with the requester's id and the job id
/// of the request.
pub proof fn law_request_is_announced(s: ServerModel, from: Seq<char>, to: Seq<char>, job_id: usize, fresh: u128)
    requires
        s.peers.contains(to),
        to != from,
    ensures
        ({
            let r = server_step(s, from, job_id, PeerToServerView::ConnectToPeer(to), fresh);
            &&& r.0.peers == s.peers
            &&& r.0.requests == s.requests.insert(fresh, (from, to))
            &&& r.1 == Ok::<Seq<OutgoingView>, SignallingErrorView>(
                seq![OutgoingView { to: to, job_id: job_id, inner: ServerToPeerView::ConnectionRequest(from, fresh) }],
            )
        }),
{
}

/// Only the peer a request was addressed to can accept it: an accept
/// from anyone else, or for an unknown id, changes nothing and sends
/// nothing.
pub proof fn law_only_requestee_accepts(s: ServerModel, from: Seq<char>, job_id: usize, c: u128, fresh: u128)
    requires
        !(s.requests.contains_key(c) && s.requests[c].1 == from),
    ensures
        server_step(s, from, job_id, PeerToServerView::AcceptConnection(c), fresh) == (
            s,
            Ok::<Seq<OutgoingView>, SignallingErrorView>(Seq::empty()),
        ),
{
}

/// Accepting is one-shot: once a request has been accepted, accepting it
/// again changes nothing and sends nothing.
pub proof fn law_accept_is_one_shot(s: ServerModel, from: Seq<char>, j1: usize, j2: usize, c: u128, f1: u128, f2: u128)
    ensures
        ({
            let first = server_step(s, from, j1, PeerToServerView::AcceptConnection(c), f1);
            server_step(first.0, from, j2, PeerToServerView::AcceptConnection(c), f2) == (
                first.0,
                Ok::<Seq<OutgoingView>, SignallingErrorView>(Seq::empty()),
            )
        }),
{
}

/// An accepted request is answered to its requester, naming the peer that
/// accepted, when both are still connected.
pub proof fn law_accept_answers_requester(s: ServerModel, from: Seq<char>, job_id: usize, c: u128, fresh: u128)
    requires
        s.requests.contains_key(c),
        s.requests[c].1 == from,
        s.peers.contains(s.requests[c].0),
        s.peers.contains(from),
    ensures
        server_step(s, from, job_id, PeerToServerView::AcceptConnection(c), fresh).1
            == Ok::<Seq<OutgoingView>, SignallingErrorView>(
            seq![OutgoingView { to: s.requests[c].0, job_id: 0, inner: ServerToPeerView::ConnectionAccepted(from, c) }],
        ),
{
}

/// Every step keeps the server's invariant: no pending request has the
/// same peer at both ends.
pub proof fn law_server_invariant(s: ServerModel, from: Seq<char>, job_id: usize, m: PeerToServerView, fresh: u128)
    requires
        server_wf(s),
    ensures
        server_wf(server_step(s, from, job_id, m, fresh).0),
{
}

} // verus!
