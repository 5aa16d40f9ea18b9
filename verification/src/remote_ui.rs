//! What the remote UI shows of its peer: overall state, connected peers
//! and connection requests waiting for an answer, kept up to date from the
//! peer's events.
use crate::peer::PeerEvent;
use crate::signal::{ConnectionId, PeerId};
use vstd::prelude::*;

verus! {

pub enum UIState {
    Disconnected,
    Connecting,
    Connected,
    Error(String),
}

pub enum UIStateView {
    Disconnected,
    Connecting,
    Connected,
    Error(Seq<char>),
}

impl View for UIState {
    type V = UIStateView;

    open spec fn view(&self) -> UIStateView {
        match self {
            UIState::Disconnected => UIStateView::Disconnected,
            UIState::Connecting => UIStateView::Connecting,
            UIState::Connected => UIStateView::Connected,
            UIState::Error(e) => UIStateView::Error(e@),
        }
    }
}

impl Default for UIState {
    fn default() -> (s: UIState)
        ensures
            s is Disconnected,
    {
        UIState::Disconnected
    }
}

pub struct PendingConnection {
    pub peer_id: PeerId,
    pub connection_id: ConnectionId,
}

pub struct RemoteUIState {
    pub state: UIState,
    pub local_peer_id: Option<PeerId>,
    pub connected_peers: Vec<PeerId>,
    pub pending_connections: Vec<PendingConnection>,
}

/// The UI state as values.
pub struct RemoteUIModel {
    pub state: UIStateView,
    pub local_peer_id: Option<Seq<char>>,
    pub connected_peers: Seq<Seq<char>>,
    pub pending_connections: Seq<(Seq<char>, u128)>,
}

pub open spec fn ids_view(s: Seq<PeerId>) -> Seq<Seq<char>> {
    s.map_values(|p: PeerId| p@)
}

pub open spec fn pending_view(s: Seq<PendingConnection>) -> Seq<(Seq<char>, u128)> {
    s.map_values(|p: PendingConnection| (p.peer_id@, p.connection_id))
}

impl View for RemoteUIState {
    type V = RemoteUIModel;

    open spec fn view(&self) -> RemoteUIModel {
        RemoteUIModel {
            state: self.state@,
            local_peer_id: match self.local_peer_id {
                Some(p) => Some(p@),
                None => None,
            },
            connected_peers: ids_view(self.connected_peers@),
            pending_connections: pending_view(self.pending_connections@),
        }
    }
}

/// `s` without the ids equal to `p`, in order.
pub open spec fn without_id(s: Seq<Seq<char>>, p: Seq<char>) -> Seq<Seq<char>>
    decreases s.len(),
{
    if s.len() == 0 {
        s
    } else if s.last() == p {
        without_id(s.drop_last(), p)
    } else {
        without_id(s.drop_last(), p).push(s.last())
    }
}

/// `s` without the requests from `p`, in order.
pub open spec fn without_requests_from(s: Seq<(Seq<char>, u128)>, p: Seq<char>) -> Seq<(Seq<char>, u128)>
    decreases s.len(),
{
    if s.len() == 0 {
        s
    } else if s.last().0 == p {
        without_requests_from(s.drop_last(), p)
    } else {
        without_requests_from(s.drop_last(), p).push(s.last())
    }
}

/// What one peer event does to the UI state.
pub open spec fn ui_step(m: RemoteUIModel, e: PeerEvent) -> RemoteUIModel {
    match e {
        PeerEvent::ConnectionRequested { peer_id, connection_id } => RemoteUIModel {
            pending_connections: m.pending_connections.push((peer_id@, connection_id)),
            ..m
        },
        PeerEvent::PeerConnected { peer_id } => RemoteUIModel {
            state: UIStateView::Connected,
            pending_connections: without_requests_from(m.pending_connections, peer_id@),
            connected_peers: if m.connected_peers.contains(peer_id@) {
                m.connected_peers
            } else {
                m.connected_peers.push(peer_id@)
            },
            ..m
        },
        PeerEvent::PeerDisconnected { peer_id, reason: _ } => {
            let connected = without_id(m.connected_peers, peer_id@);
            RemoteUIModel {
                state: if connected.len() == 0 {
                    UIStateView::Disconnected
                } else {
                    m.state
                },
                connected_peers: connected,
                pending_connections: without_requests_from(m.pending_connections, peer_id@),
                ..m
            }
        },
        PeerEvent::Error { peer_id: _, error } => RemoteUIModel {
            state: UIStateView::Error(error@),
            ..m
        },
        _ => m,
    }
}

proof fn lemma_without_id_props(s: Seq<Seq<char>>, p: Seq<char>)
    ensures
        !without_id(s, p).contains(p),
        forall|x: Seq<char>| x != p ==> (without_id(s, p).contains(x) <==> s.contains(x)),
        s.no_duplicates() ==> without_id(s, p).no_duplicates(),
    decreases s.len(),
{
    if s.len() > 0 {
        let t = s.drop_last();
        lemma_without_id_props(t, p);
        let r = without_id(t, p);
        assert forall|x: Seq<char>| x != p implies (without_id(s, p).contains(x) <==> s.contains(x)) by {
            if s.contains(x) {
                let i = choose|i: int| 0 <= i < s.len() && s[i] == x;
                if i < s.len() - 1 {
                    assert(t[i] == x);
                    assert(t.contains(x));
                    assert(r.contains(x));
                    let j = choose|j: int| 0 <= j < r.len() && r[j] == x;
                    if s.last() == p {
                        assert(without_id(s, p) == r);
                    } else {
                        assert(without_id(s, p) == r.push(s.last()));
                        assert(r.push(s.last())[j] == x);
                    }
                } else {
                    assert(without_id(s, p) == r.push(s.last()));
                    assert(without_id(s, p)[r.len() as int] == x);
                }
            }
            if without_id(s, p).contains(x) {
                let w = without_id(s, p);
                let i = choose|i: int| 0 <= i < w.len() && w[i] == x;
                if s.last() != p && i == r.len() {
                    assert(w == r.push(s.last()));
                    assert(s[s.len() - 1] == x);
                } else {
                    if s.last() == p {
                        assert(w == r);
                    } else {
                        assert(w == r.push(s.last()));
                    }
                    assert(r[i] == x);
                    assert(r.contains(x));
                    assert(t.contains(x));
                    let k = choose|k: int| 0 <= k < t.len() && t[k] == x;
                    assert(s[k] == x);
                }
            }
        }
        if s.last() != p {
            assert forall|i: int| 0 <= i < r.push(s.last()).len() implies r.push(s.last())[i] != p by {
                if i < r.len() {
                    assert(r[i] != p) by {
                        if r[i] == p {
                            assert(r.contains(p));
                        }
                    }
                }
            }
        }
        if s.no_duplicates() {
            assert(t.no_duplicates()) by {
                assert forall|i: int, j: int| 0 <= i < t.len() && 0 <= j < t.len() && i != j implies t[i] != t[j] by {
                    assert(t[i] == s[i] && t[j] == s[j]);
                }
            }
            if s.last() != p {
                assert(!r.contains(s.last())) by {
                    if r.contains(s.last()) {
                        assert(t.contains(s.last()));
                        let k = choose|k: int| 0 <= k < t.len() && t[k] == s.last();
                        assert(s[k] == s[s.len() - 1]);
                    }
                }
                let rr = r.push(s.last());
                assert forall|i: int, j: int| 0 <= i < rr.len() && 0 <= j < rr.len() && i != j implies rr[i] != rr[j] by {
                    if i == r.len() {
                        assert(rr[j] == r[j]);
                        if r[j] == s.last() {
                            assert(r.contains(s.last()));
                        }
                    } else if j == r.len() {
                        assert(rr[i] == r[i]);
                        if r[i] == s.last() {
                            assert(r.contains(s.last()));
                        }
                    }
                }
            }
        }
    }
}

proof fn lemma_without_requests_props(s: Seq<(Seq<char>, u128)>, p: Seq<char>)
    ensures
        forall|i: int|
            0 <= i < without_requests_from(s, p).len() ==> (#[trigger] without_requests_from(
                s,
                p,
            )[i]).0 != p,
    decreases s.len(),
{
    if s.len() > 0 {
        let t = s.drop_last();
        lemma_without_requests_props(t, p);
        let r = without_requests_from(t, p);
        if s.last().0 != p {
            assert forall|i: int| 0 <= i < r.push(s.last()).len() implies (#[trigger] r.push(s.last())[i]).0 != p by {
                if i < r.len() {
                    assert(r.push(s.last())[i] == r[i]);
                }
            }
        }
    }
}

fn remove_id(v: &Vec<PeerId>, p: &PeerId) -> (out: Vec<PeerId>)
    ensures
        ids_view(out@) == without_id(ids_view(v@), p@),
{
    let mut out: Vec<PeerId> = Vec::new();
    let mut i: usize = 0;
    while i < v.len()
        invariant
            i <= v@.len(),
            ids_view(out@) == without_id(ids_view(v@).take(i as int), p@),
        decreases v.len() - i,
    {
        proof {
            assert(ids_view(v@).take(i + 1).drop_last() =~= ids_view(v@).take(i as int));
            assert(ids_view(v@).take(i + 1).last() == v@[i as int]@);
        }
        if v[i] != *p {
            let ghost prev = out@;
            out.push(v[i].clone());
            assert(ids_view(out@) =~= ids_view(prev).push(v@[i as int]@));
        }
        i = i + 1;
    }
    assert(ids_view(v@).take(i as int) =~= ids_view(v@));
    out
}

fn remove_requests_from(v: &Vec<PendingConnection>, p: &PeerId) -> (out: Vec<PendingConnection>)
    ensures
        pending_view(out@) == without_requests_from(pending_view(v@), p@),
{
    let mut out: Vec<PendingConnection> = Vec::new();
    let mut i: usize = 0;
    while i < v.len()
        invariant
            i <= v@.len(),
            pending_view(out@) == without_requests_from(pending_view(v@).take(i as int), p@),
        decreases v.len() - i,
    {
        proof {
            assert(pending_view(v@).take(i + 1).drop_last() =~= pending_view(v@).take(i as int));
            assert(pending_view(v@).take(i + 1).last() == (v@[i as int].peer_id@, v@[i as int].connection_id));
        }
        if v[i].peer_id != *p {
            let ghost prev = out@;
            out.push(PendingConnection { peer_id: v[i].peer_id.clone(), connection_id: v[i].connection_id });
            assert(pending_view(out@) =~= pending_view(prev).push((v@[i as int].peer_id@, v@[i as int].connection_id)));
        }
        i = i + 1;
    }
    assert(pending_view(v@).take(i as int) =~= pending_view(v@));
    out
}

fn contains_id(v: &Vec<PeerId>, p: &PeerId) -> (r: bool)
    ensures
        r == ids_view(v@).contains(p@),
{
    let mut i: usize = 0;
    while i < v.len()
        invariant
            i <= v@.len(),
            forall|j: int| 0 <= j < i ==> ids_view(v@)[j] != p@,
        decreases v.len() - i,
    {
        if v[i] == *p {
            assert(ids_view(v@)[i as int] == p@);
            return true;
        }
        i = i + 1;
    }
    false
}

impl Default for RemoteUIState {
    fn default() -> (s: RemoteUIState)
        ensures
            s@.state == UIStateView::Disconnected,
            s@.local_peer_id is None,
            s@.connected_peers == Seq::<Seq<char>>::empty(),
            s@.pending_connections == Seq::<(Seq<char>, u128)>::empty(),
    {
        let s = RemoteUIState {
            state: UIState::Disconnected,
            local_peer_id: None,
            connected_peers: Vec::new(),
            pending_connections: Vec::new(),
        };
        assert(s@.connected_peers =~= Seq::<Seq<char>>::empty());
        assert(s@.pending_connections =~= Seq::<(Seq<char>, u128)>::empty());
        s
    }
}

impl RemoteUIState {
    /// Brings the UI state up to date with one event of the peer.
    pub fn apply_peer_event(&mut self, event: PeerEvent)
        ensures
            final(self)@ == ui_step(old(self)@, event),
            event is SignalMessage || event is IncomingStream ==> final(self)@ == old(self)@,
            event is ConnectionRequested ==> final(self)@.state == old(self)@.state
                && final(self)@.connected_peers == old(self)@.connected_peers,
            event is Error ==> final(self)@.connected_peers == old(self)@.connected_peers
                && final(self)@.pending_connections == old(self)@.pending_connections,
    {
        let ghost e = event;
        match event {
            PeerEvent::ConnectionRequested { peer_id, connection_id } => {
                let ghost prev = self.pending_connections@;
                self.pending_connections.push(PendingConnection { peer_id, connection_id });
                assert(pending_view(self.pending_connections@) =~= pending_view(prev).push(
                    (e->ConnectionRequested_peer_id@, connection_id),
                ));
            },
            PeerEvent::PeerConnected { peer_id } => {
                self.pending_connections = remove_requests_from(&self.pending_connections, &peer_id);
                if !contains_id(&self.connected_peers, &peer_id) {
                    let ghost prev = self.connected_peers@;
                    let ghost pv = peer_id@;
                    self.connected_peers.push(peer_id);
                    assert(ids_view(self.connected_peers@) =~= ids_view(prev).push(pv));
                }
                self.state = UIState::Connected;
            },
            PeerEvent::PeerDisconnected { peer_id, reason: _ } => {
                self.connected_peers = remove_id(&self.connected_peers, &peer_id);
                self.pending_connections = remove_requests_from(&self.pending_connections, &peer_id);
                if self.connected_peers.len() == 0 {
                    self.state = UIState::Disconnected;
                }
            },
            PeerEvent::SignalMessage { .. } => {},
            PeerEvent::IncomingStream { .. } => {},
            PeerEvent::Error { peer_id: _, error } => {
                self.state = UIState::Error(error);
            },
        }
    }
}

/// Connected peers are listed once each, whatever events arrive; after a
/// peer connects it is listed, shown connected and has no request left
/// waiting; after it disconnects it is neither listed nor waiting, and
/// with no peer left the UI shows disconnected.
pub proof fn law_ui_connected_peers(m: RemoteUIModel, e: PeerEvent)
    requires
        m.connected_peers.no_duplicates(),
    ensures
        ui_step(m, e).connected_peers.no_duplicates(),
        e matches PeerEvent::PeerConnected { peer_id } ==> {
            &&& ui_step(m, e).connected_peers.contains(peer_id@)
            &&& ui_step(m, e).state == UIStateView::Connected
            &&& forall|i: int|
                0 <= i < ui_step(m, e).pending_connections.len() ==> (#[trigger] ui_step(
                    m,
                    e,
                ).pending_connections[i]).0 != peer_id@
        },
        e matches PeerEvent::PeerDisconnected { peer_id, reason: _ } ==> {
            &&& !ui_step(m, e).connected_peers.contains(peer_id@)
            &&& forall|i: int|
                0 <= i < ui_step(m, e).pending_connections.len() ==> (#[trigger] ui_step(
                    m,
                    e,
                ).pending_connections[i]).0 != peer_id@
            &&& ui_step(m, e).connected_peers.len() == 0 ==> ui_step(m, e).state
                == UIStateView::Disconnected
        },
{
    match e {
        PeerEvent::PeerConnected { peer_id } => {
            lemma_without_requests_props(m.pending_connections, peer_id@);
            if !m.connected_peers.contains(peer_id@) {
                let r = m.connected_peers.push(peer_id@);
                assert(r[r.len() - 1] == peer_id@);
                assert forall|i: int, j: int| 0 <= i < r.len() && 0 <= j < r.len() && i != j implies r[i] != r[j] by {
                    if i == r.len() - 1 && r[j] == peer_id@ {
                        assert(m.connected_peers[j] == peer_id@);
                    }
                    if j == r.len() - 1 && r[i] == peer_id@ {
                        assert(m.connected_peers[i] == peer_id@);
                    }
                }
            }
        },
        PeerEvent::PeerDisconnected { peer_id, reason: _ } => {
            lemma_without_id_props(m.connected_peers, peer_id@);
            lemma_without_requests_props(m.pending_connections, peer_id@);
        },
        _ => {},
    }
}

/// Only events about peers coming and going, requests and errors change
/// what the UI shows: session descriptions, candidates and incoming
/// streams leave every part of it as it was; a connection request touches
/// only the waiting requests, adding exactly that request at the end; an
/// error touches only the status.
pub proof fn law_ui_ignores_signalling(m: RemoteUIModel, e: PeerEvent)
    ensures
        e is SignalMessage || e is IncomingStream ==> ui_step(m, e) == m,
        e matches PeerEvent::ConnectionRequested { peer_id, connection_id } ==> {
            &&& ui_step(m, e).state == m.state
            &&& ui_step(m, e).local_peer_id == m.local_peer_id
            &&& ui_step(m, e).connected_peers == m.connected_peers
            &&& ui_step(m, e).pending_connections == m.pending_connections.push(
                (peer_id@, connection_id),
            )
        },
        e is Error ==> {
            &&& ui_step(m, e).local_peer_id == m.local_peer_id
            &&& ui_step(m, e).connected_peers == m.connected_peers
            &&& ui_step(m, e).pending_connections == m.pending_connections
        },
{
}

} // verus!
