use remote::signal::{
    handle_control, handle_message, make_connection_id, make_id, Outgoing, PeerToServer,
    PeerToServerMessage, ServerToPeer, ServerToPeerMessage, SignalServer, SignallingControl,
    SignallingError, SignallingEvent,
};

fn s(x: &str) -> String {
    x.to_string()
}

fn msg(job_id: usize, inner: PeerToServer) -> PeerToServerMessage {
    PeerToServerMessage { job_id, inner }
}

fn server_with(peers: &[&str]) -> SignalServer {
    let mut server = SignalServer::new();
    for p in peers {
        let _ = server.peer_joined(s(p));
    }
    server
}

fn single(out: Vec<Outgoing>) -> Outgoing {
    assert_eq!(out.len(), 1);
    out.into_iter().next().unwrap()
}

#[test]
fn ids_are_five_upper_case_letters_or_digits() {
    for _ in 0..50 {
        let id = make_id();
        assert_eq!(id.chars().count(), 5);
        assert!(id.chars().all(|c| c.is_ascii_uppercase() || c.is_ascii_digit()));
    }
}

#[test]
fn connection_ids_are_version_four_uuids() {
    let a = make_connection_id();
    let b = make_connection_id();
    for id in [a, b] {
        assert_eq!((id >> 76) & 0xf, 4);
        assert_eq!((id >> 62) & 0x3, 2);
    }
    assert_ne!(a, b);
}

#[test]
fn a_joining_peer_is_told_its_id() {
    let mut server = SignalServer::new();
    assert!(!server.has_peer(&s("AB12C")));
    let out = server.peer_joined(s("AB12C"));
    assert_eq!(out.to, "AB12C");
    assert_eq!(out.message.job_id, 0);
    assert!(matches!(out.message.inner, ServerToPeer::Id(ref p) if p == "AB12C"));
    assert!(server.has_peer(&s("AB12C")));
    server.peer_left(&s("AB12C"));
    assert!(!server.has_peer(&s("AB12C")));
}

#[test]
fn offers_answers_and_candidates_are_relayed_with_the_sender() {
    let mut server = server_with(&["AAAAA", "BBBBB"]);
    let o = single(server.handle_incoming_message_inner(&s("AAAAA"), msg(3, PeerToServer::Offer(s("BBBBB"), s("sdp-offer"))), 1).ok().unwrap());
    assert_eq!(o.to, "BBBBB");
    assert_eq!(o.message.job_id, 0);
    assert!(matches!(o.message.inner, ServerToPeer::Offer(ref f, ref x) if f == "AAAAA" && x == "sdp-offer"));

    let a = single(server.handle_incoming_message_inner(&s("BBBBB"), msg(4, PeerToServer::Answer(s("AAAAA"), s("sdp-answer"))), 1).ok().unwrap());
    assert_eq!(a.to, "AAAAA");
    assert!(matches!(a.message.inner, ServerToPeer::Answer(ref f, ref x) if f == "BBBBB" && x == "sdp-answer"));

    let c = single(server.handle_incoming_message_inner(&s("AAAAA"), msg(5, PeerToServer::IceCandidate(s("BBBBB"), s("cand"))), 1).ok().unwrap());
    assert_eq!(c.to, "BBBBB");
    assert!(matches!(c.message.inner, ServerToPeer::IceCandidate(ref f, ref x) if f == "AAAAA" && x == "cand"));
}

#[test]
fn relaying_to_an_unknown_peer_is_an_error() {
    let mut server = server_with(&["AAAAA"]);
    for inner in [
        PeerToServer::Offer(s("ZZZZZ"), s("x")),
        PeerToServer::Answer(s("ZZZZZ"), s("x")),
        PeerToServer::IceCandidate(s("ZZZZZ"), s("x")),
        PeerToServer::ConnectToPeer(s("ZZZZZ")),
    ] {
        let r = server.handle_incoming_message_inner(&s("AAAAA"), msg(1, inner), 9);
        assert!(matches!(r, Err(SignallingError::NoSuchPeer(ref p)) if p == "ZZZZZ"));
    }
}

#[test]
fn connecting_to_oneself_is_ignored() {
    let mut server = server_with(&["AAAAA"]);
    let r = server.handle_incoming_message_inner(&s("AAAAA"), msg(1, PeerToServer::ConnectToPeer(s("AAAAA"))), 9);
    assert!(r.ok().unwrap().is_empty());
    // No request was recorded: accepting id 9 does nothing.
    let r = server.handle_incoming_message_inner(&s("AAAAA"), msg(1, PeerToServer::AcceptConnection(9)), 10);
    assert!(r.ok().unwrap().is_empty());
}

#[test]
fn a_connection_request_is_announced_and_accepted_once() {
    let mut server = server_with(&["AAAAA", "BBBBB", "CCCCC"]);
    let req = single(server.handle_incoming_message_inner(&s("AAAAA"), msg(7, PeerToServer::ConnectToPeer(s("BBBBB"))), 42).ok().unwrap());
    assert_eq!(req.to, "BBBBB");
    assert_eq!(req.message.job_id, 7);
    assert!(matches!(req.message.inner, ServerToPeer::ConnectionRequest(ref f, 42) if f == "AAAAA"));

    // Only the peer that was asked may accept.
    for other in ["AAAAA", "CCCCC"] {
        let r = server.handle_incoming_message_inner(&s(other), msg(8, PeerToServer::AcceptConnection(42)), 1);
        assert!(r.ok().unwrap().is_empty());
    }
    let acc = single(server.handle_incoming_message_inner(&s("BBBBB"), msg(8, PeerToServer::AcceptConnection(42)), 1).ok().unwrap());
    assert_eq!(acc.to, "AAAAA");
    assert_eq!(acc.message.job_id, 0);
    assert!(matches!(acc.message.inner, ServerToPeer::ConnectionAccepted(ref p, 42) if p == "BBBBB"));

    // A second acceptance finds nothing.
    let again = server.handle_incoming_message_inner(&s("BBBBB"), msg(9, PeerToServer::AcceptConnection(42)), 1);
    assert!(again.ok().unwrap().is_empty());
}

#[test]
fn accepting_after_the_requester_left_sends_nothing() {
    let mut server = server_with(&["AAAAA", "BBBBB"]);
    let _ = server.handle_incoming_message_inner(&s("AAAAA"), msg(0, PeerToServer::ConnectToPeer(s("BBBBB"))), 5);
    server.peer_left(&s("AAAAA"));
    let r = server.handle_incoming_message_inner(&s("BBBBB"), msg(0, PeerToServer::AcceptConnection(5)), 6);
    assert!(r.ok().unwrap().is_empty());
}

#[test]
fn a_request_gets_a_random_version_four_id() {
    let mut server = server_with(&["AAAAA", "BBBBB"]);
    let req = single(server.handle_incoming_message(&s("AAAAA"), msg(2, PeerToServer::ConnectToPeer(s("BBBBB")))).ok().unwrap());
    match req.message.inner {
        ServerToPeer::ConnectionRequest(ref f, c) => {
            assert_eq!(f, "AAAAA");
            assert_eq!((c >> 76) & 0xf, 4);
            let acc = single(server.handle_incoming_message(&s("BBBBB"), msg(3, PeerToServer::AcceptConnection(c))).ok().unwrap());
            assert!(matches!(acc.message.inner, ServerToPeer::ConnectionAccepted(ref p, c2) if p == "BBBBB" && c2 == c));
        }
        _ => panic!("expected a connection request"),
    }
}

#[test]
fn client_controls_become_server_messages() {
    let m = handle_control(SignallingControl::Offer(s("P"), s("o")));
    assert_eq!(m.job_id, 0);
    assert!(matches!(m.inner, PeerToServer::Offer(ref p, ref o) if p == "P" && o == "o"));
    let m = handle_control(SignallingControl::Answer(s("P"), s("a")));
    assert!(matches!(m.inner, PeerToServer::Answer(ref p, ref a) if p == "P" && a == "a"));
    let m = handle_control(SignallingControl::IceCandidate(s("P"), s("c")));
    assert!(matches!(m.inner, PeerToServer::IceCandidate(ref p, ref c) if p == "P" && c == "c"));
    let m = handle_control(SignallingControl::RequestConnection(s("Q")));
    assert!(matches!(m.inner, PeerToServer::ConnectToPeer(ref p) if p == "Q"));
    let m = handle_control(SignallingControl::AcceptConnection(77));
    assert!(matches!(m.inner, PeerToServer::AcceptConnection(77)));
}

#[test]
fn server_messages_become_client_events() {
    let ev = |inner: ServerToPeer| handle_message(ServerToPeerMessage { job_id: 3, inner });
    assert!(matches!(ev(ServerToPeer::Id(s("I"))), SignallingEvent::Id(ref p) if p == "I"));
    assert!(matches!(ev(ServerToPeer::ConnectionRequest(s("R"), 5)), SignallingEvent::ConectionRequest(ref p, 5) if p == "R"));
    assert!(matches!(ev(ServerToPeer::ConnectionAccepted(s("A"), 6)), SignallingEvent::ConnectionAccepted(ref p, 6) if p == "A"));
    assert!(matches!(ev(ServerToPeer::Offer(s("O"), s("x"))), SignallingEvent::Offer(ref p, ref x) if p == "O" && x == "x"));
    assert!(matches!(ev(ServerToPeer::Answer(s("O"), s("y"))), SignallingEvent::Answer(ref p, ref y) if p == "O" && y == "y"));
    assert!(matches!(ev(ServerToPeer::IceCandidate(s("O"), s("z"))), SignallingEvent::IceCandidate(ref p, ref z) if p == "O" && z == "z"));
    assert!(matches!(ev(ServerToPeer::Error(SignallingError::InternalError)), SignallingEvent::Error(SignallingError::InternalError)));
    assert!(matches!(ev(ServerToPeer::Error(SignallingError::NoSuchPeer(s("N")))), SignallingEvent::Error(SignallingError::NoSuchPeer(ref p)) if p == "N"));
}
