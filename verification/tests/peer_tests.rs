use remote::connection::PeerConnectionControl;
use remote::error::{Error, SignalError};
use remote::protocol::StreamRequest;
use remote::media::Encoder;
use remote::peer::{
    handle_signal_event, id_from_event, id_wait_step, DisconnectReason, Peer, PeerConfig, PeerEvent,
    SignalMessage, SignalOutcome,
};
use remote::remote_peer::{RemotePeer, RemotePeerState};
use remote::remote_ui::{RemoteUIState, UIState};
use remote::rtc::Api;
use remote::signal::{SignallingControl, SignallingError, SignallingEvent};

fn s(x: &str) -> String {
    x.to_string()
}

#[test]
fn default_config() {
    let c = PeerConfig::default();
    assert_eq!(c.signal_server, "wss://signall.ing");
    assert_eq!(c.webrtc_api, Api::WebrtcRs);
    assert_eq!(c.encoder, Encoder::MediaFoundation);
    assert_eq!((c.width, c.height, c.framerate, c.bitrate), (1920, 1080, 30, 8_000_000));
    assert!(c.media_filename.is_none());
}

#[test]
fn a_new_peer_knows_its_id_and_no_one() {
    let p = Peer::new(s("ME123"), PeerConfig::default());
    assert_eq!(p.id(), "ME123");
    assert_eq!(p.config().width, 1920);
    assert!(p.connected_peers().is_empty());
    assert!(!p.is_connected(&s("YOU45")));
}

#[test]
fn connect_is_refused_while_connected() {
    let mut p = Peer::new(s("ME123"), PeerConfig::default());
    match p.connect(s("YOU45")) {
        Ok(SignallingControl::RequestConnection(q)) => assert_eq!(q, "YOU45"),
        _ => panic!("expected a connection request"),
    }
    let e = p.connected(s("YOU45"));
    assert!(matches!(e, PeerEvent::PeerConnected { ref peer_id } if peer_id == "YOU45"));
    assert!(p.is_connected(&s("YOU45")));
    assert!(matches!(p.connect(s("YOU45")), Err(Error::AlreadyConnected)));
    let d = p.disconnect(&s("YOU45"));
    assert!(matches!(d, Some((PeerConnectionControl::Disconnect, PeerEvent::PeerDisconnected { ref peer_id, reason: DisconnectReason::UserInitiated })) if peer_id == "YOU45"));
    assert!(p.disconnect(&s("YOU45")).is_none());
    assert!(!p.is_connected(&s("YOU45")));
    assert!(matches!(p.connect(s("YOU45")), Ok(SignallingControl::RequestConnection(_))));
}

#[test]
fn disconnecting_an_unknown_peer_does_nothing() {
    let mut p = Peer::new(s("ME123"), PeerConfig::default());
    let _ = p.connected(s("A0000"));
    assert!(p.disconnect(&s("B0000")).is_none());
    assert_eq!(p.connected_peers(), vec![s("A0000")]);
}

#[test]
fn connected_peers_are_listed_once() {
    let mut p = Peer::new(s("ME123"), PeerConfig::default());
    let _ = p.connected(s("A0000"));
    let _ = p.connected(s("B0000"));
    let _ = p.connected(s("A0000"));
    let mut ps = p.connected_peers();
    ps.sort();
    assert_eq!(ps, vec![s("A0000"), s("B0000")]);
}

#[test]
fn accepting_without_a_pending_request_fails() {
    let mut p = Peer::new(s("ME123"), PeerConfig::default());
    match p.accept_connection(12345) {
        Err(Error::ConnectionFailed(m)) => assert_eq!(m, "No pending connection"),
        _ => panic!("expected a failure"),
    }
}

#[test]
fn stream_requests_need_a_connection() {
    let mut p = Peer::new(s("ME123"), PeerConfig::default());
    assert!(matches!(p.request_stream(&s("X0000"), StreamRequest::default()), Err(Error::PeerNotFound(ref q)) if q == "X0000"));
    let _ = p.connected(s("X0000"));
    assert!(matches!(
        p.request_stream(&s("X0000"), StreamRequest::default()),
        Ok(PeerConnectionControl::RequestStream(r)) if r == StreamRequest::default()
    ));
}

#[test]
fn the_first_id_event_names_the_peer() {
    assert_eq!(id_from_event(SignallingEvent::Id(s("ABCDE"))), Some(s("ABCDE")));
    assert_eq!(id_from_event(SignallingEvent::Offer(s("ABCDE"), s("o"))), None);
}

#[test]
fn signalling_events_become_peer_events() {
    assert!(matches!(handle_signal_event(SignallingEvent::Id(s("X"))), SignalOutcome::Ignore));
    assert!(matches!(handle_signal_event(SignallingEvent::Error(SignallingError::InternalError)), SignalOutcome::Ignore));
    assert!(matches!(
        handle_signal_event(SignallingEvent::ConectionRequest(s("R0000"), 9)),
        SignalOutcome::Emit(PeerEvent::ConnectionRequested { ref peer_id, connection_id: 9 }) if peer_id == "R0000"
    ));
    assert!(matches!(
        handle_signal_event(SignallingEvent::ConnectionAccepted(s("A0000"), 9)),
        SignalOutcome::Connect(ref p) if p == "A0000"
    ));
    assert!(matches!(
        handle_signal_event(SignallingEvent::Offer(s("O0000"), s("sdp"))),
        SignalOutcome::Emit(PeerEvent::SignalMessage { ref peer_id, message: SignalMessage::Offer(ref x) }) if peer_id == "O0000" && x == "sdp"
    ));
    assert!(matches!(
        handle_signal_event(SignallingEvent::Answer(s("O0000"), s("ans"))),
        SignalOutcome::Emit(PeerEvent::SignalMessage { message: SignalMessage::Answer(ref x), .. }) if x == "ans"
    ));
    assert!(matches!(
        handle_signal_event(SignallingEvent::IceCandidate(s("O0000"), s("c"))),
        SignalOutcome::Emit(PeerEvent::SignalMessage { message: SignalMessage::IceCandidate(ref x), .. }) if x == "c"
    ));
}

#[test]
fn signalling_errors_map_to_library_errors() {
    match SignalError::from_signalling(SignallingError::NoSuchPeer(s("Z"))) {
        SignalError::InvalidMessage(m) => assert_eq!(m, "no such peer"),
        _ => panic!("expected an invalid message"),
    }
    match SignalError::from_signalling(SignallingError::InternalError) {
        SignalError::ConnectionFailed(m) => assert_eq!(m, "internal error"),
        _ => panic!("expected a failed connection"),
    }
}

#[test]
fn a_remote_peer_starts_connecting() {
    let r = RemotePeer::new(s("R1234"));
    assert_eq!(r.id(), "R1234");
    assert_eq!(*r.state(), RemotePeerState::Connecting);
    assert!(r.disconnect().is_ok());
}

#[test]
fn remote_ui_follows_peer_events() {
    let mut ui = RemoteUIState::default();
    assert!(matches!(ui.state, UIState::Disconnected));
    ui.apply_peer_event(PeerEvent::ConnectionRequested { peer_id: s("A"), connection_id: 1 });
    ui.apply_peer_event(PeerEvent::ConnectionRequested { peer_id: s("B"), connection_id: 2 });
    ui.apply_peer_event(PeerEvent::ConnectionRequested { peer_id: s("A"), connection_id: 3 });
    assert_eq!(ui.pending_connections.len(), 3);

    ui.apply_peer_event(PeerEvent::PeerConnected { peer_id: s("A") });
    assert!(matches!(ui.state, UIState::Connected));
    assert_eq!(ui.connected_peers, vec![s("A")]);
    assert_eq!(ui.pending_connections.len(), 1);
    assert_eq!(ui.pending_connections[0].peer_id, "B");
    assert_eq!(ui.pending_connections[0].connection_id, 2);

    // Connecting twice lists the peer once.
    ui.apply_peer_event(PeerEvent::PeerConnected { peer_id: s("A") });
    assert_eq!(ui.connected_peers, vec![s("A")]);

    ui.apply_peer_event(PeerEvent::PeerConnected { peer_id: s("C") });
    ui.apply_peer_event(PeerEvent::PeerDisconnected { peer_id: s("A"), reason: DisconnectReason::RemoteClosed });
    assert_eq!(ui.connected_peers, vec![s("C")]);
    assert!(matches!(ui.state, UIState::Connected));

    ui.apply_peer_event(PeerEvent::IncomingStream { peer_id: s("C") });
    assert_eq!(ui.connected_peers, vec![s("C")]);

    ui.apply_peer_event(PeerEvent::PeerDisconnected { peer_id: s("C"), reason: DisconnectReason::Timeout });
    assert!(ui.connected_peers.is_empty());
    assert!(matches!(ui.state, UIState::Disconnected));

    ui.apply_peer_event(PeerEvent::Error { peer_id: None, error: s("boom") });
    assert!(matches!(ui.state, UIState::Error(ref e) if e == "boom"));
    assert_eq!(ui.pending_connections.len(), 1);
}

#[test]
fn waiting_for_the_id() {
    assert!(matches!(id_wait_step(Some(SignallingEvent::Offer(s("X"), s("o")))), Ok(None)));
    assert!(matches!(id_wait_step(Some(SignallingEvent::Id(s("ABCDE")))), Ok(Some(ref p)) if p == "ABCDE"));
    match id_wait_step(None) {
        Err(Error::ConnectionFailed(m)) => assert_eq!(m, "Signal channel closed"),
        _ => panic!("expected a failure"),
    }
}
