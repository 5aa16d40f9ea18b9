use remote::connection::{video_channel_options, ControlRouter, RtcEventRouter, EXPIRY_INTERVAL_SECS, KEEP_ALIVE_INTERVAL_SECS};
use remote::connection::{
    audio_event, audio_message, route_control, route_logic, route_rtc_event, video_event,
    video_message, AudioControl, AudioEvent, AudioMessage, ControlRoute, PeerConnectionControl,
    PeerConnectionEvent, RtcRoute, VideoControl, VideoEvent, VideoMessage,
};
use remote::media::{FrameIsKeyframe, VideoBuffer};
use remote::protocol::{LogicMessage, StreamRequest, StreamRequestResponse};
use remote::rtc::{
    channel_step, takes_controls, ChannelAction, ChannelControl, ChannelInput, ChannelState,
    is_terminal, must_wait_after_send, reliability_for, str_eq, Api, ApiParseError,
    ChannelOptions, IceCandidateBuffer, IceStep, RtcPeerControl, RtcPeerEvent, RtcPeerState,
    BUFFERED_AMOUNT_LOW_THRESHOLD, MAX_BUFFERED_AMOUNT,
};
use remote::signal::SignallingControl;

fn video(n: u8) -> VideoBuffer {
    VideoBuffer { data: vec![n; 3], sequence_header: None, time: 1, duration: 2, key_frame: FrameIsKeyframe::Yes }
}

#[test]
fn api_names_parse() {
    assert_eq!(Api::from_str("webrtc-rs"), Ok(Api::WebrtcRs));
    assert_eq!(Api::from_str("WebrtcRs"), Ok(Api::WebrtcRs));
    assert_eq!(Api::from_str("datachannel"), Ok(Api::DataChannel));
    assert_eq!(Api::from_str("DataChannel"), Ok(Api::DataChannel));
    assert_eq!(Api::from_str("webrtc"), Err(ApiParseError));
    assert_eq!(Api::from_str(""), Err(ApiParseError));
    assert_eq!(Api::from_str("Datachannel"), Err(ApiParseError));
    assert_eq!(ApiParseError.to_string(), "ApiParseError");
}

#[test]
fn string_equality() {
    assert!(str_eq("abc", "abc"));
    assert!(!str_eq("abc", "abd"));
    assert!(!str_eq("abc", "ab"));
    assert!(str_eq("", ""));
    assert!(str_eq("héllo", "héllo"));
}

#[test]
fn failed_and_closed_are_terminal() {
    assert!(is_terminal(RtcPeerState::Failed));
    assert!(is_terminal(RtcPeerState::Closed));
    for s in [RtcPeerState::New, RtcPeerState::Connecting, RtcPeerState::Connected, RtcPeerState::Disconnected] {
        assert!(!is_terminal(s));
    }
}

#[test]
fn candidates_wait_for_the_remote_description() {
    let mut b = IceCandidateBuffer::new();
    assert!(b.handle_control(RtcPeerControl::IceCandidate("c1".to_string())).is_empty());
    assert!(b.handle_control(RtcPeerControl::IceCandidate("c2".to_string())).is_empty());
    let steps = b.handle_control(RtcPeerControl::Offer("offer".to_string()));
    assert_eq!(steps.len(), 3);
    assert!(matches!(&steps[0], IceStep::ApplyOffer(o) if o == "offer"));
    assert!(matches!(&steps[1], IceStep::AddCandidate(c) if c == "c1"));
    assert!(matches!(&steps[2], IceStep::AddCandidate(c) if c == "c2"));
    let later = b.handle_control(RtcPeerControl::IceCandidate("c3".to_string()));
    assert_eq!(later.len(), 1);
    assert!(matches!(&later[0], IceStep::AddCandidate(c) if c == "c3"));
}

#[test]
fn an_answer_releases_held_candidates_too() {
    let mut b = IceCandidateBuffer::new();
    assert!(b.handle_control(RtcPeerControl::IceCandidate("x".to_string())).is_empty());
    let steps = b.handle_control(RtcPeerControl::Answer("ans".to_string()));
    assert_eq!(steps.len(), 2);
    assert!(matches!(&steps[0], IceStep::ApplyAnswer(a) if a == "ans"));
    assert!(matches!(&steps[1], IceStep::AddCandidate(c) if c == "x"));
    let none_held = b.handle_control(RtcPeerControl::Offer("again".to_string()));
    assert_eq!(none_held.len(), 1);
}

#[test]
fn channel_reliability() {
    let r = reliability_for(ChannelOptions { ordered: None, max_retransmits: None });
    assert!(!r.unordered && !r.unreliable && r.max_retransmits.is_none());
    let r = reliability_for(ChannelOptions { ordered: Some(false), max_retransmits: Some(0) });
    assert!(r.unordered && r.unreliable);
    assert_eq!(r.max_retransmits, Some(0));
    let r = reliability_for(ChannelOptions { ordered: Some(true), max_retransmits: Some(3) });
    assert!(!r.unordered && !r.unreliable);
    assert_eq!(r.max_retransmits, Some(3));
}

#[test]
fn send_back_pressure() {
    assert_eq!(MAX_BUFFERED_AMOUNT, 1_000_000);
    assert_eq!(BUFFERED_AMOUNT_LOW_THRESHOLD, 500_000);
    assert!(!must_wait_after_send(0, 0));
    assert!(!must_wait_after_send(400_000, 600_000));
    assert!(must_wait_after_send(400_001, 600_000));
    assert!(must_wait_after_send(2_000_000, 0));
    assert!(must_wait_after_send(1, usize::MAX));
}

#[test]
fn media_channel_messages() {
    assert!(matches!(audio_message(AudioControl::Audio(vec![1, 2])), AudioMessage::Audio(ref a) if *a == vec![1, 2]));
    assert!(matches!(audio_event(AudioMessage::Audio(vec![3])), AudioEvent::Audio(ref a) if *a == vec![3]));
    assert!(matches!(video_message(VideoControl::Video(video(4))), VideoMessage::Video(ref v) if v.data == vec![4, 4, 4]));
    assert!(matches!(video_event(VideoMessage::Video(video(5))), VideoEvent::Video(ref v) if v.data == vec![5, 5, 5] && v.time == 1 && v.duration == 2));
}

#[test]
fn controls_are_routed_to_their_channel() {
    assert!(matches!(route_control(PeerConnectionControl::Offer("o".into())), ControlRoute::Rtc(RtcPeerControl::Offer(ref o)) if o == "o"));
    assert!(matches!(route_control(PeerConnectionControl::Answer("a".into())), ControlRoute::Rtc(RtcPeerControl::Answer(ref a)) if a == "a"));
    assert!(matches!(route_control(PeerConnectionControl::IceCandidate("c".into())), ControlRoute::Rtc(RtcPeerControl::IceCandidate(ref c)) if c == "c"));
    assert!(matches!(route_control(PeerConnectionControl::Audio(vec![9])), ControlRoute::Audio(AudioControl::Audio(ref a)) if *a == vec![9]));
    assert!(matches!(route_control(PeerConnectionControl::Video(video(1))), ControlRoute::Video(VideoControl::Video(_))));
    assert!(matches!(route_control(PeerConnectionControl::RequestStream(StreamRequest::default())), ControlRoute::Logic(LogicMessage::StreamRequest(_))));
    assert!(matches!(
        route_control(PeerConnectionControl::RequestStreamResponse(StreamRequestResponse::Reject)),
        ControlRoute::Logic(LogicMessage::StreamRequestResponse(StreamRequestResponse::Reject))
    ));
    assert!(matches!(route_control(PeerConnectionControl::Disconnect), ControlRoute::Stop));
}

#[test]
fn logic_messages_reach_the_owner_or_not() {
    assert!(matches!(route_logic(LogicMessage::StreamRequest(StreamRequest::default())), Some(PeerConnectionEvent::StreamRequest(_))));
    assert!(matches!(
        route_logic(LogicMessage::StreamRequestResponse(StreamRequestResponse::Reject)),
        Some(PeerConnectionEvent::StreamResponse(StreamRequestResponse::Reject))
    ));
    assert!(route_logic(LogicMessage::StreamKeyframeRequest).is_none());
    assert!(route_logic(LogicMessage::Ping).is_none());
    assert!(route_logic(LogicMessage::Pong).is_none());
}

#[test]
fn rtc_events_go_out_through_signalling() {
    let them = "THEM1".to_string();
    assert!(matches!(
        route_rtc_event(&them, RtcPeerEvent::IceCandidate("c".into())),
        RtcRoute::Signal(SignallingControl::IceCandidate(ref p, ref c)) if p == "THEM1" && c == "c"
    ));
    assert!(matches!(
        route_rtc_event(&them, RtcPeerEvent::Offer("o".into())),
        RtcRoute::Signal(SignallingControl::Offer(ref p, ref o)) if p == "THEM1" && o == "o"
    ));
    assert!(matches!(
        route_rtc_event(&them, RtcPeerEvent::Answer("a".into())),
        RtcRoute::Signal(SignallingControl::Answer(ref p, ref a)) if p == "THEM1" && a == "a"
    ));
    assert!(matches!(route_rtc_event(&them, RtcPeerEvent::StateChange(RtcPeerState::Failed)), RtcRoute::Closed));
    assert!(matches!(route_rtc_event(&them, RtcPeerEvent::StateChange(RtcPeerState::Closed)), RtcRoute::Closed));
    assert!(matches!(route_rtc_event(&them, RtcPeerEvent::StateChange(RtcPeerState::Connected)), RtcRoute::Ignore));
}

#[test]
fn a_closed_connection_forwards_nothing_more() {
    let them = "THEM1".to_string();
    let mut r = RtcEventRouter::new();
    assert!(matches!(r.route(&them, RtcPeerEvent::Offer("o".into())), RtcRoute::Signal(_)));
    assert!(matches!(r.route(&them, RtcPeerEvent::StateChange(RtcPeerState::Connected)), RtcRoute::Ignore));
    assert!(!r.closed);
    assert!(matches!(r.route(&them, RtcPeerEvent::StateChange(RtcPeerState::Failed)), RtcRoute::Closed));
    assert!(r.closed);
    assert!(matches!(r.route(&them, RtcPeerEvent::StateChange(RtcPeerState::Closed)), RtcRoute::Ignore));
    assert!(matches!(r.route(&them, RtcPeerEvent::IceCandidate("c".into())), RtcRoute::Ignore));
    assert!(matches!(r.route(&them, RtcPeerEvent::Answer("a".into())), RtcRoute::Ignore));
}

#[test]
fn no_control_is_handled_after_a_disconnect() {
    let mut r = ControlRouter::new();
    assert!(matches!(r.route(PeerConnectionControl::Audio(vec![1])), ControlRoute::Audio(_)));
    assert!(matches!(r.route(PeerConnectionControl::Disconnect), ControlRoute::Stop));
    assert!(r.stopped);
    assert!(matches!(r.route(PeerConnectionControl::Offer("o".into())), ControlRoute::Ignore));
    assert!(matches!(r.route(PeerConnectionControl::Disconnect), ControlRoute::Ignore));
}

#[test]
fn video_channel_settings_and_intervals() {
    let o = video_channel_options();
    assert_eq!(o, ChannelOptions { ordered: Some(false), max_retransmits: Some(0) });
    let r = reliability_for(o);
    assert!(r.unordered && r.unreliable);
    assert_eq!(KEEP_ALIVE_INTERVAL_SECS, 10);
    assert_eq!(EXPIRY_INTERVAL_SECS, 1);
}

#[test]
fn data_channel_takes_controls_only_while_open() {
    let s0 = ChannelState::NotOpen;
    assert!(!takes_controls(s0));
    let (s1, a) = channel_step(s0, ChannelInput::Control(ChannelControl::Send(vec![1])));
    assert_eq!(s1, ChannelState::NotOpen);
    assert!(matches!(a, ChannelAction::Hold));
    let (s2, a) = channel_step(s1, ChannelInput::Opened);
    assert_eq!(s2, ChannelState::Open);
    assert!(matches!(a, ChannelAction::ReportOpen));
    assert!(takes_controls(s2));
    let (s3, a) = channel_step(s2, ChannelInput::Control(ChannelControl::Send(vec![1, 2])));
    assert_eq!(s3, ChannelState::Open);
    assert!(matches!(a, ChannelAction::Send(ref d) if *d == vec![1, 2]));
    let (_, a) = channel_step(s3, ChannelInput::Control(ChannelControl::SendText("t".into())));
    assert!(matches!(a, ChannelAction::SendText(ref t) if t == "t"));
    let (_, a) = channel_step(s3, ChannelInput::Opened);
    assert!(matches!(a, ChannelAction::Ignore));
    let (s4, a) = channel_step(s3, ChannelInput::ChannelClosed);
    assert_eq!(s4, ChannelState::Open);
    assert!(matches!(a, ChannelAction::ReportClosed));
    let (s5, a) = channel_step(s4, ChannelInput::Control(ChannelControl::Close));
    assert_eq!(s5, ChannelState::Closed);
    assert!(matches!(a, ChannelAction::CloseAndStop));
    assert!(!takes_controls(s5));
    let (s6, a) = channel_step(s5, ChannelInput::Control(ChannelControl::Send(vec![3])));
    assert_eq!(s6, ChannelState::Closed);
    assert!(matches!(a, ChannelAction::Ignore));
    let (_, a) = channel_step(s5, ChannelInput::ChannelClosed);
    assert!(matches!(a, ChannelAction::Ignore));
}
