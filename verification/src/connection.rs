//! One connection to a remote peer: which channel each control goes to,
//! which events reach the owner of the connection, and which WebRTC
//! events go back out through signalling.
use crate::media::VideoBuffer;
use crate::protocol::{LogicMessage, StreamRequest, StreamRequestResponse};
use crate::rtc::{spec_is_terminal, ChannelOptions, RtcPeerControl, RtcPeerEvent, RtcPeerState};
use crate::signal::{PeerId, SignallingControl};
use vstd::prelude::*;

verus! {

/// What travels on the audio channel.
pub enum AudioMessage {
    Audio(Vec<u8>),
}

/// What travels on the video channel.
pub enum VideoMessage {
    Video(VideoBuffer),
}

pub enum AudioControl {
    Audio(Vec<u8>),
}

pub enum AudioEvent {
    Audio(Vec<u8>),
}

pub enum VideoControl {
    Video(VideoBuffer),
}

pub enum VideoEvent {
    Video(VideoBuffer),
}

/// The message sent on the audio channel for a control.
pub fn audio_message(c: AudioControl) -> (m: AudioMessage)
    ensures
        m == (match c {
            AudioControl::Audio(a) => AudioMessage::Audio(a),
        }),
{
    match c {
        AudioControl::Audio(a) => AudioMessage::Audio(a),
    }
}

/// The event reported for a message received on the audio channel.
pub fn audio_event(m: AudioMessage) -> (e: AudioEvent)
    ensures
        e == (match m {
            AudioMessage::Audio(a) => AudioEvent::Audio(a),
        }),
{
    match m {
        AudioMessage::Audio(a) => AudioEvent::Audio(a),
    }
}

/// The message sent on the video channel for a control.
pub fn video_message(c: VideoControl) -> (m: VideoMessage)
    ensures
        m == (match c {
            VideoControl::Video(v) => VideoMessage::Video(v),
        }),
{
    match c {
        VideoControl::Video(v) => VideoMessage::Video(v),
    }
}

/// The event reported for a message received on the video channel.
pub fn video_event(m: VideoMessage) -> (e: VideoEvent)
    ensures
        e == (match m {
            VideoMessage::Video(v) => VideoEvent::Video(v),
        }),
{
    match m {
        VideoMessage::Video(v) => VideoEvent::Video(v),
    }
}

/// The video channel trades reliability for latency: unordered, with no
/// retransmits.
pub fn video_channel_options() -> (o: ChannelOptions)
    ensures
        o.ordered == Some(false),
        o.max_retransmits == Some(0u16),
{
    ChannelOptions { ordered: Some(false), max_retransmits: Some(0) }
}

/// Seconds between keep-alive pings on the logic channel.
pub const KEEP_ALIVE_INTERVAL_SECS: u64 = 10;

/// Seconds between sweeps for expired unfinished messages.
pub const EXPIRY_INTERVAL_SECS: u64 = 1;

/// What the owner of a connection asks of it.
pub enum PeerConnectionControl {
    Offer(String),
    Answer(String),
    IceCandidate(String),
    Audio(Vec<u8>),
    Video(VideoBuffer),
    RequestStream(StreamRequest),
    RequestStreamResponse(StreamRequestResponse),
    Disconnect,
}

/// What a connection reports to its owner.
pub enum PeerConnectionEvent {
    StreamRequest(StreamRequest),
    StreamResponse(StreamRequestResponse),
    Audio(Vec<u8>),
    Video(VideoBuffer),
    Error(PeerConnectionError),
    Closed,
}

pub enum PeerConnectionError {
    Closed,
    Unknown,
}

/// Where a control goes.
pub enum ControlRoute {
    Rtc(RtcPeerControl),
    Audio(AudioControl),
    Video(VideoControl),
    Logic(LogicMessage),
    /// Stop handling controls.
    Stop,
    /// Nothing to do: the connection has stopped.
    Ignore,
}

/// Where a control goes while the connection is running.
pub open spec fn control_destination(c: PeerConnectionControl) -> ControlRoute {
    match c {
        PeerConnectionControl::Offer(o) => ControlRoute::Rtc(RtcPeerControl::Offer(o)),
        PeerConnectionControl::Answer(a) => ControlRoute::Rtc(RtcPeerControl::Answer(a)),
        PeerConnectionControl::IceCandidate(i) => ControlRoute::Rtc(RtcPeerControl::IceCandidate(i)),
        PeerConnectionControl::Audio(a) => ControlRoute::Audio(AudioControl::Audio(a)),
        PeerConnectionControl::Video(v) => ControlRoute::Video(VideoControl::Video(v)),
        PeerConnectionControl::RequestStream(r) => ControlRoute::Logic(LogicMessage::StreamRequest(r)),
        PeerConnectionControl::RequestStreamResponse(r) => ControlRoute::Logic(
            LogicMessage::StreamRequestResponse(r),
        ),
        PeerConnectionControl::Disconnect => ControlRoute::Stop,
    }
}

/// Session descriptions and candidates go to the WebRTC peer, media to
/// its channel, stream requests and answers to the logic channel; a
/// disconnect stops the connection.
pub fn route_control(c: PeerConnectionControl) -> (r: ControlRoute)
    ensures
        r == control_destination(c),
{
    match c {
        PeerConnectionControl::Offer(o) => ControlRoute::Rtc(RtcPeerControl::Offer(o)),
        PeerConnectionControl::Answer(a) => ControlRoute::Rtc(RtcPeerControl::Answer(a)),
        PeerConnectionControl::IceCandidate(i) => ControlRoute::Rtc(RtcPeerControl::IceCandidate(i)),
        PeerConnectionControl::Audio(a) => ControlRoute::Audio(AudioControl::Audio(a)),
        PeerConnectionControl::Video(v) => ControlRoute::Video(VideoControl::Video(v)),
        PeerConnectionControl::RequestStream(r) => ControlRoute::Logic(LogicMessage::StreamRequest(r)),
        PeerConnectionControl::RequestStreamResponse(r) => ControlRoute::Logic(
            LogicMessage::StreamRequestResponse(r),
        ),
        PeerConnectionControl::Disconnect => ControlRoute::Stop,
    }
}

/// What a message from the logic channel becomes for the owner: stream
/// requests and answers are reported, keyframe requests and keep-alives
/// are not.
pub fn route_logic(m: LogicMessage) -> (e: Option<PeerConnectionEvent>)
    ensures
        e == (match m {
            LogicMessage::StreamRequest(r) => Some(PeerConnectionEvent::StreamRequest(r)),
            LogicMessage::StreamRequestResponse(r) => Some(PeerConnectionEvent::StreamResponse(r)),
            _ => None::<PeerConnectionEvent>,
        }),
{
    match m {
        LogicMessage::StreamRequest(r) => Some(PeerConnectionEvent::StreamRequest(r)),
        LogicMessage::StreamRequestResponse(r) => Some(PeerConnectionEvent::StreamResponse(r)),
        LogicMessage::StreamKeyframeRequest => None,
        LogicMessage::Ping | LogicMessage::Pong => None,
    }
}

/// What becomes of an event of the WebRTC peer.
pub enum RtcRoute {
    /// Send this through signalling.
    Signal(SignallingControl),
    /// The connection is gone: report it and stop listening.
    Closed,
    /// Nothing to do.
    Ignore,
}

/// Local descriptions and candidates go to the remote peer through
/// signalling, addressed to `their_peer_id`; a failed or closed
/// connection ends the connection; other state changes are ignored.
pub fn route_rtc_event(their_peer_id: &PeerId, e: RtcPeerEvent) -> (r: RtcRoute)
    ensures
        match e {
            RtcPeerEvent::IceCandidate(c) => r matches RtcRoute::Signal(
                SignallingControl::IceCandidate(p, c2),
            ) && p@ == their_peer_id@ && c2 == c,
            RtcPeerEvent::Offer(o) => r matches RtcRoute::Signal(SignallingControl::Offer(p, o2))
                && p@ == their_peer_id@ && o2 == o,
            RtcPeerEvent::Answer(a) => r matches RtcRoute::Signal(SignallingControl::Answer(p, a2))
                && p@ == their_peer_id@ && a2 == a,
            RtcPeerEvent::StateChange(s) => if spec_is_terminal(s) {
                r is Closed
            } else {
                r is Ignore
            },
        },
{
    match e {
        RtcPeerEvent::IceCandidate(c) => RtcRoute::Signal(
            SignallingControl::IceCandidate(their_peer_id.clone(), c),
        ),
        RtcPeerEvent::Offer(o) => RtcRoute::Signal(SignallingControl::Offer(their_peer_id.clone(), o)),
        RtcPeerEvent::Answer(a) => RtcRoute::Signal(
            SignallingControl::Answer(their_peer_id.clone(), a),
        ),
        RtcPeerEvent::StateChange(s) => {
            if crate::rtc::is_terminal(s) {
                RtcRoute::Closed
            } else {
                RtcRoute::Ignore
            }
        },
    }
}

/// The control side of one connection: routes controls until a
/// disconnect, after which it handles none.
pub struct ControlRouter {
    pub stopped: bool,
}

impl ControlRouter {
    pub fn new() -> (r: ControlRouter)
        ensures
            !r.stopped,
    {
        ControlRouter { stopped: false }
    }

    /// Routes one control: while running, to its destination, a disconnect
    /// stopping the connection; once stopped, every control is ignored and
    /// the connection stays stopped.
    pub fn route(&mut self, c: PeerConnectionControl) -> (r: ControlRoute)
        ensures
            old(self).stopped ==> r is Ignore && final(self).stopped,
            !old(self).stopped ==> r == control_destination(c) && final(self).stopped == (
            c is Disconnect),
    {
        if self.stopped {
            ControlRoute::Ignore
        } else {
            let stop = match c {
                PeerConnectionControl::Disconnect => true,
                _ => false,
            };
            let r = route_control(c);
            self.stopped = stop;
            r
        }
    }
}

/// Whether a connection is closed after `e`, given whether it was before:
/// a failed or closed state closes it for good.
pub open spec fn closed_after(closed: bool, e: RtcPeerEvent) -> bool {
    closed || (e matches RtcPeerEvent::StateChange(s) && spec_is_terminal(s))
}

/// The WebRTC side of one connection: forwards its events until the
/// connection fails or closes, reports that once, and forwards nothing
/// after it.
pub struct RtcEventRouter {
    pub closed: bool,
}

impl RtcEventRouter {
    pub fn new() -> (r: RtcEventRouter)
        ensures
            !r.closed,
    {
        RtcEventRouter { closed: false }
    }

    /// Routes one event of the WebRTC peer: while open, as
    /// [`route_rtc_event`] does; a failed or closed state closes the
    /// connection, and a closed connection ignores every event. `Closed`
    /// is given exactly for the event that closes it.
    pub fn route(&mut self, their_peer_id: &PeerId, e: RtcPeerEvent) -> (r: RtcRoute)
        ensures
            final(self).closed == closed_after(old(self).closed, e),
            old(self).closed ==> r is Ignore,
            (r is Closed) == (!old(self).closed && final(self).closed),
            !old(self).closed ==> match e {
                RtcPeerEvent::IceCandidate(c) => r matches RtcRoute::Signal(
                    SignallingControl::IceCandidate(p, c2),
                ) && p@ == their_peer_id@ && c2 == c,
                RtcPeerEvent::Offer(o) => r matches RtcRoute::Signal(SignallingControl::Offer(p, o2))
                    && p@ == their_peer_id@ && o2 == o,
                RtcPeerEvent::Answer(a) => r matches RtcRoute::Signal(
                    SignallingControl::Answer(p, a2),
                ) && p@ == their_peer_id@ && a2 == a,
                RtcPeerEvent::StateChange(s) => if spec_is_terminal(s) {
                    r is Closed
                } else {
                    r is Ignore
                },
            },
    {
        if self.closed {
            RtcRoute::Ignore
        } else {
            let ghost ev = e;
            let r = route_rtc_event(their_peer_id, e);
            let closes = match r {
                RtcRoute::Closed => true,
                _ => false,
            };
            self.closed = closes;
            proof {
                assert(closes == closed_after(false, ev));
            }
            r
        }
    }
}

/// A connection that failed or closed stays closed: from a closed state,
/// any run of WebRTC events leaves it closed.
pub proof fn law_closed_is_final(events: Seq<RtcPeerEvent>)
    ensures
        events.fold_left(true, |closed: bool, e: RtcPeerEvent| closed_after(closed, e)),
    decreases events.len(),
{
    if events.len() > 0 {
        law_closed_is_final(events.drop_last());
    }
}

} // verus!
