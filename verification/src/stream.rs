//! What a window on a connected peer decides when the peer's events come
//! in: whether to put a stream request before the user, when to start a
//! decoder, where received video goes, and what to answer once the user
//! has decided on a request.
use crate::media::{Encoder, Encoding, EncodingOptions, VideoBuffer};
use crate::protocol::{Mode, StreamRequest, StreamRequestResponse};
use vstd::prelude::*;

verus! {

/// An event from the connection to a remote peer.
pub enum StreamPeerEvent {
    /// The remote peer asks us to stream to it.
    StreamRequest(StreamRequest),
    /// The remote peer answered our request.
    RequestStreamResponse(StreamRequestResponse),
    Audio(Vec<u8>),
    Video(VideoBuffer),
    /// The connection is closed or failed for good.
    Closed,
    /// The connection reported an error of unknown kind.
    Unknown,
}

/// What this side has going with the remote peer: whether we are sending
/// it a stream, and whether a decoder runs for the stream it sends us.
#[derive(Clone, Copy, Debug, PartialEq, Eq, Structural)]
pub struct StreamState {
    pub streaming: bool,
    pub decoding: bool,
}

/// What to do about one event.
pub enum StreamAction {
    /// Nothing.
    Ignore,
    /// Put the request before the user, with a way to answer it.
    AskUser(StreamRequest),
    /// Start a decoder for a stream of this mode and show its output.
    StartDecoder(Mode),
    /// Show the video's data; also hand it to the decoder when `decode`.
    ShowVideo { video: VideoBuffer, decode: bool },
    /// Tell the application that the peer is gone.
    ReportClosed,
}

impl StreamState {
    pub fn new() -> (s: StreamState)
        ensures
            !s.streaming,
            !s.decoding,
    {
        StreamState { streaming: false, decoding: false }
    }

    /// Records that the stream to the peer has started.
    pub fn stream_started(&mut self)
        ensures
            final(self).streaming,
            final(self).decoding == old(self).decoding,
    {
        self.streaming = true;
    }
}

/// The next state and the action for one event: a stream request while
/// we are already streaming is ignored, any other goes to the user; an
/// accepted answer starts a decoder with the accepted mode, other answers
/// are ignored; video is shown, and decoded when a decoder runs; a closed
/// connection is reported; audio and unknown errors are ignored.
pub fn on_stream_peer_event(state: StreamState, event: StreamPeerEvent) -> (r: (StreamState, StreamAction))
    ensures
        match event {
            StreamPeerEvent::StreamRequest(request) => if state.streaming {
                r.0 == state && r.1 is Ignore
            } else {
                r.0 == state && r.1 == StreamAction::AskUser(request)
            },
            StreamPeerEvent::RequestStreamResponse(response) => match response {
                StreamRequestResponse::Accept { mode, .. } => r.0 == (StreamState {
                    decoding: true,
                    ..state
                }) && r.1 == StreamAction::StartDecoder(mode),
                _ => r.0 == state && r.1 is Ignore,
            },
            StreamPeerEvent::Video(video) => r.0 == state && r.1 == (StreamAction::ShowVideo {
                video,
                decode: state.decoding,
            }),
            StreamPeerEvent::Closed => r.0 == state && r.1 is ReportClosed,
            StreamPeerEvent::Audio(_) => r.0 == state && r.1 is Ignore,
            StreamPeerEvent::Unknown => r.0 == state && r.1 is Ignore,
        },
{
    match event {
        StreamPeerEvent::StreamRequest(request) => {
            if state.streaming {
                (state, StreamAction::Ignore)
            } else {
                (state, StreamAction::AskUser(request))
            }
        },
        StreamPeerEvent::RequestStreamResponse(response) => match response {
            StreamRequestResponse::Accept { mode, .. } => (
                StreamState { streaming: state.streaming, decoding: true },
                StreamAction::StartDecoder(mode),
            ),
            _ => (state, StreamAction::Ignore),
        },
        StreamPeerEvent::Video(video) => (state, StreamAction::ShowVideo { video, decode: state.decoding }),
        StreamPeerEvent::Closed => (state, StreamAction::ReportClosed),
        StreamPeerEvent::Audio(_) => (state, StreamAction::Ignore),
        StreamPeerEvent::Unknown => (state, StreamAction::Ignore),
    }
}

/// The stream to start once the user accepted a request.
#[derive(Clone, Copy, Debug, PartialEq, Eq, Structural)]
pub struct StreamStart {
    pub mode: Mode,
    pub encoder: Encoder,
    pub encoding: Encoding,
    pub encoding_options: EncodingOptions,
}

/// What is sent back to the peer once the user decided on its request
/// (`None`: the user's answer never came), and the stream to start with
/// it. An acceptance starts the accepted stream, with the user's encoder
/// or else `default_encoder`; an answer that never came is a rejection;
/// any other answer is passed on and starts nothing.
pub fn answer_stream_request(
    answer: Option<(StreamRequestResponse, Option<Encoder>)>,
    default_encoder: Encoder,
) -> (r: (StreamRequestResponse, Option<StreamStart>))
    ensures
        match answer {
            None => r.0 is Reject && r.1 is None,
            Some((response, encoder)) => r.0 == response && match response {
                StreamRequestResponse::Accept { mode, encoding, encoding_options } => r.1 == Some(
                    StreamStart {
                        mode,
                        encoder: match encoder {
                            Some(e) => e,
                            None => default_encoder,
                        },
                        encoding,
                        encoding_options,
                    },
                ),
                _ => r.1 is None,
            },
        },
{
    match answer {
        None => (StreamRequestResponse::Reject, None),
        Some((response, encoder)) => {
            let start = match &response {
                StreamRequestResponse::Accept { mode, encoding, encoding_options } => {
                    let chosen = match encoder {
                        Some(e) => e,
                        None => default_encoder,
                    };
                    Some(
                        StreamStart {
                            mode: *mode,
                            encoder: chosen,
                            encoding: *encoding,
                            encoding_options: *encoding_options,
                        },
                    )
                },
                _ => None,
            };
            (response, start)
        },
    }
}

/// Where an accepted stream's media comes from.
pub enum MediaSource {
    /// Played out from this file.
    File(String),
    /// Captured from the desktop.
    Desktop,
}

/// An accepted stream plays the configured media file when there is one,
/// and captures the desktop otherwise.
pub fn media_source(media_filename: Option<String>) -> (m: MediaSource)
    ensures
        match media_filename {
            Some(f) => m == MediaSource::File(f),
            None => m is Desktop,
        },
{
    match media_filename {
        Some(f) => MediaSource::File(f),
        None => MediaSource::Desktop,
    }
}

} // verus!
