//! The messages two connected peers exchange on their logic channel:
//! asking for a stream, answering such a request, and keeping the
//! channel alive.
use crate::media::{
    Encoder,
    Encoding,
    EncodingOptions,
    H264EncodingOptions,
    RateControlMode,
    DEFAULT_QUALITY,
};
use vstd::prelude::*;

verus! {

/// A display mode: size in pixels and refresh rate in frames per second.
#[derive(Clone, Copy, Debug, PartialEq, Eq, Structural)]
pub struct Mode {
    pub width: u32,
    pub height: u32,
    pub refresh_rate: u32,
}

/// What a peer would like to receive; every part is optional.
#[derive(Clone, Copy, Debug, PartialEq, Eq, Structural)]
pub struct StreamRequest {
    pub preferred_mode: Option<Mode>,
    pub preferred_encoding: Option<Encoding>,
    pub preferred_encoding_options: Option<EncodingOptions>,
}

impl Default for StreamRequest {
    fn default() -> (r: StreamRequest)
        ensures
            r.preferred_mode is None,
            r.preferred_encoding is None,
            r.preferred_encoding_options is None,
    {
        StreamRequest {
            preferred_mode: None,
            preferred_encoding: None,
            preferred_encoding_options: None,
        }
    }
}

/// The answer to a stream request.
#[derive(Clone, Debug)]
pub enum StreamRequestResponse {
    /// This is what will be sent.
    Accept { mode: Mode, encoding: Encoding, encoding_options: EncodingOptions },
    /// These are the offers; pick one.
    Negotiate { viable_modes: Vec<Mode>, viable_encodings: Vec<Encoding> },
    Reject,
}

#[derive(Clone, Debug)]
pub enum LogicMessage {
    StreamRequest(StreamRequest),
    StreamRequestResponse(StreamRequestResponse),
    StreamKeyframeRequest,
    Ping,
    Pong,
}

/// The stream a peer offers when it accepts a request: what was asked
/// for, with its own display mode, H.264 and H.264 defaults filling the
/// gaps. The encoder is always Media Foundation.
pub open spec fn spec_accept_response(request: StreamRequest, width: u32, height: u32, framerate: u32) -> (
    Mode,
    Encoding,
    EncodingOptions,
) {
    (
        match request.preferred_mode {
            Some(m) => m,
            None => Mode { width: width, height: height, refresh_rate: framerate },
        },
        match request.preferred_encoding {
            Some(e) => e,
            None => Encoding::H264,
        },
        match request.preferred_encoding_options {
            Some(o) => o,
            None => EncodingOptions::H264(
                H264EncodingOptions { rate_control: RateControlMode::Quality(DEFAULT_QUALITY) },
            ),
        },
    )
}

/// Builds the answer that accepts `request`, given the local display
/// mode (`width` by `height` at `framerate`).
pub fn create_accept_response(request: &StreamRequest, width: u32, height: u32, framerate: u32) -> (r: (
    StreamRequestResponse,
    Encoder,
))
    ensures
        r.0 matches StreamRequestResponse::Accept { mode, encoding, encoding_options } && (
        mode,
        encoding,
        encoding_options,
        ) == spec_accept_response(*request, width, height, framerate),
        r.1 == Encoder::MediaFoundation,
        r.0 matches StreamRequestResponse::Accept { mode, encoding, encoding_options } && {
            &&& request.preferred_mode matches Some(m) ==> mode == m
            &&& request.preferred_mode is None ==> mode == (Mode {
                width,
                height,
                refresh_rate: framerate,
            })
            &&& request.preferred_encoding matches Some(e) ==> encoding == e
            &&& request.preferred_encoding is None ==> encoding == Encoding::H264
            &&& request.preferred_encoding_options matches Some(o) ==> encoding_options == o
            &&& request.preferred_encoding_options is None ==> encoding_options
                == EncodingOptions::H264(
                H264EncodingOptions { rate_control: RateControlMode::Quality(DEFAULT_QUALITY) },
            )
        },
{
    let mode = match request.preferred_mode {
        Some(m) => Mode { width: m.width, height: m.height, refresh_rate: m.refresh_rate },
        None => Mode { width, height, refresh_rate: framerate },
    };
    let encoding = match request.preferred_encoding {
        Some(e) => e,
        None => Encoding::H264,
    };
    let encoding_options = match request.preferred_encoding_options {
        Some(o) => o,
        None => EncodingOptions::H264(
            H264EncodingOptions { rate_control: RateControlMode::Quality(DEFAULT_QUALITY) },
        ),
    };
    (StreamRequestResponse::Accept { mode, encoding, encoding_options }, Encoder::MediaFoundation)
}

/// An acceptance grants what was asked for: each part of the request that
/// names a choice (mode, encoding, options) is taken as it is, whatever the
/// other parts and the local display say; only a part left open is filled
/// in, by the local display mode, H.264, or H.264 at the default quality.
pub proof fn law_accept_grants_the_request(
    request: StreamRequest,
    width: u32,
    height: u32,
    framerate: u32,
    other: StreamRequest,
)
    ensures
        ({
            let (mode, encoding, options) = spec_accept_response(request, width, height, framerate);
            &&& request.preferred_mode matches Some(m) ==> mode == m
            &&& request.preferred_mode is None ==> mode == (Mode {
                width,
                height,
                refresh_rate: framerate,
            })
            &&& request.preferred_encoding matches Some(e) ==> encoding == e
            &&& request.preferred_encoding is None ==> encoding == Encoding::H264
            &&& request.preferred_encoding_options matches Some(o) ==> options == o
            &&& request.preferred_encoding_options is None ==> options == EncodingOptions::H264(
                H264EncodingOptions { rate_control: RateControlMode::Quality(DEFAULT_QUALITY) },
            )
        }),
        other.preferred_mode == request.preferred_mode ==> spec_accept_response(
            other,
            width,
            height,
            framerate,
        ).0 == spec_accept_response(request, width, height, framerate).0,
{
}

/// What the logic channel does with a message that arrived.
pub enum LogicAction {
    /// Answer the keep-alive.
    Reply(LogicMessage),
    /// Nothing to do.
    Drop,
    /// Hand the message to the peer.
    Forward(LogicMessage),
}

/// A ping is answered with a pong, a pong is swallowed, anything else is
/// handed on unchanged.
pub fn on_logic_message(message: LogicMessage) -> (a: LogicAction)
    ensures
        message is Ping ==> a matches LogicAction::Reply(LogicMessage::Pong),
        message is Pong ==> a is Drop,
        !(message is Ping) && !(message is Pong) ==> a == LogicAction::Forward(message),
{
    match message {
        LogicMessage::Ping => LogicAction::Reply(LogicMessage::Pong),
        LogicMessage::Pong => LogicAction::Drop,
        other => LogicAction::Forward(other),
    }
}

} // verus!
