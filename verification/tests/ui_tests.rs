use std::collections::{HashMap, VecDeque};

use remote::media::{
    Encoder, Encoding, EncodingOptions, FrameIsKeyframe, H264EncodingOptions, RateControlMode,
    StageStatistics, Statistics, VideoBuffer,
};
use remote::protocol::{Mode, StreamRequest, StreamRequestResponse};
use remote::stream::{
    media_source, MediaSource, answer_stream_request, on_stream_peer_event, StreamAction, StreamPeerEvent, StreamStart,
    StreamState,
};
use remote::ui::{
    frame_delay, push_statistics, request_from, stage_time_totals, update_frame_timeline,
    FrameTimeline, ShouldRemove, Stage, UIPeerBook, Visible, MAX_FRAME_TIMELINES,
};

fn stage(time: u64, start: u64, end: u64) -> StageStatistics {
    StageStatistics { time, media_queue_len: 0, start_time: start, end_time: end }
}

fn stats(n: u64) -> Statistics {
    Statistics { encode: Some(stage(n, 0, 10)), decode: Some(stage(1, 20, 21)), convert: None }
}

fn h264() -> EncodingOptions {
    EncodingOptions::H264(H264EncodingOptions { rate_control: RateControlMode::Quality(70) })
}

fn accept() -> StreamRequestResponse {
    StreamRequestResponse::Accept {
        mode: Mode { width: 800, height: 600, refresh_rate: 30 },
        encoding: Encoding::H264,
        encoding_options: h264(),
    }
}

#[test]
fn defaults_of_window_flags() {
    assert_eq!(Visible::default(), Visible::Yes);
    assert_ne!(ShouldRemove::Yes, ShouldRemove::No);
}

#[test]
fn frame_delay_is_the_distance() {
    assert_eq!(frame_delay(100, 40), 60);
    assert_eq!(frame_delay(40, 100), 60);
    assert_eq!(frame_delay(7, 7), 0);
    assert_eq!(frame_delay(0, u64::MAX), u64::MAX);
}

#[test]
fn statistics_window_keeps_one_second() {
    let mut w: VecDeque<Statistics> = VecDeque::new();
    for i in 0..5 {
        push_statistics(&mut w, stats(i), 3);
        assert!(w.len() <= 3);
    }
    let kept: Vec<u64> = w.iter().map(|s| s.encode.unwrap().time).collect();
    assert_eq!(kept, vec![2, 3, 4]);
}

#[test]
fn frame_timeline_from_statistics() {
    let mut t: VecDeque<FrameTimeline> = VecDeque::new();
    let st = Statistics {
        encode: Some(stage(5, 100, 110)),
        decode: Some(stage(3, 150, 153)),
        convert: Some(stage(2, 90, 92)),
    };
    assert_eq!(update_frame_timeline(&mut t, st, 100), Some(40));
    assert_eq!(
        t[0],
        FrameTimeline { conversion: 2, encode: 5, network: 40, decode: 3, total: 100, gap: 50 }
    );
    // A total shorter than the known stages leaves no gap.
    assert_eq!(update_frame_timeline(&mut t, st, 10), Some(40));
    assert_eq!(t[0].gap, 0);
    assert_eq!(t.len(), 2);
}

#[test]
fn frame_timeline_needs_a_network_time() {
    let mut t: VecDeque<FrameTimeline> = VecDeque::new();
    let backwards = Statistics { encode: Some(stage(1, 0, 50)), decode: Some(stage(1, 40, 41)), convert: None };
    assert_eq!(update_frame_timeline(&mut t, backwards, 10), None);
    let missing = Statistics { encode: None, decode: Some(stage(1, 40, 41)), convert: None };
    assert_eq!(update_frame_timeline(&mut t, missing, 10), None);
    assert!(t.is_empty());
}

#[test]
fn frame_timelines_keep_the_last_ten_newest_first() {
    let mut t: VecDeque<FrameTimeline> = VecDeque::new();
    for total in 0..15u64 {
        let _ = update_frame_timeline(&mut t, stats(1), total);
    }
    assert_eq!(t.len(), MAX_FRAME_TIMELINES);
    assert_eq!(t[0].total, 14);
    assert_eq!(t[9].total, 5);
}

#[test]
fn connection_requests_are_taken_once() {
    let mut book = UIPeerBook::new();
    book.handle_connection_request("AAAAA".to_string(), 1);
    book.handle_connection_request("BBBBB".to_string(), 2);
    assert_eq!(book.last_connection_request, Some(2));
    assert_eq!(book.take_request_from(&"AAAAA".to_string()), Some(1));
    assert_eq!(book.take_request_from(&"AAAAA".to_string()), None);
    assert_eq!(book.connection_peer_id.len(), 1);
    assert_eq!(book.last_connection_request, Some(2));
    assert_eq!(book.take_request_from(&"CCCCC".to_string()), None);
}

#[test]
fn request_lookup_by_peer() {
    let mut m: HashMap<u128, String> = HashMap::new();
    m.insert(10, "AAAAA".to_string());
    m.insert(11, "BBBBB".to_string());
    assert_eq!(request_from(&m, &"BBBBB".to_string()), Some(11));
    assert_eq!(request_from(&m, &"ZZZZZ".to_string()), None);
}

#[test]
fn remote_peers_of_the_book() {
    let mut book = UIPeerBook::new();
    assert!(!book.has_remote_peer(&"AAAAA".to_string()));
    book.add_remote_peer("AAAAA".to_string());
    assert!(book.has_remote_peer(&"AAAAA".to_string()));
    assert!(!book.has_remote_peer(&"BBBBB".to_string()));
    book.add_remote_peer("AAAAA".to_string());
    assert_eq!(book.remote_peers, vec!["AAAAA".to_string()]);
}

#[test]
fn a_stream_request_goes_to_the_user_unless_streaming() {
    let st = StreamState::new();
    let (st2, a) = on_stream_peer_event(st, StreamPeerEvent::StreamRequest(StreamRequest::default()));
    assert_eq!(st2, st);
    assert!(matches!(a, StreamAction::AskUser(r) if r == StreamRequest::default()));
    let mut streaming = st;
    streaming.stream_started();
    assert!(streaming.streaming && !streaming.decoding);
    let (st3, a) = on_stream_peer_event(streaming, StreamPeerEvent::StreamRequest(StreamRequest::default()));
    assert_eq!(st3, streaming);
    assert!(matches!(a, StreamAction::Ignore));
}

#[test]
fn an_accepted_stream_starts_a_decoder_and_video_is_decoded() {
    let st = StreamState::new();
    let video = || VideoBuffer { data: vec![1, 2], sequence_header: None, time: 0, duration: 0, key_frame: FrameIsKeyframe::No };
    let (_, a) = on_stream_peer_event(st, StreamPeerEvent::Video(video()));
    assert!(matches!(a, StreamAction::ShowVideo { decode: false, .. }));
    let (st, a) = on_stream_peer_event(st, StreamPeerEvent::RequestStreamResponse(accept()));
    assert!(st.decoding);
    assert!(matches!(a, StreamAction::StartDecoder(m) if m == Mode { width: 800, height: 600, refresh_rate: 30 }));
    let (_, a) = on_stream_peer_event(st, StreamPeerEvent::Video(video()));
    assert!(matches!(a, StreamAction::ShowVideo { ref video, decode: true } if video.data == vec![1, 2]));
    let (st2, a) = on_stream_peer_event(st, StreamPeerEvent::RequestStreamResponse(StreamRequestResponse::Reject));
    assert_eq!(st2, st);
    assert!(matches!(a, StreamAction::Ignore));
}

#[test]
fn closed_is_reported_and_the_rest_ignored() {
    let st = StreamState::new();
    assert!(matches!(on_stream_peer_event(st, StreamPeerEvent::Closed).1, StreamAction::ReportClosed));
    assert!(matches!(on_stream_peer_event(st, StreamPeerEvent::Unknown).1, StreamAction::Ignore));
    assert!(matches!(on_stream_peer_event(st, StreamPeerEvent::Audio(vec![0])).1, StreamAction::Ignore));
}

#[test]
fn answering_a_stream_request() {
    let (r, start) = answer_stream_request(None, Encoder::MediaFoundation);
    assert!(matches!(r, StreamRequestResponse::Reject));
    assert!(start.is_none());

    let (r, start) = answer_stream_request(Some((accept(), None)), Encoder::MediaFoundation);
    assert!(matches!(r, StreamRequestResponse::Accept { .. }));
    assert_eq!(
        start,
        Some(StreamStart {
            mode: Mode { width: 800, height: 600, refresh_rate: 30 },
            encoder: Encoder::MediaFoundation,
            encoding: Encoding::H264,
            encoding_options: h264(),
        })
    );

    let (r, start) = answer_stream_request(Some((StreamRequestResponse::Reject, Some(Encoder::MediaFoundation))), Encoder::MediaFoundation);
    assert!(matches!(r, StreamRequestResponse::Reject));
    assert!(start.is_none());

    let negotiate = StreamRequestResponse::Negotiate { viable_modes: vec![], viable_encodings: vec![Encoding::VP9] };
    let (r, start) = answer_stream_request(Some((negotiate, None)), Encoder::MediaFoundation);
    assert!(matches!(r, StreamRequestResponse::Negotiate { ref viable_encodings, .. } if *viable_encodings == vec![Encoding::VP9]));
    assert!(start.is_none());
}

#[test]
fn stage_totals_over_the_window() {
    let mut w: VecDeque<Statistics> = VecDeque::new();
    w.push_back(Statistics { encode: Some(stage(5, 0, 0)), decode: None, convert: Some(stage(1, 0, 0)) });
    w.push_back(Statistics { encode: Some(stage(7, 0, 0)), decode: Some(stage(2, 0, 0)), convert: None });
    w.push_back(Statistics { encode: None, decode: Some(stage(u64::MAX, 0, 0)), convert: None });
    assert_eq!(stage_time_totals(&w, Stage::Encode), (12, 2));
    assert_eq!(stage_time_totals(&w, Stage::Decode), (2 + u64::MAX as u128, 2));
    assert_eq!(stage_time_totals(&w, Stage::Convert), (1, 1));
    assert_eq!(stage_time_totals(&VecDeque::new(), Stage::Encode), (0, 0));
}

#[test]
fn statistics_window_of_any_length() {
    let mut w: VecDeque<Statistics> = (0..6).map(stats).collect();
    push_statistics(&mut w, stats(6), 3);
    assert_eq!(w.len(), 6);
    assert_eq!(w.back().unwrap().encode.unwrap().time, 6);
    assert_eq!(w.front().unwrap().encode.unwrap().time, 1);
    let mut z: VecDeque<Statistics> = VecDeque::new();
    push_statistics(&mut z, stats(1), 0);
    assert!(z.is_empty());
}

#[test]
fn accepted_streams_play_the_file_or_capture_the_desktop() {
    assert!(matches!(media_source(Some("clip.mp4".to_string())), MediaSource::File(ref f) if f == "clip.mp4"));
    assert!(matches!(media_source(None), MediaSource::Desktop));
}
