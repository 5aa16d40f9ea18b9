use remote::media::{encoded_video_buffer, carries_sequence_header, is_stale_frame, keyframe_from_clean_point, FrameIsKeyframe, MAX_FRAME_AGE};
use remote::media::{
    default_encoding_options, AV1EncodingOptions, Encoder, Encoding, EncodingOptions,
    H2565EncodingOptions, H264EncodingOptions, Media, RateControlMode, SampleQueue,
    TextureBuilder, TextureCPUAccess, TextureFormat, TextureUsage, VP9EncodingOptions,
    DEFAULT_BITRATE, DEFAULT_QUALITY,
};
use remote::protocol::{
    create_accept_response, on_logic_message, LogicAction, LogicMessage, Mode, StreamRequest,
    StreamRequestResponse,
};

#[test]
fn default_options_per_codec() {
    assert_eq!(
        default_encoding_options(Some(Encoding::H264)),
        Some(EncodingOptions::H264(H264EncodingOptions { rate_control: RateControlMode::Quality(70) }))
    );
    assert_eq!(default_encoding_options(Some(Encoding::H265)), Some(EncodingOptions::H265(H2565EncodingOptions {})));
    assert_eq!(default_encoding_options(Some(Encoding::AV1)), Some(EncodingOptions::AV1(AV1EncodingOptions {})));
    assert_eq!(default_encoding_options(Some(Encoding::VP9)), Some(EncodingOptions::VP9(VP9EncodingOptions {})));
    assert_eq!(default_encoding_options(None), None);
    assert_eq!(DEFAULT_QUALITY, 70);
    assert_eq!(DEFAULT_BITRATE, 8_000_000);
}

#[test]
fn texture_builder_defaults() {
    let d = TextureBuilder::new(1920, 1080, TextureFormat::NV12).description();
    assert_eq!(d.width, 1920);
    assert_eq!(d.height, 1080);
    assert_eq!(d.format, TextureFormat::NV12);
    assert_eq!(d.dxgi_format, 103);
    assert_eq!((d.mip_levels, d.array_size, d.sample_count, d.sample_quality), (1, 1, 1, 0));
    assert_eq!(d.usage, 0);
    assert_eq!(d.bind_flags, 0);
    assert_eq!(d.cpu_access_flags, 0);
    assert_eq!(d.misc_flags, 0);
}

#[test]
fn texture_builder_shared_render_target() {
    let d = TextureBuilder::new(640, 480, TextureFormat::BGRA)
        .bind_render_target()
        .bind_shader_resource()
        .keyed_mutex()
        .nt_handle()
        .description();
    assert_eq!(d.bind_flags, 0x8 | 0x20);
    assert_eq!(d.misc_flags, 0x100 | 0x800);
    assert_eq!(d.dxgi_format, 87);
    assert_eq!(d.usage, 0);
}

#[test]
fn texture_builder_staging_read() {
    let b = TextureBuilder::new(16, 16, TextureFormat::NV12)
        .usage(TextureUsage::Staging)
        .cpu_access(TextureCPUAccess::Read);
    assert_eq!(b.usage, Some(TextureUsage::Staging));
    let d = b.description();
    assert_eq!(d.usage, 3);
    assert_eq!(d.cpu_access_flags, 0x20000);
    assert_eq!(d.bind_flags, 0);
    let w = TextureBuilder::new(16, 16, TextureFormat::NV12).cpu_access(TextureCPUAccess::Write).description();
    assert_eq!(w.cpu_access_flags, 0x10000);
}

#[test]
fn media_clock_paces_both_streams() {
    let mut m = Media::new();
    assert_eq!((m.cur_time, m.video_timestamp, m.audio_timestamp), (0, 0, 0));
    assert_eq!(m.frame(0), (true, true));
    m.set_video_timestamp(333_333);
    m.set_audio_timestamp(100_000);
    assert_eq!(m.next_deadline_offset(), 10_000_000);
    // 5 ms = 50 000 units of 100 ns.
    assert_eq!(m.frame(5_000_000), (false, false));
    assert_eq!(m.cur_time, 50_000);
    // Another 5 ms plus 99 ns: the remainder below 100 ns is dropped.
    assert_eq!(m.frame(5_000_099), (false, true));
    assert_eq!(m.cur_time, 100_000);
    assert_eq!(m.frame(30_000_000), (true, true));
    assert_eq!(m.cur_time, 400_000);
    m.set_audio_timestamp(500_000);
    assert_eq!(m.next_deadline_offset(), 33_333_300);
}

#[test]
fn sample_queue_reads_little_endian_samples() {
    let mut q = SampleQueue::new();
    assert_eq!(q.len(), 0);
    assert_eq!(q.next_sample(), 0);
    q.extend(&[0x34, 0x12, 0xff, 0xff, 0x00, 0x80, 0x01]);
    assert_eq!(q.len(), 7);
    assert_eq!(q.next_sample(), 0x1234);
    assert_eq!(q.next_sample(), -1);
    assert_eq!(q.next_sample(), i16::MIN);
    assert_eq!(q.len(), 1);
    // One byte left: silence, and the byte stays.
    assert_eq!(q.next_sample(), 0);
    assert_eq!(q.len(), 1);
    q.extend(&[0x7f]);
    assert_eq!(q.next_sample(), 0x7f01);
    assert_eq!(q.len(), 0);
}

#[test]
fn accept_response_fills_gaps_with_local_mode_and_h264() {
    let (resp, enc) = create_accept_response(&StreamRequest::default(), 2560, 1440, 60);
    assert_eq!(enc, Encoder::MediaFoundation);
    match resp {
        StreamRequestResponse::Accept { mode, encoding, encoding_options } => {
            assert_eq!(mode, Mode { width: 2560, height: 1440, refresh_rate: 60 });
            assert_eq!(encoding, Encoding::H264);
            assert_eq!(
                encoding_options,
                EncodingOptions::H264(H264EncodingOptions { rate_control: RateControlMode::Quality(DEFAULT_QUALITY) })
            );
        }
        _ => panic!("expected an acceptance"),
    }
}

#[test]
fn accept_response_keeps_what_was_asked_for() {
    let req = StreamRequest {
        preferred_mode: Some(Mode { width: 1280, height: 720, refresh_rate: 30 }),
        preferred_encoding: Some(Encoding::AV1),
        preferred_encoding_options: Some(EncodingOptions::H264(H264EncodingOptions {
            rate_control: RateControlMode::Bitrate(DEFAULT_BITRATE),
        })),
    };
    let (resp, _) = create_accept_response(&req, 1920, 1080, 144);
    match resp {
        StreamRequestResponse::Accept { mode, encoding, encoding_options } => {
            assert_eq!(mode, Mode { width: 1280, height: 720, refresh_rate: 30 });
            assert_eq!(encoding, Encoding::AV1);
            assert_eq!(
                encoding_options,
                EncodingOptions::H264(H264EncodingOptions { rate_control: RateControlMode::Bitrate(8_000_000) })
            );
        }
        _ => panic!("expected an acceptance"),
    }
}

#[test]
fn logic_channel_answers_pings() {
    assert!(matches!(on_logic_message(LogicMessage::Ping), LogicAction::Reply(LogicMessage::Pong)));
    assert!(matches!(on_logic_message(LogicMessage::Pong), LogicAction::Drop));
    assert!(matches!(
        on_logic_message(LogicMessage::StreamKeyframeRequest),
        LogicAction::Forward(LogicMessage::StreamKeyframeRequest)
    ));
    assert!(matches!(
        on_logic_message(LogicMessage::StreamRequest(StreamRequest::default())),
        LogicAction::Forward(LogicMessage::StreamRequest(r)) if r == StreamRequest::default()
    ));
}

#[test]
fn keyframes_stale_frames_and_sequence_headers() {
    assert_eq!(keyframe_from_clean_point(Some(1)), FrameIsKeyframe::Yes);
    assert_eq!(keyframe_from_clean_point(Some(0)), FrameIsKeyframe::No);
    assert_eq!(keyframe_from_clean_point(Some(2)), FrameIsKeyframe::Perhaps);
    assert_eq!(keyframe_from_clean_point(None), FrameIsKeyframe::Perhaps);
    assert!(carries_sequence_header(FrameIsKeyframe::Yes));
    assert!(!carries_sequence_header(FrameIsKeyframe::Perhaps));
    assert_eq!(MAX_FRAME_AGE, 10_000_000);
    assert!(!is_stale_frame(1_000, 1_000 + 10_000_000));
    assert!(is_stale_frame(1_000, 1_000 + 10_000_001));
    assert!(!is_stale_frame(5_000, 1_000));
}

#[test]
fn media_clock_runs_past_the_timestamp_bound() {
    let mut m = Media::new();
    let _ = m.frame(u64::MAX);
    assert_eq!(m.cur_time, (u64::MAX / 100) as i64);
}

#[test]
fn encoder_samples_become_video_buffers() {
    let key = encoded_video_buffer(vec![1, 2, 3], 17, 333_333, Some(1), Some(vec![9, 9]));
    assert_eq!(key.data, vec![1, 2, 3]);
    assert_eq!(key.time, 1_700);
    assert_eq!(key.duration, 33_333_300);
    assert_eq!(key.key_frame, FrameIsKeyframe::Yes);
    assert_eq!(key.sequence_header, Some(vec![9, 9]));
    let delta = encoded_video_buffer(vec![4], 18, 1, Some(0), Some(vec![9]));
    assert_eq!(delta.key_frame, FrameIsKeyframe::No);
    assert_eq!(delta.sequence_header, None);
    let unknown = encoded_video_buffer(vec![], 0, 0, None, None);
    assert_eq!(unknown.key_frame, FrameIsKeyframe::Perhaps);
    assert!(unknown.sequence_header.is_none());
}

#[test]
fn negative_stream_timestamps_are_taken() {
    let mut m = Media::new();
    m.set_video_timestamp(-5);
    m.set_audio_timestamp(-1);
    assert_eq!(m.frame(0), (true, true));
}
