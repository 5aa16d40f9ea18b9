//! Media as the rest of the program sees it: encodings and their options,
//! encoded video buffers, timing statistics, the description of a GPU
//! texture to create, the pacing clock of a file being played out, and
//! the byte queue that feeds the audio output.
use vstd::prelude::*;

verus! {

/// Video codecs a stream can use.
#[derive(Clone, Copy, Debug, PartialEq, Eq, Structural)]
pub enum Encoding {
    H264,
    H265,
    AV1,
    VP9,
}

/// How the H.264 encoder spends bits: a quality level (0 to 100) or a
/// target bitrate in bits per second.
#[derive(Clone, Copy, Debug, PartialEq, Eq, Structural)]
pub enum RateControlMode {
    Quality(u32),
    Bitrate(u32),
}

#[derive(Clone, Copy, Debug, PartialEq, Eq, Structural)]
pub struct H264EncodingOptions {
    pub rate_control: RateControlMode,
}

#[derive(Clone, Copy, Debug, PartialEq, Eq, Structural)]
pub struct H2565EncodingOptions {}

#[derive(Clone, Copy, Debug, PartialEq, Eq, Structural)]
pub struct AV1EncodingOptions {}

#[derive(Clone, Copy, Debug, PartialEq, Eq, Structural)]
pub struct VP9EncodingOptions {}

/// Per-codec encoder settings.
#[derive(Clone, Copy, Debug, PartialEq, Eq, Structural)]
pub enum EncodingOptions {
    H264(H264EncodingOptions),
    H265(H2565EncodingOptions),
    AV1(AV1EncodingOptions),
    VP9(VP9EncodingOptions),
}

/// Which encoder implementation produces a stream.
#[derive(Clone, Copy, Debug, PartialEq, Eq, Structural)]
pub enum Encoder {
    MediaFoundation,
}

/// The quality level a new H.264 stream starts with.
pub const DEFAULT_QUALITY: u32 = 70;

/// The bitrate offered when switching the H.264 rate control to bitrate.
pub const DEFAULT_BITRATE: u32 = 8000000;

pub open spec fn spec_default_options(encoding: Encoding) -> EncodingOptions {
    match encoding {
        Encoding::H264 => EncodingOptions::H264(
            H264EncodingOptions { rate_control: RateControlMode::Quality(DEFAULT_QUALITY) },
        ),
        Encoding::H265 => EncodingOptions::H265(H2565EncodingOptions {  }),
        Encoding::AV1 => EncodingOptions::AV1(AV1EncodingOptions {  }),
        Encoding::VP9 => EncodingOptions::VP9(VP9EncodingOptions {  }),
    }
}

/// The options a stream request switches to when its preferred encoding
/// changes: the codec's defaults, or none with no preferred encoding.
pub fn default_encoding_options(encoding: Option<Encoding>) -> (o: Option<EncodingOptions>)
    ensures
        o == (match encoding {
            Some(e) => Some(spec_default_options(e)),
            None => None,
        }),
        o matches Some(opts) ==> encoding_matches(encoding->0, opts),
{
    match encoding {
        Some(Encoding::H264) => Some(
            EncodingOptions::H264(
                H264EncodingOptions { rate_control: RateControlMode::Quality(DEFAULT_QUALITY) },
            ),
        ),
        Some(Encoding::AV1) => Some(EncodingOptions::AV1(AV1EncodingOptions {  })),
        Some(Encoding::H265) => Some(EncodingOptions::H265(H2565EncodingOptions {  })),
        Some(Encoding::VP9) => Some(EncodingOptions::VP9(VP9EncodingOptions {  })),
        None => None,
    }
}

/// Whether the options are those of the given codec.
pub open spec fn encoding_matches(e: Encoding, o: EncodingOptions) -> bool {
    match (e, o) {
        (Encoding::H264, EncodingOptions::H264(_)) => true,
        (Encoding::H265, EncodingOptions::H265(_)) => true,
        (Encoding::AV1, EncodingOptions::AV1(_)) => true,
        (Encoding::VP9, EncodingOptions::VP9(_)) => true,
        _ => false,
    }
}

/// Whether an encoded frame is a key frame, as far as the encoder knows.
#[derive(Clone, Copy, Debug, PartialEq, Eq, Structural)]
pub enum FrameIsKeyframe {
    Yes,
    No,
    Perhaps,
}

/// What the encoder's clean-point flag says of a frame: 1 is a key frame,
/// 0 is not, anything else (or no flag) leaves it open.
pub fn keyframe_from_clean_point(clean_point: Option<u32>) -> (k: FrameIsKeyframe)
    ensures
        k == spec_keyframe(clean_point),
{
    match clean_point {
        Some(1) => FrameIsKeyframe::Yes,
        Some(0) => FrameIsKeyframe::No,
        _ => FrameIsKeyframe::Perhaps,
    }
}

/// Only key frames carry the codec's sequence header.
pub fn carries_sequence_header(k: FrameIsKeyframe) -> (r: bool)
    ensures
        r == (k == FrameIsKeyframe::Yes),
{
    match k {
        FrameIsKeyframe::Yes => true,
        _ => false,
    }
}

/// How old (in nanoseconds) a captured frame may be when it reaches the
/// colour converter: 10 ms.
pub const MAX_FRAME_AGE: u64 = 10000000;

/// Whether a frame captured at `capture` (nanoseconds since the Unix
/// epoch) is thrown away at clock reading `now`: it is more than
/// [`MAX_FRAME_AGE`] in the past. A capture time after `now` is not.
pub fn is_stale_frame(capture: u64, now: u64) -> (r: bool)
    ensures
        r == (capture <= now && now - capture > MAX_FRAME_AGE),
{
    capture <= now && now - capture > MAX_FRAME_AGE
}

/// One encoded video frame. Times are nanoseconds: `time` since the Unix
/// epoch (the capture time), `duration` the frame's length.
#[derive(Clone, Debug)]
pub struct VideoBuffer {
    pub data: Vec<u8>,
    pub sequence_header: Option<Vec<u8>>,
    pub time: u64,
    pub duration: u64,
    pub key_frame: FrameIsKeyframe,
}

pub open spec fn spec_keyframe(clean_point: Option<u32>) -> FrameIsKeyframe {
    match clean_point {
        Some(1) => FrameIsKeyframe::Yes,
        Some(0) => FrameIsKeyframe::No,
        _ => FrameIsKeyframe::Perhaps,
    }
}

pub open spec fn opt_bytes(o: Option<Vec<u8>>) -> Option<Seq<u8>> {
    match o {
        Some(v) => Some(v@),
        None => None,
    }
}

/// The video buffer for one output sample of the encoder: `data` are its
/// bytes, `decode_timestamp` and `sample_duration` its decode time since
/// the Unix epoch and its length, both in 100 ns units, `clean_point` its
/// clean-point flag, and `header` the sequence header of the encoder's
/// output type, where it was read. The buffer keeps the bytes, gives the
/// times in nanoseconds, and carries the header only for a key frame.
pub fn encoded_video_buffer(
    data: Vec<u8>,
    decode_timestamp: u64,
    sample_duration: u64,
    clean_point: Option<u32>,
    header: Option<Vec<u8>>,
) -> (v: VideoBuffer)
    requires
        decode_timestamp * 100 <= u64::MAX,
        sample_duration * 100 <= u64::MAX,
    ensures
        v.data@ == data@,
        v.time == decode_timestamp * 100,
        v.duration == sample_duration * 100,
        v.key_frame == spec_keyframe(clean_point),
        opt_bytes(v.sequence_header) == (if v.key_frame == FrameIsKeyframe::Yes {
            opt_bytes(header)
        } else {
            None
        }),
{
    let key_frame = keyframe_from_clean_point(clean_point);
    let sequence_header = if carries_sequence_header(key_frame) {
        header
    } else {
        None
    };
    VideoBuffer {
        data,
        sequence_header,
        time: decode_timestamp * 100,
        duration: sample_duration * 100,
        key_frame,
    }
}

/// Timing of one pipeline stage for one frame, in nanoseconds.
#[derive(Clone, Copy, Debug, PartialEq, Eq, Structural)]
pub struct StageStatistics {
    pub time: u64,
    pub media_queue_len: usize,
    pub start_time: u64,
    pub end_time: u64,
}

/// Timings of the stages a frame went through.
#[derive(Clone, Copy, Debug, PartialEq, Eq, Structural)]
pub struct Statistics {
    pub encode: Option<StageStatistics>,
    pub decode: Option<StageStatistics>,
    pub convert: Option<StageStatistics>,
}

// ---------------------------------------------------------------------------
// Texture descriptions
// ---------------------------------------------------------------------------

#[derive(Clone, Copy, Debug, PartialEq, Eq, Structural)]
pub enum TextureFormat {
    NV12,
    BGRA,
}

#[derive(Clone, Copy, Debug, PartialEq, Eq, Structural)]
pub enum TextureUsage {
    Staging,
}

#[derive(Clone, Copy, Debug, PartialEq, Eq, Structural)]
pub enum TextureCPUAccess {
    Write,
    Read,
}

/// `D3D11_BIND_SHADER_RESOURCE`.
pub const BIND_SHADER_RESOURCE: u32 = 0x8;

/// `D3D11_BIND_RENDER_TARGET`.
pub const BIND_RENDER_TARGET: u32 = 0x20;

/// `D3D11_RESOURCE_MISC_SHARED_KEYEDMUTEX`.
pub const MISC_SHARED_KEYEDMUTEX: u32 = 0x100;

/// `D3D11_RESOURCE_MISC_SHARED_NTHANDLE`.
pub const MISC_SHARED_NTHANDLE: u32 = 0x800;

/// `D3D11_USAGE_DEFAULT`.
pub const USAGE_DEFAULT: u32 = 0;

/// `D3D11_USAGE_STAGING`.
pub const USAGE_STAGING: u32 = 3;

/// `D3D11_CPU_ACCESS_WRITE`.
pub const CPU_ACCESS_WRITE: u32 = 0x10000;

/// `D3D11_CPU_ACCESS_READ`.
pub const CPU_ACCESS_READ: u32 = 0x20000;

/// A 2D texture description as a [`TextureBuilder`] fills it in: one mip
/// level, one array slice and one sample (quality 0) always.
#[derive(Clone, Copy, Debug, PartialEq, Eq, Structural)]
pub struct TextureDescription {
    pub width: u32,
    pub height: u32,
    pub mip_levels: u32,
    pub array_size: u32,
    pub format: TextureFormat,
    /// The `DXGI_FORMAT` code of `format`.
    pub dxgi_format: u32,
    pub sample_count: u32,
    pub sample_quality: u32,
    pub usage: u32,
    pub bind_flags: u32,
    pub cpu_access_flags: u32,
    pub misc_flags: u32,
}

/// Collects what a texture is to be used for; the device that creates it
/// is supplied where it is built.
#[derive(Clone, Copy, Debug, PartialEq, Eq, Structural)]
pub struct TextureBuilder {
    pub keyed_mutex: bool,
    pub nt_handle: bool,
    pub bind_shader_resource: bool,
    pub bind_render_target: bool,
    pub bind_unordered_access: bool,
    pub width: u32,
    pub height: u32,
    pub format: TextureFormat,
    pub usage: Option<TextureUsage>,
    pub cpu_access: Option<TextureCPUAccess>,
}

/// `DXGI_FORMAT_NV12`.
pub const DXGI_FORMAT_NV12: u32 = 103;

/// `DXGI_FORMAT_B8G8R8A8_UNORM`.
pub const DXGI_FORMAT_B8G8R8A8_UNORM: u32 = 87;

pub open spec fn spec_dxgi_format(f: TextureFormat) -> u32 {
    match f {
        TextureFormat::NV12 => DXGI_FORMAT_NV12,
        TextureFormat::BGRA => DXGI_FORMAT_B8G8R8A8_UNORM,
    }
}

/// The `DXGI_FORMAT` code a texture format is created with.
pub fn dxgi_format(f: TextureFormat) -> (code: u32)
    ensures
        code == spec_dxgi_format(f),
{
    match f {
        TextureFormat::NV12 => DXGI_FORMAT_NV12,
        TextureFormat::BGRA => DXGI_FORMAT_B8G8R8A8_UNORM,
    }
}

pub open spec fn spec_bind_flags(b: TextureBuilder) -> u32 {
    (if b.bind_shader_resource { BIND_SHADER_RESOURCE } else { 0u32 }) | (if b.bind_render_target {
        BIND_RENDER_TARGET
    } else {
        0u32
    })
}

pub open spec fn spec_misc_flags(b: TextureBuilder) -> u32 {
    (if b.keyed_mutex { MISC_SHARED_KEYEDMUTEX } else { 0u32 }) | (if b.nt_handle {
        MISC_SHARED_NTHANDLE
    } else {
        0u32
    })
}

pub open spec fn spec_usage(u: Option<TextureUsage>) -> u32 {
    match u {
        Some(TextureUsage::Staging) => USAGE_STAGING,
        None => USAGE_DEFAULT,
    }
}

pub open spec fn spec_cpu_access(c: Option<TextureCPUAccess>) -> u32 {
    match c {
        Some(TextureCPUAccess::Read) => CPU_ACCESS_READ,
        Some(TextureCPUAccess::Write) => CPU_ACCESS_WRITE,
        None => 0,
    }
}

impl TextureBuilder {
    pub fn new(width: u32, height: u32, format: TextureFormat) -> (b: TextureBuilder)
        ensures
            b == (TextureBuilder {
                keyed_mutex: false,
                nt_handle: false,
                bind_shader_resource: false,
                bind_render_target: false,
                bind_unordered_access: false,
                width,
                height,
                format,
                usage: None,
                cpu_access: None,
            }),
    {
        TextureBuilder {
            bind_shader_resource: false,
            keyed_mutex: false,
            nt_handle: false,
            bind_render_target: false,
            bind_unordered_access: false,
            width,
            height,
            format,
            usage: None,
            cpu_access: None,
        }
    }

    pub fn bind_render_target(self) -> (b: TextureBuilder)
        ensures
            b == (TextureBuilder { bind_render_target: true, ..self }),
    {
        TextureBuilder { bind_render_target: true, ..self }
    }

    pub fn keyed_mutex(self) -> (b: TextureBuilder)
        ensures
            b == (TextureBuilder { keyed_mutex: true, ..self }),
    {
        TextureBuilder { keyed_mutex: true, ..self }
    }

    pub fn nt_handle(self) -> (b: TextureBuilder)
        ensures
            b == (TextureBuilder { nt_handle: true, ..self }),
    {
        TextureBuilder { nt_handle: true, ..self }
    }

    pub fn bind_shader_resource(self) -> (b: TextureBuilder)
        ensures
            b == (TextureBuilder { bind_shader_resource: true, ..self }),
    {
        TextureBuilder { bind_shader_resource: true, ..self }
    }

    pub fn usage(self, usage: TextureUsage) -> (b: TextureBuilder)
        ensures
            b == (TextureBuilder { usage: Some(usage), ..self }),
    {
        TextureBuilder { usage: Some(usage), ..self }
    }

    pub fn cpu_access(self, cpu_access: TextureCPUAccess) -> (b: TextureBuilder)
        ensures
            b == (TextureBuilder { cpu_access: Some(cpu_access), ..self }),
    {
        TextureBuilder { cpu_access: Some(cpu_access), ..self }
    }

    /// The description the texture is created from.
    pub fn description(&self) -> (d: TextureDescription)
        ensures
            d == (TextureDescription {
                width: self.width,
                height: self.height,
                mip_levels: 1,
                array_size: 1,
                format: self.format,
                dxgi_format: spec_dxgi_format(self.format),
                sample_count: 1,
                sample_quality: 0,
                usage: spec_usage(self.usage),
                bind_flags: spec_bind_flags(*self),
                cpu_access_flags: spec_cpu_access(self.cpu_access),
                misc_flags: spec_misc_flags(*self),
            }),
    {
        let bind_flags: u32 = (if self.bind_shader_resource {
            BIND_SHADER_RESOURCE
        } else {
            0
        }) | (if self.bind_render_target {
            BIND_RENDER_TARGET
        } else {
            0
        });
        let misc_flags: u32 = (if self.keyed_mutex {
            MISC_SHARED_KEYEDMUTEX
        } else {
            0
        }) | (if self.nt_handle {
            MISC_SHARED_NTHANDLE
        } else {
            0
        });
        let usage: u32 = match self.usage {
            Some(TextureUsage::Staging) => USAGE_STAGING,
            None => USAGE_DEFAULT,
        };
        let cpu_access_flags: u32 = match self.cpu_access {
            Some(TextureCPUAccess::Read) => CPU_ACCESS_READ,
            Some(TextureCPUAccess::Write) => CPU_ACCESS_WRITE,
            None => 0,
        };
        TextureDescription {
            width: self.width,
            height: self.height,
            mip_levels: 1,
            array_size: 1,
            format: self.format,
            dxgi_format: dxgi_format(self.format),
            sample_count: 1,
            sample_quality: 0,
            usage,
            bind_flags,
            cpu_access_flags,
            misc_flags,
        }
    }
}

// ---------------------------------------------------------------------------
// Playing out a file
// ---------------------------------------------------------------------------

/// Largest stream timestamp (in 100 ns units) the next deadline can be
/// computed for: about 584 years, so that it fits in a `u64` as
/// nanoseconds.
pub const MAX_MEDIA_TIME: i64 = 184467440737095516;

/// Pacing of a file being played out. Times are in 100 ns units from the
/// start of playback.
pub struct Media {
    pub cur_time: i64,
    /// Time of the next video frame.
    pub video_timestamp: i64,
    /// Time of the next audio sample.
    pub audio_timestamp: i64,
}

/// Whether a stream whose next item is at `timestamp` is due at `cur_time`.
pub open spec fn is_due(cur_time: i64, timestamp: i64) -> bool {
    cur_time >= timestamp
}

pub open spec fn min_i64(a: i64, b: i64) -> i64 {
    if a <= b {
        a
    } else {
        b
    }
}

impl Media {
    pub open spec fn valid(&self) -> bool {
        &&& 0 <= self.cur_time
    }

    /// Playback starts at time zero with both streams due.
    pub fn new() -> (m: Media)
        ensures
            m.cur_time == 0,
            m.video_timestamp == 0,
            m.audio_timestamp == 0,
            m.valid(),
    {
        Media { cur_time: 0, video_timestamp: 0, audio_timestamp: 0 }
    }

    /// Advances the clock by `elapsed` nanoseconds and says which streams
    /// are due: (video, audio).
    pub fn frame(&mut self, elapsed: u64) -> (due: (bool, bool))
        requires
            old(self).valid(),
            old(self).cur_time + elapsed / 100 <= i64::MAX,
        ensures
            final(self).cur_time == old(self).cur_time + elapsed / 100,
            final(self).video_timestamp == old(self).video_timestamp,
            final(self).audio_timestamp == old(self).audio_timestamp,
            final(self).valid(),
            due == (
                is_due(final(self).cur_time, final(self).video_timestamp),
                is_due(final(self).cur_time, final(self).audio_timestamp),
            ),
    {
        let step = (elapsed / 100) as i64;
        self.cur_time = self.cur_time + step;
        (self.cur_time >= self.video_timestamp, self.cur_time >= self.audio_timestamp)
    }

    /// Records the time of the next video frame, as the file reports it.
    pub fn set_video_timestamp(&mut self, t: i64)
        requires
            old(self).valid(),
        ensures
            final(self).video_timestamp == t,
            final(self).cur_time == old(self).cur_time,
            final(self).audio_timestamp == old(self).audio_timestamp,
            final(self).valid(),
    {
        self.video_timestamp = t;
    }

    /// Records the time of the next audio sample, as the resampler reports it.
    pub fn set_audio_timestamp(&mut self, t: i64)
        requires
            old(self).valid(),
        ensures
            final(self).audio_timestamp == t,
            final(self).cur_time == old(self).cur_time,
            final(self).video_timestamp == old(self).video_timestamp,
            final(self).valid(),
    {
        self.audio_timestamp = t;
    }

    /// How long after the start of playback (in nanoseconds) the next
    /// frame is due: the earlier of the two streams.
    pub fn next_deadline_offset(&self) -> (ns: u64)
        requires
            self.valid(),
            0 <= self.video_timestamp <= MAX_MEDIA_TIME,
            0 <= self.audio_timestamp <= MAX_MEDIA_TIME,
        ensures
            ns == min_i64(self.audio_timestamp, self.video_timestamp) * 100,
    {
        let a = (self.audio_timestamp as u64) * 100;
        let v = (self.video_timestamp as u64) * 100;
        if a <= v {
            a
        } else {
            v
        }
    }
}

// ---------------------------------------------------------------------------
// Audio output queue
// ---------------------------------------------------------------------------

/// The 16-bit little-endian sample in two bytes.
pub open spec fn sample_of(lo: u8, hi: u8) -> i16 {
    let u = lo as int + 256 * (hi as int);
    (if u < 32768 {
        u
    } else {
        u - 65536
    }) as i16
}

/// PCM bytes waiting to be played; two bytes make one sample.
pub struct SampleQueue {
    bytes: Vec<u8>,
    head: usize,
}

impl View for SampleQueue {
    type V = Seq<u8>;

    closed spec fn view(&self) -> Seq<u8> {
        self.bytes@.skip(self.head as int)
    }
}

impl SampleQueue {
    /// The read position never passes the end of the bytes.
    #[verifier::type_invariant]
    spec fn inv(&self) -> bool {
        self.head <= self.bytes@.len()
    }

    pub fn new() -> (q: SampleQueue)
        ensures
            q@ == Seq::<u8>::empty(),
    {
        SampleQueue { bytes: Vec::new(), head: 0 }
    }

    /// Appends received bytes at the back.
    pub fn extend(&mut self, data: &[u8])
        ensures
            final(self)@ == old(self)@ + data@,
    {
        proof {
            use_type_invariant(&*self);
        }
        let ghost before = self@;
        let h = self.head;
        let ghost orig = self.bytes@;
        self.head = 0;
        let mut bytes: Vec<u8> = Vec::new();
        std::mem::swap(&mut bytes, &mut self.bytes);
        let mut i: usize = 0;
        while i < data.len()
            invariant
                h <= orig.len(),
                i <= data@.len(),
                bytes@ == orig + data@.take(i as int),
                before == orig.skip(h as int),
            decreases data.len() - i,
        {
            bytes.push(data[i]);
            i = i + 1;
            assert(bytes@ =~= orig + data@.take(i as int));
        }
        self.bytes = bytes;
        self.head = h;
        assert(self@ =~= before + data@.take(i as int));
        assert(data@.take(i as int) =~= data@);
    }

    /// Number of bytes waiting.
    pub fn len(&self) -> (n: usize)
        ensures
            n == self@.len(),
    {
        proof {
            use_type_invariant(self);
        }
        self.bytes.len() - self.head
    }

    /// The next sample: the first two bytes as a little-endian `i16`, or
    /// silence (zero, consuming nothing) when fewer than two are waiting.
    pub fn next_sample(&mut self) -> (s: i16)
        ensures
            old(self)@.len() >= 2 ==> s == sample_of(old(self)@[0], old(self)@[1])
                && final(self)@ == old(self)@.skip(2),
            old(self)@.len() < 2 ==> s == 0 && final(self)@ == old(self)@,
    {
        proof {
            use_type_invariant(&*self);
        }
        if self.bytes.len() - self.head >= 2 {
            let lo = self.bytes[self.head];
            let hi = self.bytes[self.head + 1];
            self.head = self.head + 2;
            let u: u16 = (lo as u16) + 256 * (hi as u16);
            let s: i16 = if u < 32768 {
                u as i16
            } else {
                (u as i32 - 65536) as i16
            };
            assert(self@ =~= old(self)@.skip(2));
            s
        } else {
            0
        }
    }
}

} // verus!
