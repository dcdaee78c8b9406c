//! From encode parameters to the configuration that the codec runs one
//! segment with.
//!
//! The configuration is kept as plain values so that it can be inspected,
//! sent to a remote worker and compared; the embedding program turns it into
//! the codec's own configuration object right before encoding.

use crate::framing::{
    framed, lemma_frame_round_trip, lemma_truncated_frame_rejected, parse_frame,
    read_summary_frame, ConfigError,
};
use crate::video::{ChromaSamplePosition, ChromaSampling, Rational, VideoDetails};
use vstd::prelude::*;

verus! {

/// Number of codec-internal threads. Parallelism comes from running many
/// segments at once, never from inside the codec.
pub const CODEC_THREADS: usize = 1;

/// Number of tiles per frame.
pub const TILES: usize = 1;

/// Smallest reservoir frame delay used in bitrate mode.
pub const MIN_RESERVOIR_FRAME_DELAY: i32 = 12;

/// Minimum keyframe interval: none is enforced inside a segment.
pub const MIN_KEY_FRAME_INTERVAL: u64 = 0;

/// Maximum keyframe interval: the largest one the configuration can carry.
pub const MAX_KEY_FRAME_INTERVAL: u64 = 65535;

/// Highest speed preset the codec distinguishes.
pub const FASTEST_PRESET: u8 = 10;

/// Lowest speed that a first pass runs at.
pub const FIRST_PASS_MIN_SPEED: usize = 9;

/// What the codec's speed preset leaves in the fields that the builders
/// only sometimes write.
#[derive(Debug, Clone, Copy, PartialEq, Eq, Structural)]
pub struct PresetDefaults {
    pub quantizer: usize,
    pub min_quantizer: u8,
    pub bitrate: i32,
    pub reservoir_frame_delay: Option<i32>,
    pub cdef: bool,
    pub lrf: bool,
}

/// Encoder settings for one segment.
#[derive(Debug, Clone, Copy, PartialEq, Eq, Structural)]
pub struct EncoderSettings {
    /// Speed preset that every setting not listed here is taken from.
    pub speed: usize,
    pub width: usize,
    pub height: usize,
    pub bit_depth: usize,
    pub chroma_sampling: ChromaSampling,
    pub chroma_sample_position: ChromaSamplePosition,
    pub time_base: Rational,
    /// Base quantizer of constant-quality mode.
    pub quantizer: usize,
    /// Lowest quantizer that bitrate mode may use.
    pub min_quantizer: u8,
    /// Target bitrate of bitrate mode.
    pub bitrate: i32,
    /// Number of frames over which bitrate mode smooths the rate.
    pub reservoir_frame_delay: Option<i32>,
    pub tiles: usize,
    pub min_key_frame_interval: u64,
    pub max_key_frame_interval: u64,
    /// Whether the codec looks for scene changes itself.
    pub scene_detection: bool,
    /// Whether the constrained directional enhancement filter runs.
    pub cdef: bool,
    /// Whether the loop restoration filter runs.
    pub lrf: bool,
}

/// How the codec's rate control relates to a two-pass encode.
#[derive(Debug, Clone, PartialEq, Eq)]
pub enum RateControl {
    /// One pass; nothing is emitted and nothing is consumed.
    SinglePass,
    /// First pass: the codec emits summary statistics.
    EmitPassData,
    /// Second pass: the codec continues from this first-pass summary.
    Summary(Vec<u8>),
}

/// The mathematical value of a [`RateControl`].
pub enum RateControlView {
    SinglePass,
    EmitPassData,
    Summary(Seq<u8>),
}

impl View for RateControl {
    type V = RateControlView;

    open spec fn view(&self) -> RateControlView {
        match self {
            RateControl::SinglePass => RateControlView::SinglePass,
            RateControl::EmitPassData => RateControlView::EmitPassData,
            RateControl::Summary(bytes) => RateControlView::Summary(bytes@),
        }
    }
}

/// Everything the codec is configured with for one segment.
#[derive(Debug, Clone, PartialEq, Eq)]
pub struct CodecConfig {
    pub threads: usize,
    pub encoder: EncoderSettings,
    pub rate_control: RateControl,
}

/// The mathematical value of a [`CodecConfig`].
pub struct CodecConfigView {
    pub threads: usize,
    pub encoder: EncoderSettings,
    pub rate_control: RateControlView,
}

impl View for CodecConfig {
    type V = CodecConfigView;

    open spec fn view(&self) -> CodecConfigView {
        CodecConfigView {
            threads: self.threads,
            encoder: self.encoder,
            rate_control: self.rate_control@,
        }
    }
}

/// The preset number that the codec is asked for at `speed`: speeds above
/// the fastest preset select the fastest preset.
pub open spec fn preset_of(speed: usize) -> u8 {
    if speed > FASTEST_PRESET {
        FASTEST_PRESET
    } else {
        speed as u8
    }
}

/// The defaults that the codec's preset `preset` carries.
pub open spec fn codec_defaults(preset: u8) -> PresetDefaults {
    PresetDefaults {
        quantizer: 100,
        min_quantizer: 0,
        bitrate: 0,
        reservoir_frame_delay: None,
        cdef: true,
        lrf: preset < 8,
    }
}

/// The low 32 bits of `n`, read as a signed two's complement number.
pub open spec fn wrapped_i32(n: int) -> int {
    let low = n % 0x1_0000_0000;
    if low < 0x8000_0000 {
        low
    } else {
        low - 0x1_0000_0000
    }
}

/// The reservoir frame delay for segments of `segment_len` frames: the
/// segment length, but never less than twelve frames.
pub open spec fn reservoir_delay(segment_len: usize) -> i32 {
    if wrapped_i32(segment_len as int) < MIN_RESERVOIR_FRAME_DELAY {
        MIN_RESERVOIR_FRAME_DELAY
    } else {
        wrapped_i32(segment_len as int) as i32
    }
}

/// The settings that every pass starts from.
///
/// With a maximum bitrate the codec runs in bitrate mode: `qp` (its low
/// eight bits) becomes the quantizer floor and the base quantizer keeps the
/// preset's default. Without one it runs at the fixed quantizer `qp` and the
/// bitrate fields keep the preset's defaults.
pub open spec fn base_settings(
    speed: usize,
    qp: usize,
    max_bitrate: Option<i32>,
    video_info: VideoDetails,
    segment_len: usize,
) -> EncoderSettings {
    let defaults = codec_defaults(preset_of(speed));
    EncoderSettings {
        speed,
        width: video_info.width,
        height: video_info.height,
        bit_depth: video_info.bit_depth,
        chroma_sampling: video_info.chroma_sampling,
        chroma_sample_position: video_info.chroma_sample_position,
        time_base: video_info.time_base,
        quantizer: if max_bitrate is Some {
            defaults.quantizer
        } else {
            qp
        },
        min_quantizer: if max_bitrate is Some {
            (qp % 256) as u8
        } else {
            defaults.min_quantizer
        },
        bitrate: match max_bitrate {
            Some(bitrate) => bitrate,
            None => defaults.bitrate,
        },
        reservoir_frame_delay: if max_bitrate is Some {
            Some(reservoir_delay(segment_len))
        } else {
            defaults.reservoir_frame_delay
        },
        tiles: TILES,
        min_key_frame_interval: MIN_KEY_FRAME_INTERVAL,
        max_key_frame_interval: MAX_KEY_FRAME_INTERVAL,
        scene_detection: false,
        cdef: defaults.cdef,
        lrf: defaults.lrf,
    }
}

/// The speed a first pass runs at when `speed` was asked for.
pub open spec fn first_pass_speed(speed: usize) -> usize {
    if speed < FIRST_PASS_MIN_SPEED {
        FIRST_PASS_MIN_SPEED
    } else {
        speed
    }
}

/// The settings of a first pass: the base settings at the first-pass speed
/// with both in-loop filters switched off.
pub open spec fn first_pass_settings(
    speed: usize,
    qp: usize,
    max_bitrate: Option<i32>,
    video_info: VideoDetails,
    segment_len: usize,
) -> EncoderSettings {
    EncoderSettings {
        cdef: false,
        lrf: false,
        ..base_settings(first_pass_speed(speed), qp, max_bitrate, video_info, segment_len)
    }
}

/// The configuration of a first pass.
pub open spec fn first_pass_config(
    speed: usize,
    qp: usize,
    max_bitrate: Option<i32>,
    video_info: VideoDetails,
    segment_len: usize,
) -> CodecConfigView {
    CodecConfigView {
        threads: CODEC_THREADS,
        encoder: first_pass_settings(speed, qp, max_bitrate, video_info, segment_len),
        rate_control: RateControlView::EmitPassData,
    }
}

/// The configuration of a pass that consumes no first-pass data.
pub open spec fn single_pass_config(encoder: EncoderSettings) -> CodecConfigView {
    CodecConfigView {
        threads: CODEC_THREADS,
        encoder,
        rate_control: RateControlView::SinglePass,
    }
}

/// The outcome of attaching a first-pass summary to `encoder`, given
/// whether the codec accepts the summary.
pub open spec fn second_pass_outcome(
    encoder: EncoderSettings,
    summary: Seq<u8>,
    accepted: bool,
) -> Result<CodecConfigView, ConfigError> {
    if accepted {
        Ok(
            CodecConfigView {
                threads: CODEC_THREADS,
                encoder,
                rate_control: RateControlView::Summary(summary),
            },
        )
    } else {
        Err(ConfigError::InvalidSummary)
    }
}

/// The outcome of building a configuration from `first_pass_data`.
///
/// Without first-pass data the result is a single-pass configuration. With
/// it, the data must hold one intact frame whose payload the codec accepts
/// as a summary.
pub open spec fn encoder_config_outcome(
    encoder: EncoderSettings,
    first_pass_data: Option<Seq<u8>>,
) -> Result<CodecConfigView, ConfigError> {
    match first_pass_data {
        None => Ok(single_pass_config(encoder)),
        Some(bytes) => match parse_frame(bytes) {
            Err(e) => Err(e),
            Ok(summary) => second_pass_outcome(encoder, summary, summary_accepted(summary)),
        },
    }
}

/// Whether the codec accepts `bytes` as the summary of a first pass.
pub uninterp spec fn summary_accepted(bytes: Seq<u8>) -> bool;

/// Asks the codec whether it accepts `bytes` as a first-pass summary, by
/// calling rav1e's `RateControlConfig::from_summary_slice` and reporting
/// whether it returned `Ok`. The answer depends on the bytes alone; the
/// contract gives it a name and claims nothing else about it.
#[verifier::external_body]
fn summary_is_accepted(bytes: &[u8]) -> (accepted: bool)
    ensures
        accepted == summary_accepted(bytes@),
{
    rav1e::config::RateControlConfig::from_summary_slice(bytes).is_ok()
}

/// Reads the defaults of preset `preset` out of rav1e's
/// `EncoderConfig::with_speed_preset`. The contract claims what that
/// constructor writes into the six fields: a base quantizer of 100, a
/// quantizer floor and a bitrate of 0, no reservoir frame delay, the
/// directional enhancement filter on, and loop restoration on below
/// preset 8.
#[verifier::external_body]
fn preset_defaults(preset: u8) -> (defaults: PresetDefaults)
    ensures
        defaults == codec_defaults(preset),
{
    let config = rav1e::config::EncoderConfig::with_speed_preset(preset);
    PresetDefaults {
        quantizer: config.quantizer,
        min_quantizer: config.min_quantizer,
        bitrate: config.bitrate,
        reservoir_frame_delay: config.reservoir_frame_delay,
        cdef: config.speed_settings.cdef,
        lrf: config.speed_settings.lrf,
    }
}

/// The codec preset to ask for at `speed`.
pub fn speed_preset(speed: usize) -> (preset: u8)
    ensures
        preset == preset_of(speed),
{
    if speed > FASTEST_PRESET as usize {
        FASTEST_PRESET
    } else {
        speed as u8
    }
}

/// The low 32 bits of `n` as a signed number.
fn wrap_to_i32(n: usize) -> (wrapped: i32)
    ensures
        wrapped == wrapped_i32(n as int),
{
    let low: u64 = (n as u64) % 0x1_0000_0000;
    if low < 0x8000_0000 {
        low as i32
    } else {
        (low as i64 - 0x1_0000_0000) as i32
    }
}

/// Builds the encoder settings shared by every pass.
///
/// The video description is copied in, the codec is held to one tile, no
/// keyframe interval of its own and no scene detection, and the rate fields
/// are set for bitrate mode when `max_bitrate` is given and for
/// constant-quality mode otherwise.
pub fn build_base_encoder_config(
    speed: usize,
    qp: usize,
    max_bitrate: Option<i32>,
    video_info: VideoDetails,
    segment_len: usize,
) -> (settings: EncoderSettings)
    ensures
        settings == base_settings(speed, qp, max_bitrate, video_info, segment_len),
{
    let defaults = preset_defaults(speed_preset(speed));
    let mut settings = EncoderSettings {
        speed,
        width: video_info.width,
        height: video_info.height,
        bit_depth: video_info.bit_depth,
        chroma_sampling: video_info.chroma_sampling,
        chroma_sample_position: video_info.chroma_sample_position,
        time_base: video_info.time_base,
        quantizer: defaults.quantizer,
        min_quantizer: defaults.min_quantizer,
        bitrate: defaults.bitrate,
        reservoir_frame_delay: defaults.reservoir_frame_delay,
        tiles: TILES,
        min_key_frame_interval: MIN_KEY_FRAME_INTERVAL,
        max_key_frame_interval: MAX_KEY_FRAME_INTERVAL,
        scene_detection: false,
        cdef: defaults.cdef,
        lrf: defaults.lrf,
    };
    match max_bitrate {
        Some(bitrate) => {
            let delay = wrap_to_i32(segment_len);
            settings.min_quantizer = (qp % 256) as u8;
            settings.bitrate = bitrate;
            settings.reservoir_frame_delay = Some(
                if delay < MIN_RESERVOIR_FRAME_DELAY {
                    MIN_RESERVOIR_FRAME_DELAY
                } else {
                    delay
                },
            );
        },
        None => {
            settings.quantizer = qp;
        },
    }
    settings
}

/// Builds the configuration of a first pass: as fast as the codec goes,
/// without the two in-loop filters whose output nobody looks at, and with
/// the rate control emitting summary statistics.
pub fn build_first_pass_encoder_config(
    speed: usize,
    qp: usize,
    max_bitrate: Option<i32>,
    video_info: VideoDetails,
    segment_len: usize,
) -> (config: CodecConfig)
    ensures
        config@ == first_pass_config(speed, qp, max_bitrate, video_info, segment_len),
{
    let fast = if speed < FIRST_PASS_MIN_SPEED {
        FIRST_PASS_MIN_SPEED
    } else {
        speed
    };
    let mut settings = build_base_encoder_config(fast, qp, max_bitrate, video_info, segment_len);
    settings.cdef = false;
    settings.lrf = false;
    CodecConfig {
        threads: CODEC_THREADS,
        encoder: settings,
        rate_control: RateControl::EmitPassData,
    }
}

/// Attaches a first-pass summary to `encoder`, once the codec has said
/// whether it accepts the summary.
pub fn second_pass_config(encoder: EncoderSettings, summary: Vec<u8>, accepted: bool) -> (result:
    Result<CodecConfig, ConfigError>)
    ensures
        match result {
            Ok(config) => second_pass_outcome(encoder, summary@, accepted) == Ok::<
                CodecConfigView,
                ConfigError,
            >(config@),
            Err(e) => second_pass_outcome(encoder, summary@, accepted) == Err::<
                CodecConfigView,
                ConfigError,
            >(e),
        },
{
    if accepted {
        Ok(
            CodecConfig {
                threads: CODEC_THREADS,
                encoder,
                rate_control: RateControl::Summary(summary),
            },
        )
    } else {
        Err(ConfigError::InvalidSummary)
    }
}

/// Builds the configuration for encoding one segment.
///
/// `first_pass_data`, when given, starts with one framed first-pass
/// summary. The frame is read, the codec is asked whether it accepts the
/// summary, and the summary is attached so that the second pass repeats the
/// bit allocation the first pass decided on. A short prefix, a short
/// summary and a summary the codec rejects each fail with their own error.
pub fn build_encoder_config(
    speed: usize,
    qp: usize,
    max_bitrate: Option<i32>,
    video_info: VideoDetails,
    segment_len: usize,
    first_pass_data: Option<&[u8]>,
) -> (result: Result<CodecConfig, ConfigError>)
    ensures
        match result {
            Ok(config) => encoder_config_outcome(
                base_settings(speed, qp, max_bitrate, video_info, segment_len),
                first_pass_view(first_pass_data),
            ) == Ok::<CodecConfigView, ConfigError>(config@),
            Err(e) => encoder_config_outcome(
                base_settings(speed, qp, max_bitrate, video_info, segment_len),
                first_pass_view(first_pass_data),
            ) == Err::<CodecConfigView, ConfigError>(e),
        },
{
    let encoder = build_base_encoder_config(speed, qp, max_bitrate, video_info, segment_len);
    match first_pass_data {
        None => Ok(
            CodecConfig {
                threads: CODEC_THREADS,
                encoder,
                rate_control: RateControl::SinglePass,
            },
        ),
        Some(bytes) => match read_summary_frame(bytes) {
            Err(e) => Err(e),
            Ok(summary) => {
                let accepted = summary_is_accepted(summary.as_slice());
                second_pass_config(encoder, summary, accepted)
            },
        },
    }
}

/// The bytes behind optional first-pass data.
pub open spec fn first_pass_view(first_pass_data: Option<&[u8]>) -> Option<Seq<u8>> {
    match first_pass_data {
        Some(bytes) => Some(bytes@),
        None => None,
    }
}

/// A summary that the codec accepts, framed, builds a second-pass
/// configuration that carries that summary; the same frame with one or
/// more bytes missing at its end never builds a configuration.
pub proof fn lemma_first_pass_round_trip(encoder: EncoderSettings, summary: Seq<u8>, kept: int)
    requires
        summary.len() <= i64::MAX,
        0 <= kept < framed(summary).len(),
    ensures
        summary_accepted(summary) ==> encoder_config_outcome(encoder, Some(framed(summary)))
            == second_pass_outcome(encoder, summary, true),
        !summary_accepted(summary) ==> encoder_config_outcome(encoder, Some(framed(summary)))
            == Err::<CodecConfigView, ConfigError>(ConfigError::InvalidSummary),
        encoder_config_outcome(encoder, Some(framed(summary).take(kept))) is Err,
{
    lemma_frame_round_trip(summary);
    lemma_truncated_frame_rejected(summary, kept);
}

} // verus!
