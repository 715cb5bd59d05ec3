//! MP3 encoding of 16-bit PCM through libmp3lame.
//!
//! The encoder is configured from [`Mp3Options`], fed the samples as one
//! mono channel or as left and right channels (more channels are first
//! mixed down to two), and flushed.

use mp3lame_encoder::{Builder, DualPcm, EncodeError, FlushNoGap, MonoPcm};
use self::LameRateMode::{Cbr, Vbr};
use self::LameStep::{
    Alloc, Build, SetBrate, SetMode, SetNumChannels, SetQuality, SetSampleRate, SetVbrQuality,
};
use vstd::prelude::*;
use vstd::string::StringExecFns;

use crate::codecs::audio::{
    downmix_fits, downmix_spec, downmix_to_stereo, kbps_to_bitrate, left_len, mp3_bitrate_spec,
    running_sums_fit, sum_i16, frame_count, Mp3Bitrate, Mp3Encoder, Mp3Quality,
};
use crate::error::Error;

verus! {

// ---------------------------------------------------------------------------
// Calls into mp3lame-encoder.

#[verifier::external_type_specification]
#[verifier::external_body]
pub struct ExLameEncoder(mp3lame_encoder::Encoder);

#[verifier::external_type_specification]
#[verifier::external_body]
pub struct ExLameQualityPreset(mp3lame_encoder::Quality);

#[verifier::external_type_specification]
#[verifier::external_body]
pub struct ExLameBitrate(mp3lame_encoder::Bitrate);

#[verifier::external_type_specification]
#[verifier::external_body]
pub struct ExLameChannelMode(mp3lame_encoder::Mode);

/// The quality presets of libmp3lame that the encoder uses.
#[derive(Debug, Clone, Copy, PartialEq, Eq, Structural)]
pub enum LameQuality {
    Best,
    Good,
    Worst,
}

/// The channel modes of libmp3lame that the encoder uses.
#[derive(Debug, Clone, Copy, PartialEq, Eq, Structural)]
pub enum LameMode {
    Mono,
    Stereo,
}

/// Constant bitrate, or variable bitrate at a quality preset.
#[derive(Debug, Clone, Copy, PartialEq, Eq, Structural)]
pub enum LameRateMode {
    Cbr(Mp3Bitrate),
    Vbr(LameQuality),
}

/// Everything the encoder sets on a libmp3lame builder.
#[derive(Debug, Clone, Copy, PartialEq, Eq, Structural)]
pub struct LameSettings {
    pub rate: u32,
    pub channels: u8,
    pub quality: LameQuality,
    pub rate_mode: LameRateMode,
    pub mode: LameMode,
}

/// Whether libmp3lame takes the input sample rate `rate`: any rate of at
/// least 1 Hz (`lame_set_in_samplerate`; a rate past `c_int` is passed as
/// its largest value).
pub open spec fn lame_rate_supported(rate: u32) -> bool {
    rate >= 1
}

/// Whether libmp3lame takes `n` input channels: one or two
/// (`lame_set_num_channels`).
pub open spec fn lame_channels_supported(n: u8) -> bool {
    1 <= n <= 2
}

/// A libmp3lame encoder built, by [`lame_open`] alone, from the settings it
/// carries, and not yet fed.
pub struct LameEncoder {
    enc: mp3lame_encoder::Encoder,
    settings: LameSettings,
}

impl View for LameEncoder {
    type V = LameSettings;

    closed spec fn view(&self) -> LameSettings {
        self.settings
    }
}

/// The libmp3lame step that failed.
#[derive(Debug, Clone, Copy, PartialEq, Eq, Structural)]
pub enum LameStep {
    /// `Builder::new`: the C state could not be allocated.
    Alloc,
    SetSampleRate,
    SetNumChannels,
    SetQuality,
    SetBrate,
    SetVbrQuality,
    SetMode,
    Build,
}

/// The libmp3lame preset of the same name.
#[verifier::external_body]
fn lame_preset(q: LameQuality) -> mp3lame_encoder::Quality {
    match q {
        LameQuality::Best => mp3lame_encoder::Quality::Best,
        LameQuality::Good => mp3lame_encoder::Quality::Good,
        LameQuality::Worst => mp3lame_encoder::Quality::Worst,
    }
}

/// The libmp3lame bitrate of the same number.
#[verifier::external_body]
fn lame_bitrate(b: Mp3Bitrate) -> mp3lame_encoder::Bitrate {
    match b {
        Mp3Bitrate::Kbps40 => mp3lame_encoder::Bitrate::Kbps40,
        Mp3Bitrate::Kbps48 => mp3lame_encoder::Bitrate::Kbps48,
        Mp3Bitrate::Kbps64 => mp3lame_encoder::Bitrate::Kbps64,
        Mp3Bitrate::Kbps80 => mp3lame_encoder::Bitrate::Kbps80,
        Mp3Bitrate::Kbps96 => mp3lame_encoder::Bitrate::Kbps96,
        Mp3Bitrate::Kbps112 => mp3lame_encoder::Bitrate::Kbps112,
        Mp3Bitrate::Kbps128 => mp3lame_encoder::Bitrate::Kbps128,
        Mp3Bitrate::Kbps160 => mp3lame_encoder::Bitrate::Kbps160,
        Mp3Bitrate::Kbps192 => mp3lame_encoder::Bitrate::Kbps192,
        Mp3Bitrate::Kbps224 => mp3lame_encoder::Bitrate::Kbps224,
        Mp3Bitrate::Kbps256 => mp3lame_encoder::Bitrate::Kbps256,
        Mp3Bitrate::Kbps320 => mp3lame_encoder::Bitrate::Kbps320,
    }
}

/// The libmp3lame channel mode of the same name.
#[verifier::external_body]
fn lame_channel_mode(m: LameMode) -> mp3lame_encoder::Mode {
    match m {
        LameMode::Mono => mp3lame_encoder::Mode::Mono,
        LameMode::Stereo => mp3lame_encoder::Mode::Stereo,
    }
}

/// Calls `Builder::new`, then `set_sample_rate`, `set_num_channels`,
/// `set_quality`, `set_brate` or `set_vbr_quality`, `set_mode` with the
/// settings, then `build`; a refusal comes back with its step and `Debug`
/// text. What the source shows: `Builder::new` fails only when the C state
/// cannot be allocated; the rate setter refuses a rate below 1 and the
/// channel setter a count outside 1..=2; the other setters accept the
/// values passed; `lame_init_params` (under `build`) refuses only what those
/// two setters refuse.
#[verifier::external_body]
fn lame_open(settings: LameSettings) -> (r: Result<LameEncoder, (LameStep, String)>)
    ensures
        r matches Ok(e) ==> e@ == settings && lame_rate_supported(settings.rate) && lame_channels_supported(
            settings.channels,
        ),
        r matches Err(f) ==> (f.0 == LameStep::Alloc || (f.0 == LameStep::SetSampleRate && !lame_rate_supported(
            settings.rate,
        )) || (f.0 == LameStep::SetNumChannels && lame_rate_supported(settings.rate) && !lame_channels_supported(
            settings.channels,
        ))),
{
    let mut b = Builder::new().ok_or((Alloc, String::new()))?;
    let at = |st| move |e| (st, format!("{e:?}"));
    b.set_sample_rate(settings.rate).map_err(at(SetSampleRate))?;
    b.set_num_channels(settings.channels).map_err(at(SetNumChannels))?;
    b.set_quality(lame_preset(settings.quality)).map_err(at(SetQuality))?;
    match settings.rate_mode {
        Cbr(x) => b.set_brate(lame_bitrate(x)).map_err(at(SetBrate))?,
        Vbr(q) => b.set_vbr_quality(lame_preset(q)).map_err(at(SetVbrQuality))?,
    }
    b.set_mode(lame_channel_mode(settings.mode)).map_err(at(SetMode))?;
    Ok(LameEncoder { enc: b.build().map_err(at(Build))?, settings })
}

/// The MP3 streams that builds of libmp3lame may produce when a fresh
/// encoder with settings `s` is fed `left` (and `right`, for two channels)
/// in one call and then flushed. A set: the bytes depend on how the library
/// was built (its FFT and float code are chosen per target).
pub uninterp spec fn lame_mp3_outputs(s: LameSettings, left: Seq<i16>, right: Option<Seq<i16>>) -> Set<Seq<u8>>;

/// Room the MP3 buffer needs, as `lame.h` gives it: 1.25 bytes a sample
/// plus 7200 for encoding, and 7200 more for the flush.
pub open spec fn lame_room(n: int) -> int {
    n + n / 4 + 7200
}

/// The most samples the encoder is asked to promise success for: the
/// buffers then stay well within a C `int`.
pub const LAME_SAFE_SAMPLES: usize = 0x1000_0000;

/// How a call into a fresh encoder failed: at the flush or before, whether
/// libmp3lame could not allocate memory (`EncodeError::NoMem`), and its
/// `Debug` text.
pub struct LameFailure {
    pub at_flush: bool,
    pub out_of_memory: bool,
    pub text: String,
}

/// Calls `Encoder::encode_to_vec` with `MonoPcm(pcm)` into a buffer made
/// with capacity `room`, then `reserve(flush_room)` and
/// `flush_to_vec::<FlushNoGap>`. The bytes are among those the library may
/// produce for the encoder's settings and this feed. With the room `lame.h`
/// asks for and a feed that keeps the buffers within a C `int`, the calls
/// fail only on allocation: `lame_encode_buffer` returns -1 only for a short
/// buffer and -3 only before `lame_init_params`, and the replay-gain error
/// is off by default.
#[verifier::external_body]
fn lame_encode_mono(e: LameEncoder, pcm: &[i16], room: usize, flush_room: usize) -> (r: Result<Vec<u8>, LameFailure>)
    ensures
        r matches Ok(b) ==> lame_mp3_outputs(e@, pcm@, None).contains(b@),
        r matches Err(f) ==> (f.out_of_memory ==> f.text@ == "NoMem"@),
        (room >= lame_room(pcm@.len() as int) && flush_room >= 7200 && pcm@.len() <= LAME_SAFE_SAMPLES) ==> (
        r is Ok || r->Err_0.out_of_memory),
{
    let mut enc = e.enc;
    let mut out = Vec::with_capacity(room);
    let fail = |at_flush| move |x| LameFailure {
        at_flush,
        out_of_memory: matches!(x, EncodeError::NoMem),
        text: format!("{x:?}"),
    };
    enc.encode_to_vec(MonoPcm(pcm), &mut out).map_err(fail(false))?;
    out.reserve(flush_room);
    enc.flush_to_vec::<FlushNoGap>(&mut out).map_err(fail(true))?;
    Ok(out)
}

/// As [`lame_encode_mono`], with `DualPcm { left, right }`, which asserts
/// (in debug builds) that the channels are equally long.
#[verifier::external_body]
fn lame_encode_dual(e: LameEncoder, left: &[i16], right: &[i16], room: usize, flush_room: usize) -> (r: Result<
    Vec<u8>,
    LameFailure,
>)
    requires
        left@.len() == right@.len(),
    ensures
        r matches Ok(b) ==> lame_mp3_outputs(e@, left@, Some(right@)).contains(b@),
        r matches Err(f) ==> (f.out_of_memory ==> f.text@ == "NoMem"@),
        (room >= lame_room(left@.len() as int) && flush_room >= 7200 && left@.len() <= LAME_SAFE_SAMPLES) ==> (
        r is Ok || r->Err_0.out_of_memory),
{
    let mut enc = e.enc;
    let mut out = Vec::with_capacity(room);
    let fail = |at_flush| move |x| LameFailure {
        at_flush,
        out_of_memory: matches!(x, EncodeError::NoMem),
        text: format!("{x:?}"),
    };
    enc.encode_to_vec(DualPcm { left, right }, &mut out).map_err(fail(false))?;
    out.reserve(flush_room);
    enc.flush_to_vec::<FlushNoGap>(&mut out).map_err(fail(true))?;
    Ok(out)
}

// ---------------------------------------------------------------------------
// Feeding the encoder.

/// The samples of one channel of a two-channel interleaved stream.
pub open spec fn channel_of(s: Seq<i16>, ch: int) -> Seq<i16> {
    Seq::new(s.len() / 2, |i: int| s[2 * i + ch])
}

/// Split an interleaved two-channel stream into its left and right
/// channels; a trailing half frame is dropped.
pub fn split_stereo(samples: &[i16]) -> (r: (Vec<i16>, Vec<i16>))
    ensures
        r.0@ == channel_of(samples@, 0),
        r.1@ == channel_of(samples@, 1),
{
    let len = samples.len();
    let n = len / 2;
    let mut left: Vec<i16> = Vec::new();
    let mut right: Vec<i16> = Vec::new();
    let mut i: usize = 0;
    while i < n
        invariant
            len == samples@.len(),
            n == len / 2,
            i <= n,
            left@ =~= channel_of(samples@, 0).take(i as int),
            right@ =~= channel_of(samples@, 1).take(i as int),
        decreases n - i,
    {
        left.push(samples[2 * i]);
        right.push(samples[2 * i + 1]);
        i = i + 1;
    }
    (left, right)
}

/// Every running sum of up to 65535 16-bit samples fits in an `i32`.
proof fn lemma_sum_bound(s: Seq<i16>, lo: int, j: int)
    requires
        lo <= j,
    ensures
        -32768 * (j - lo) <= sum_i16(s, lo, j) <= 32767 * (j - lo),
    decreases j - lo,
{
    if j > lo {
        lemma_sum_bound(s, lo, j - 1);
    }
}

/// Mixing down frames of at most 65535 channels never leaves `i32`.
pub proof fn lemma_downmix_fits(samples: Seq<i16>, channels: int)
    requires
        0 < channels <= 65535,
    ensures
        downmix_fits(samples, channels),
{
    assert forall|k: int| 0 <= k < frame_count(samples.len() as int, channels) implies {
        &&& running_sums_fit(samples, #[trigger] (k * channels), k * channels + left_len(channels))
        &&& running_sums_fit(samples, k * channels + channels / 2, k * channels + channels)
    } by {
        let a = k * channels;
        let b = k * channels + channels / 2;
        assert forall|j: int| a <= j <= a + left_len(channels) implies i32::MIN <= #[trigger] sum_i16(
            samples,
            a,
            j,
        ) <= i32::MAX by {
            lemma_sum_bound(samples, a, j);
        }
        assert forall|j: int| b <= j <= k * channels + channels implies i32::MIN <= #[trigger] sum_i16(
            samples,
            b,
            j,
        ) <= i32::MAX by {
            lemma_sum_bound(samples, b, j);
        }
    }
}

/// What the encoder is fed for `channels` channels of interleaved samples:
/// one channel as it is, two split into left and right, more mixed down to
/// two first. `None` stands for mono.
pub open spec fn mp3_input(samples: Seq<i16>, channels: u16) -> (Seq<i16>, Option<Seq<i16>>) {
    if channels == 1 {
        (samples, None)
    } else if channels == 2 {
        (channel_of(samples, 0), Some(channel_of(samples, 1)))
    } else {
        let stereo = downmix_spec(samples, channels as int);
        (channel_of(stereo, 0), Some(channel_of(stereo, 1)))
    }
}

/// The prefixes of the errors the encoder reports, each followed by the
/// library's own text.
pub open spec fn lame_error_prefix(p: Seq<char>) -> bool {
    ||| p == "lame set_sample_rate: "@
    ||| p == "lame set_num_channels: "@
    ||| p == "lame set_quality: "@
    ||| p == "lame set_brate: "@
    ||| p == "lame set_vbr_quality: "@
    ||| p == "lame set_mode: "@
    ||| p == "lame build: "@
    ||| p == "lame encode (mono): "@
    ||| p == "lame encode (stereo): "@
    ||| p == "lame encode (downmix): "@
    ||| p == "lame flush: "@
}

/// Whether `e` is an error of the encoder's setup or of libmp3lame: the C
/// state could not be allocated, or a step refused, as
/// [`lame_error_prefix`] names it.
pub open spec fn is_lame_error(e: Error) -> bool {
    match e {
        Error::Audio(s) => s@ == "failed to initialise libmp3lame encoder"@ || exists|p: Seq<char>, d: Seq<
            char,
        >| lame_error_prefix(p) && s@ == p + d,
        _ => false,
    }
}

/// Whether libmp3lame accepts the settings the encoder makes for `channels`
/// channels at `sample_rate`: the rate and the channel count (as a byte);
/// the quality, bitrate, VBR quality and mode it always takes.
pub open spec fn mp3_settings_accepted(enc: Mp3Encoder, sample_rate: u32, channels: u16) -> bool {
    &&& lame_rate_supported(sample_rate)
    &&& lame_channels_supported(channels as u8)
}

/// An audio error `prefix` + the library's text.
fn lame_error(prefix: &str, m: String) -> (r: Error)
    requires
        lame_error_prefix(prefix@),
    ensures
        r matches Error::Audio(s) && s@ == prefix@ + m@,
        r matches Error::Audio(s) && exists|d: Seq<char>| s@ == prefix@ + d,
{
    let mut s = String::from_str(prefix);
    s.append(m.as_str());
    Error::Audio(s)
}

impl Mp3Encoder {
    /// The feed for [`Mp3Encoder::encode_pcm`]: see [`mp3_input`].
    pub fn pcm_input(samples: &[i16], channels: u16) -> (r: (Vec<i16>, Option<Vec<i16>>))
        ensures
            r.0@ == mp3_input(samples@, channels).0,
            match (r.1, mp3_input(samples@, channels).1) {
                (Some(a), Some(b)) => a@ == b,
                (None, None) => true,
                _ => false,
            },
    {
        if channels == 1 {
            let mut mono: Vec<i16> = Vec::new();
            let mut i: usize = 0;
            while i < samples.len()
                invariant
                    i <= samples@.len(),
                    mono@ =~= samples@.take(i as int),
                decreases samples@.len() - i,
            {
                mono.push(samples[i]);
                i = i + 1;
            }
            (mono, None)
        } else if channels == 2 {
            let (l, r) = split_stereo(samples);
            (l, Some(r))
        } else {
            proof {
                if channels > 0 {
                    lemma_downmix_fits(samples@, channels as int);
                }
            }
            let stereo = downmix_to_stereo(samples, channels as usize);
            let (l, r) = split_stereo(stereo.as_slice());
            (l, Some(r))
        }
    }

    /// Encode interleaved 16-bit PCM of `channels` channels at `sample_rate`
    /// into MP3 bytes: libmp3lame is set up with [`mp3_settings`], fed
    /// [`mp3_input`] in one call and flushed. No samples is an error; a
    /// setting libmp3lame refuses is an error; otherwise, for up to
    /// [`LAME_SAFE_SAMPLES`] samples, only running out of memory stops it.
    pub fn encode_pcm(&self, samples: &[i16], sample_rate: u32, channels: u16) -> (r: Result<Vec<u8>, Error>)
        ensures
            samples@.len() == 0 ==> (r matches Err(e) && e.is_audio("cannot encode empty audio frame to MP3"@)),
            samples@.len() > 0 ==> (r matches Err(e) ==> is_lame_error(e)),
            r matches Ok(b) ==> samples@.len() > 0 && mp3_settings_accepted(*self, sample_rate, channels)
                && lame_mp3_outputs(
                mp3_settings(*self, sample_rate, channels),
                mp3_input(samples@, channels).0,
                mp3_input(samples@, channels).1,
            ).contains(b@),
            samples@.len() > 0 && !mp3_settings_accepted(*self, sample_rate, channels) ==> (r matches Err(e)
                && lame_setup_error(e)),
            samples@.len() > 0 && mp3_settings_accepted(*self, sample_rate, channels) && samples@.len()
                <= LAME_SAFE_SAMPLES ==> (r is Ok || (r matches Err(e) && lame_out_of_memory(e))),
    {
        if samples.len() == 0 {
            return Err(Error::Audio(String::from_str("cannot encode empty audio frame to MP3")));
        }
        let quality = match self.opts.quality {
            Mp3Quality::Best => LameQuality::Best,
            Mp3Quality::Good => LameQuality::Good,
            Mp3Quality::Fast => LameQuality::Worst,
        };
        let rate_mode = match self.opts.bitrate_kbps {
            Some(kbps) => LameRateMode::Cbr(kbps_to_bitrate(kbps)),
            None => LameRateMode::Vbr(quality),
        };
        let mode = if channels == 1 {
            LameMode::Mono
        } else {
            LameMode::Stereo
        };
        let settings = LameSettings { rate: sample_rate, channels: channels as u8, quality, rate_mode, mode };
        assert(settings == mp3_settings(*self, sample_rate, channels));
        let enc = match lame_open(settings) {
            Ok(e) => e,
            Err((step, m)) => {
                let e = match step {
                    LameStep::Alloc => Error::Audio(String::from_str("failed to initialise libmp3lame encoder")),
                    LameStep::SetSampleRate => lame_error("lame set_sample_rate: ", m),
                    LameStep::SetNumChannels => lame_error("lame set_num_channels: ", m),
                    LameStep::SetQuality => lame_error("lame set_quality: ", m),
                    LameStep::SetBrate => lame_error("lame set_brate: ", m),
                    LameStep::SetVbrQuality => lame_error("lame set_vbr_quality: ", m),
                    LameStep::SetMode => lame_error("lame set_mode: ", m),
                    LameStep::Build => lame_error("lame build: ", m),
                };
                return Err(e);
            },
        };
        // Room for 1.25 bytes a sample plus 7200, then 7200 for the flush, as
        // libmp3lame asks.
        let n = samples.len();
        let room = n.saturating_add(n / 4).saturating_add(7200);
        let (first, second) = Self::pcm_input(samples, channels);
        proof {
            if n <= LAME_SAFE_SAMPLES {
                assert(room == lame_room(n as int));
            }
            if channels != 1 && channels != 2 && channels > 0 {
                assert(first@.len() == (n as int) / (channels as int));
                assert((n as int) / (channels as int) <= n) by (nonlinear_arith)
                    requires
                        channels >= 1,
                ;
            }
            assert(first@.len() <= n);
            let f = first@.len() as int;
            assert(f + f / 4 <= n + n / 4) by (nonlinear_arith)
                requires
                    0 <= f <= n,
            ;
        }
        match second {
            None => match lame_encode_mono(enc, first.as_slice(), room, 7200) {
                Ok(b) => Ok(b),
                Err(f) => Err(encode_error("lame encode (mono): ", f)),
            },
            Some(right) => {
                proof {
                    assert(first@.len() == right@.len());
                }
                match lame_encode_dual(enc, first.as_slice(), right.as_slice(), room, 7200) {
                    Ok(b) => Ok(b),
                    Err(f) => if channels == 2 {
                        Err(encode_error("lame encode (stereo): ", f))
                    } else {
                        Err(encode_error("lame encode (downmix): ", f))
                    },
                }
            },
        }
    }
}

/// The settings the encoder makes for `channels` channels at `sample_rate`:
/// the rate, the channel count as a byte, the quality preset, the constant
/// bitrate nearest the requested one (or, without one, VBR at the quality
/// preset), and mono for one channel, stereo otherwise.
pub open spec fn mp3_settings(enc: Mp3Encoder, sample_rate: u32, channels: u16) -> LameSettings {
    let q = match enc.opts.quality {
        Mp3Quality::Best => LameQuality::Best,
        Mp3Quality::Good => LameQuality::Good,
        Mp3Quality::Fast => LameQuality::Worst,
    };
    LameSettings {
        rate: sample_rate,
        channels: channels as u8,
        quality: q,
        rate_mode: match enc.opts.bitrate_kbps {
            Some(kbps) => LameRateMode::Cbr(mp3_bitrate_spec(kbps)),
            None => LameRateMode::Vbr(q),
        },
        mode: if channels == 1 {
            LameMode::Mono
        } else {
            LameMode::Stereo
        },
    }
}

/// An error of the encoder's setup: the C state could not be allocated, or
/// the sample rate or channel count was refused.
pub open spec fn lame_setup_error(e: Error) -> bool {
    match e {
        Error::Audio(s) => s@ == "failed to initialise libmp3lame encoder"@ || exists|d: Seq<char>|
            s@ == "lame set_sample_rate: "@ + d || s@ == "lame set_num_channels: "@ + d,
        _ => false,
    }
}

/// An error of libmp3lame running out of memory: at setup, or `NoMem` from
/// encoding or flushing.
pub open spec fn lame_out_of_memory(e: Error) -> bool {
    match e {
        Error::Audio(s) => {
            ||| s@ == "failed to initialise libmp3lame encoder"@
            ||| s@ == "lame encode (mono): NoMem"@
            ||| s@ == "lame encode (stereo): NoMem"@
            ||| s@ == "lame encode (downmix): NoMem"@
            ||| s@ == "lame flush: NoMem"@
        },
        _ => false,
    }
}

/// The error for a failed encoding call: `prefix` before the flush,
/// `lame flush: ` at it, then the library's text.
fn encode_error(prefix: &str, f: LameFailure) -> (r: Error)
    requires
        lame_error_prefix(prefix@),
        prefix@ == "lame encode (mono): "@ || prefix@ == "lame encode (stereo): "@ || prefix@
            == "lame encode (downmix): "@,
    ensures
        is_lame_error(r),
        f.out_of_memory && f.text@ == "NoMem"@ ==> lame_out_of_memory(r),
{
    let p = if f.at_flush {
        "lame flush: "
    } else {
        prefix
    };
    let ghost text = f.text@;
    let r = lame_error(p, f.text);
    proof {
        reveal_strlit("lame flush: ");
        reveal_strlit("lame encode (mono): ");
        reveal_strlit("lame encode (stereo): ");
        reveal_strlit("lame encode (downmix): ");
        reveal_strlit("NoMem");
        reveal_strlit("lame flush: NoMem");
        reveal_strlit("lame encode (mono): NoMem");
        reveal_strlit("lame encode (stereo): NoMem");
        reveal_strlit("lame encode (downmix): NoMem");
        if text == "NoMem"@ {
            assert(p@ + text =~= "lame flush: NoMem"@ || p@ + text =~= "lame encode (mono): NoMem"@ || p@
                + text =~= "lame encode (stereo): NoMem"@ || p@ + text =~= "lame encode (downmix): NoMem"@);
        }
    }
    r
}

} // verus!
