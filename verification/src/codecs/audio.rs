//! Audio codec front-ends: encoder options and the integer sample helpers the
//! encoders use. Decoding and encoding samples (floating point) happens in the
//! codec crates themselves.

use vstd::prelude::*;
use vstd::string::StringExecFns;

verus! {

// ── MP3 (libmp3lame) ─────────────────────────────────────────────────────────

/// MP3 encoder quality preset.
#[derive(Debug, Clone, Copy, PartialEq, Eq, Structural)]
pub enum Mp3Quality {
    /// Highest quality, slowest encoding.
    Best,
    /// Good quality, fast encoding (default).
    Good,
    /// Lowest quality, fastest encoding.
    Fast,
}

impl Default for Mp3Quality {
    fn default() -> (r: Self)
        ensures
            r == Mp3Quality::Good,
    {
        Mp3Quality::Good
    }
}

/// Options for the MP3 encoder.
#[derive(Debug, Clone, Copy, PartialEq, Eq, Structural)]
pub struct Mp3Options {
    /// Target bitrate in kbps (e.g. 128, 192, 320). `None` = VBR mode.
    pub bitrate_kbps: Option<u32>,
    /// Encoding quality preset.
    pub quality: Mp3Quality,
}

impl Default for Mp3Options {
    fn default() -> (r: Self)
        ensures
            r == (Mp3Options { bitrate_kbps: Some(192), quality: Mp3Quality::Good }),
    {
        Mp3Options { bitrate_kbps: Some(192), quality: Mp3Quality::Good }
    }
}

/// MP3 encoder backed by libmp3lame.
#[derive(Debug, Clone, Copy, PartialEq, Eq, Structural)]
pub struct Mp3Encoder {
    pub opts: Mp3Options,
}

impl Default for Mp3Encoder {
    fn default() -> (r: Self)
        ensures
            r == (Mp3Encoder { opts: Mp3Options { bitrate_kbps: Some(192), quality: Mp3Quality::Good } }),
    {
        Mp3Encoder { opts: Mp3Options::default() }
    }
}

impl Mp3Encoder {
    pub fn new() -> (r: Self)
        ensures
            r == (Mp3Encoder { opts: Mp3Options { bitrate_kbps: Some(192), quality: Mp3Quality::Good } }),
    {
        Self::default()
    }

    pub fn with_opts(opts: Mp3Options) -> (r: Self)
        ensures
            r == (Mp3Encoder { opts }),
    {
        Mp3Encoder { opts }
    }

    /// Convenience constructor for a specific CBR bitrate.
    pub fn cbr(bitrate_kbps: u32) -> (r: Self)
        ensures
            r == (Mp3Encoder { opts: Mp3Options { bitrate_kbps: Some(bitrate_kbps), quality: Mp3Quality::Good } }),
    {
        Mp3Encoder { opts: Mp3Options { bitrate_kbps: Some(bitrate_kbps), quality: Mp3Options::default().quality } }
    }
}

/// The constant bitrates libmp3lame accepts.
#[derive(Debug, Clone, Copy, PartialEq, Eq, Structural)]
pub enum Mp3Bitrate {
    Kbps40,
    Kbps48,
    Kbps64,
    Kbps80,
    Kbps96,
    Kbps112,
    Kbps128,
    Kbps160,
    Kbps192,
    Kbps224,
    Kbps256,
    Kbps320,
}

/// The smallest supported bitrate at or above `kbps` (320 above that).
pub open spec fn mp3_bitrate_spec(kbps: u32) -> Mp3Bitrate {
    if kbps <= 40 {
        Mp3Bitrate::Kbps40
    } else if kbps <= 48 {
        Mp3Bitrate::Kbps48
    } else if kbps <= 64 {
        Mp3Bitrate::Kbps64
    } else if kbps <= 80 {
        Mp3Bitrate::Kbps80
    } else if kbps <= 96 {
        Mp3Bitrate::Kbps96
    } else if kbps <= 112 {
        Mp3Bitrate::Kbps112
    } else if kbps <= 128 {
        Mp3Bitrate::Kbps128
    } else if kbps <= 160 {
        Mp3Bitrate::Kbps160
    } else if kbps <= 192 {
        Mp3Bitrate::Kbps192
    } else if kbps <= 224 {
        Mp3Bitrate::Kbps224
    } else if kbps <= 256 {
        Mp3Bitrate::Kbps256
    } else {
        Mp3Bitrate::Kbps320
    }
}

/// The bitrate a variant names, in kbps.
pub open spec fn bitrate_kbps(b: Mp3Bitrate) -> int {
    match b {
        Mp3Bitrate::Kbps40 => 40,
        Mp3Bitrate::Kbps48 => 48,
        Mp3Bitrate::Kbps64 => 64,
        Mp3Bitrate::Kbps80 => 80,
        Mp3Bitrate::Kbps96 => 96,
        Mp3Bitrate::Kbps112 => 112,
        Mp3Bitrate::Kbps128 => 128,
        Mp3Bitrate::Kbps160 => 160,
        Mp3Bitrate::Kbps192 => 192,
        Mp3Bitrate::Kbps224 => 224,
        Mp3Bitrate::Kbps256 => 256,
        Mp3Bitrate::Kbps320 => 320,
    }
}

/// The constant bitrates libmp3lame offers the encoder, in kbps.
pub open spec fn offered_kbps(v: int) -> bool {
    v == 40 || v == 48 || v == 64 || v == 80 || v == 96 || v == 112 || v == 128 || v == 160 || v == 192 || v
        == 224 || v == 256 || v == 320
}

/// A requested bitrate is rounded up: to the smallest offered bitrate at or
/// above it, and to 320 kbps when it is above every offered one.
pub proof fn law_bitrate_rounds_up(kbps: u32)
    ensures
        offered_kbps(bitrate_kbps(mp3_bitrate_spec(kbps))),
        kbps <= 320 ==> kbps <= bitrate_kbps(mp3_bitrate_spec(kbps)),
        forall|v: int| offered_kbps(v) && kbps <= v ==> bitrate_kbps(mp3_bitrate_spec(kbps)) <= v,
        kbps > 320 ==> bitrate_kbps(mp3_bitrate_spec(kbps)) == 320,
{
}

/// Map a requested kbps onto a supported constant bitrate.
pub fn kbps_to_bitrate(kbps: u32) -> (r: Mp3Bitrate)
    ensures
        r == mp3_bitrate_spec(kbps),
{
    if kbps <= 40 {
        Mp3Bitrate::Kbps40
    } else if kbps <= 48 {
        Mp3Bitrate::Kbps48
    } else if kbps <= 64 {
        Mp3Bitrate::Kbps64
    } else if kbps <= 80 {
        Mp3Bitrate::Kbps80
    } else if kbps <= 96 {
        Mp3Bitrate::Kbps96
    } else if kbps <= 112 {
        Mp3Bitrate::Kbps112
    } else if kbps <= 128 {
        Mp3Bitrate::Kbps128
    } else if kbps <= 160 {
        Mp3Bitrate::Kbps160
    } else if kbps <= 192 {
        Mp3Bitrate::Kbps192
    } else if kbps <= 224 {
        Mp3Bitrate::Kbps224
    } else if kbps <= 256 {
        Mp3Bitrate::Kbps256
    } else {
        Mp3Bitrate::Kbps320
    }
}

/// The sum of `s[lo..hi]`.
pub open spec fn sum_i16(s: Seq<i16>, lo: int, hi: int) -> int
    decreases hi - lo,
{
    if hi <= lo {
        0
    } else {
        sum_i16(s, lo, hi - 1) + s[hi - 1]
    }
}

/// Division truncating toward zero (Rust's `/` on integers), for `d != 0`.
pub open spec fn div_trunc(n: int, d: int) -> int {
    if n >= 0 {
        n / d
    } else {
        -((-n) / d)
    }
}

/// Every running sum over `s[lo..hi]` stays in `i32` range.
pub open spec fn running_sums_fit(s: Seq<i16>, lo: int, hi: int) -> bool {
    forall|j: int| lo <= j <= hi ==> i32::MIN <= #[trigger] sum_i16(s, lo, j) <= i32::MAX
}

/// The number of whole `channels`-sample frames in `len` samples.
pub open spec fn frame_count(len: int, channels: int) -> int {
    len / channels
}

/// The first and second channel-half boundaries of a frame.
pub open spec fn left_len(channels: int) -> int {
    if channels / 2 >= 1 {
        channels / 2
    } else {
        1
    }
}

pub open spec fn right_divisor(channels: int) -> int {
    if channels - channels / 2 >= 1 {
        channels - channels / 2
    } else {
        1
    }
}

/// The divisors as the `i32` values the averaging uses.
pub open spec fn left_divisor_i32(channels: int) -> int {
    (left_len(channels) as i32) as int
}

pub open spec fn right_divisor_i32(channels: int) -> int {
    (right_divisor(channels) as i32) as int
}

/// Summing each frame's halves stays within `i32`.
pub open spec fn downmix_fits(samples: Seq<i16>, channels: int) -> bool {
    forall|k: int|
        0 <= k < frame_count(samples.len() as int, channels) ==> {
            &&& running_sums_fit(samples, #[trigger] (k * channels), k * channels + left_len(channels))
            &&& running_sums_fit(samples, k * channels + channels / 2, k * channels + channels)
        }
}

/// Clamp to the `i16` range.
pub open spec fn clamp_i16(v: int) -> i16 {
    if v < i16::MIN {
        i16::MIN
    } else if v > i16::MAX {
        i16::MAX
    } else {
        v as i16
    }
}

/// Down-mix of interleaved `channels`-channel audio to stereo: per whole frame,
/// left = mean of the first half of the channels (at least one), right = mean
/// of the rest; a trailing partial frame is dropped.
pub open spec fn downmix_spec(samples: Seq<i16>, channels: int) -> Seq<i16> {
    if channels == 0 {
        Seq::empty()
    } else {
        Seq::new(
            (2 * frame_count(samples.len() as int, channels)) as nat,
            |i: int|
                {
                    let base = (i / 2) * channels;
                    if i % 2 == 0 {
                        clamp_i16(div_trunc(sum_i16(samples, base, base + left_len(channels)), left_divisor_i32(channels)))
                    } else {
                        clamp_i16(
                            div_trunc(
                                sum_i16(samples, base + channels / 2, base + channels),
                                right_divisor_i32(channels),
                            ),
                        )
                    }
                },
        )
    }
}


fn sum_range(samples: &[i16], lo: usize, hi: usize) -> (r: i32)
    requires
        lo <= hi <= samples@.len(),
        running_sums_fit(samples@, lo as int, hi as int),
    ensures
        r == sum_i16(samples@, lo as int, hi as int),
{
    let mut acc: i32 = 0;
    let mut j: usize = lo;
    while j < hi
        invariant
            lo <= j <= hi,
            hi <= samples@.len(),
            running_sums_fit(samples@, lo as int, hi as int),
            acc == sum_i16(samples@, lo as int, j as int),
        decreases hi - j,
    {
        assert(i32::MIN <= sum_i16(samples@, lo as int, j + 1) <= i32::MAX);
        acc = acc + samples[j] as i32;
        j = j + 1;
    }
    acc
}

fn div_i32(a: i32, b: i32) -> (r: i32)
    requires
        b > 0,
    ensures
        r == div_trunc(a as int, b as int),
{
    a / b
}

fn clamp_to_i16(v: i32) -> (r: i16)
    ensures
        r == clamp_i16(v as int),
{
    if v < -32768 {
        -32768
    } else if v > 32767 {
        32767
    } else {
        v as i16
    }
}

/// Down-mix an N-channel interleaved i16 stream to stereo by averaging.
pub fn downmix_to_stereo(samples: &[i16], channels: usize) -> (r: Vec<i16>)
    requires
        channels <= i32::MAX,
        channels > 0 ==> downmix_fits(samples@, channels as int),
    ensures
        r@ == downmix_spec(samples@, channels as int),
{
    let mut out: Vec<i16> = Vec::new();
    if channels == 0 {
        assert(out@ =~= downmix_spec(samples@, 0));
        return out;
    }
    let n = samples.len();
    let half = channels / 2;
    let lhalf = if half >= 1 { half } else { 1 };
    let rdiv = if channels - half >= 1 { channels - half } else { 1 };
    let ghost f = downmix_spec(samples@, channels as int);
    let mut base: usize = 0;
    let mut k: usize = 0;
    while base <= n && n - base >= channels
        invariant
            0 < channels <= i32::MAX,
            n == samples@.len(),
            half == channels / 2,
            lhalf == left_len(channels as int),
            rdiv == right_divisor(channels as int),
            downmix_fits(samples@, channels as int),
            base == k * channels,
            base <= n,
            out@.len() == 2 * k,
            f == downmix_spec(samples@, channels as int),
            forall|i: int| 0 <= i < 2 * k ==> #[trigger] out@[i] == f[i],
            2 * k <= f.len(),
        decreases n - base,
    {
        proof {
            assert(k < frame_count(n as int, channels as int)) by {
                vstd::arithmetic::div_mod::lemma_div_is_ordered((k * channels + channels) as int, n as int, channels as int);
                assert((k * channels + channels) == (k + 1) * channels) by (nonlinear_arith);
                vstd::arithmetic::div_mod::lemma_div_multiples_vanish((k + 1) as int, channels as int);
            }
            assert(running_sums_fit(samples@, k * channels, k * channels + left_len(channels as int)));
        }
        let left = sum_range(samples, base, base + lhalf);
        let right = sum_range(samples, base + half, base + channels);
        let l = clamp_to_i16(div_i32(left, lhalf as i32));
        let r = clamp_to_i16(div_i32(right, rdiv as i32));
        out.push(l);
        out.push(r);
        proof {
            assert(f.len() == 2 * frame_count(n as int, channels as int));
            assert((2 * k) / 2 == k);
            assert((2 * k + 1) / 2 == k);
            assert((2 * k + 1) % 2 == 1);
            assert((2 * k) % 2 == 0);
            assert(left as int == sum_i16(samples@, (k * channels) as int, k * channels + left_len(channels as int)));
            assert(l == clamp_i16(div_trunc(left as int, left_divisor_i32(channels as int))));
            assert(((2 * k) / 2) * channels == k * channels);
            assert(f[2 * k as int] == clamp_i16(div_trunc(sum_i16(samples@, (k * channels) as int, k * channels + left_len(channels as int)), left_divisor_i32(channels as int))));
            assert(out@[2 * k as int] == f[2 * k as int]);
            assert(out@[2 * k + 1] == f[2 * k + 1]);
            assert((k + 1) * channels == k * channels + channels) by (nonlinear_arith);
        }
        base = base + channels;
        k = k + 1;
    }
    proof {
        vstd::arithmetic::div_mod::lemma_fundamental_div_mod_converse(
            n as int,
            channels as int,
            k as int,
            (n - base) as int,
        );
    }
    assert(out@ =~= f);
    out
}


// ── Opus (libopus) ───────────────────────────────────────────────────────────

/// Opus encoding application type.
#[derive(Debug, Clone, Copy, PartialEq, Eq, Structural)]
pub enum OpusApplication {
    /// General-purpose audio (music, podcasts). Default.
    Audio,
    /// Optimised for voice/speech.
    Voip,
    /// Lowest latency (restricted).
    LowDelay,
}

impl Default for OpusApplication {
    fn default() -> (r: Self)
        ensures
            r == OpusApplication::Audio,
    {
        OpusApplication::Audio
    }
}

/// Options for the Opus encoder.
#[derive(Debug, Clone, Copy, PartialEq, Eq, Structural)]
pub struct OpusOptions {
    /// Bitrate in bits per second (e.g. 64_000, 128_000). Default: 128 kbps.
    pub bitrate_bps: i32,
    /// Application type hint.
    pub application: OpusApplication,
}

impl Default for OpusOptions {
    fn default() -> (r: Self)
        ensures
            r == (OpusOptions { bitrate_bps: 128_000, application: OpusApplication::Audio }),
    {
        OpusOptions { bitrate_bps: 128_000, application: OpusApplication::Audio }
    }
}

/// Opus encoder producing Ogg-wrapped `.opus` output.
#[derive(Debug, Clone, Copy, PartialEq, Eq, Structural)]
pub struct OpusEncoder {
    pub opts: OpusOptions,
}

impl Default for OpusEncoder {
    fn default() -> (r: Self)
        ensures
            r == (OpusEncoder { opts: OpusOptions { bitrate_bps: 128_000, application: OpusApplication::Audio } }),
    {
        OpusEncoder { opts: OpusOptions::default() }
    }
}

impl OpusEncoder {
    pub fn new() -> (r: Self)
        ensures
            r == (OpusEncoder { opts: OpusOptions { bitrate_bps: 128_000, application: OpusApplication::Audio } }),
    {
        Self::default()
    }

    pub fn with_opts(opts: OpusOptions) -> (r: Self)
        ensures
            r == (OpusEncoder { opts }),
    {
        OpusEncoder { opts }
    }

    pub fn with_bitrate(bitrate_bps: i32) -> (r: Self)
        ensures
            r == (OpusEncoder { opts: OpusOptions { bitrate_bps, application: OpusApplication::Audio } }),
    {
        OpusEncoder { opts: OpusOptions { bitrate_bps, application: OpusOptions::default().application } }
    }
}

// ── decoders ─────────────────────────────────────────────────────────────────

/// MP3 decoder (symphonia).
pub struct Mp3Decoder;

/// FLAC decoder (claxon).
pub struct FlacDecoder;

/// Ogg Vorbis decoder (lewton).
pub struct VorbisDecoder;

/// WAV decoder (hound).
pub struct WavDecoder;

/// WAV encoder (hound).
pub struct WavEncoder;

/// Generic symphonia-backed decoder — auto-probes the format from content,
/// optionally helped by a file-extension hint.
pub struct SymphoniaDecoder {
    pub ext_hint: Option<String>,
}

impl SymphoniaDecoder {
    pub fn new() -> (r: Self)
        ensures
            r.ext_hint is None,
    {
        SymphoniaDecoder { ext_hint: None }
    }

    pub fn with_ext(ext: &str) -> (r: Self)
        ensures
            r.ext_hint matches Some(e) && e@ == ext@,
    {
        SymphoniaDecoder { ext_hint: Some(String::from_str(ext)) }
    }
}

impl Default for SymphoniaDecoder {
    fn default() -> (r: Self)
        ensures
            r.ext_hint is None,
    {
        Self::new()
    }
}

} // verus!
