//! Frame and audio extraction from video containers: the decisions.
//!
//! Reading containers, decoding and writing files happen outside the library;
//! this module decides which container a path names, which frames are kept
//! and where each is written, and which audio extractions are possible.

use vstd::prelude::*;

use crate::asset::extensions::{lemma_lower_spelling, spells};
use vstd::string::StringExecFns;

use crate::asset::{ascii_lower, eq_bytes, extension_of_path, path_extension};
use crate::error::Error;
use crate::text::{chars_of, decimal_spec, push_char, push_decimal, push_range};
use crate::video::{CodecId, StreamInfo, StreamKind};

verus! {

// ---------------------------------------------------------------------------
// Output path patterns.

/// Whether `c` is an ASCII digit.
pub open spec fn is_digit(c: char) -> bool {
    '0' <= c <= '9'
}

/// The first index at or after `i` whose character is not an ASCII digit
/// (the length when there is none).
pub open spec fn digits_end(p: Seq<char>, i: int) -> int
    decreases p.len() - i,
{
    if 0 <= i < p.len() && is_digit(p[i]) {
        digits_end(p, i + 1)
    } else {
        i
    }
}

/// The first index in `[i, k)` whose character is not `0` (`k` when there is
/// none).
pub open spec fn zeros_end(p: Seq<char>, i: int, k: int) -> int
    decreases k - i,
{
    if 0 <= i < k && i < p.len() && p[i] == '0' {
        zeros_end(p, i + 1, k)
    } else {
        i
    }
}

/// The number that a run of ASCII digits spells.
pub open spec fn digits_value(s: Seq<char>) -> nat
    decreases s.len(),
{
    if s.len() == 0 {
        0
    } else {
        digits_value(s.drop_last()) * 10 + ((s.last() as int - '0' as int) as nat)
    }
}

/// The field width that the digits of a directive ask for: 0 when there are
/// none or when the number does not fit in a `usize`.
pub open spec fn width_of(s: Seq<char>) -> nat {
    if s.len() == 0 || digits_value(s) > usize::MAX {
        0
    } else {
        digits_value(s)
    }
}

/// `s`, right-aligned in a field of `width` characters filled with `fill`.
pub open spec fn pad_left(s: Seq<char>, width: nat, fill: char) -> Seq<char> {
    if s.len() >= width {
        s
    } else {
        Seq::new((width - s.len()) as nat, |i: int| fill) + s
    }
}

/// The rendering of `index` for a `%d` directive.
pub open spec fn render_index(index: nat, zero_fill: bool, width: nat) -> Seq<char> {
    if zero_fill && width > 0 {
        pad_left(decimal_spec(index), width, '0')
    } else if width > 0 {
        pad_left(decimal_spec(index), width, ' ')
    } else {
        decimal_spec(index)
    }
}

/// A digit run never ends before it starts.
pub proof fn lemma_digits_end_ge(p: Seq<char>, i: int)
    ensures
        digits_end(p, i) >= i,
        i >= 0 ==> digits_end(p, i) <= p.len() || digits_end(p, i) == i,
    decreases p.len() - i,
{
    if 0 <= i < p.len() && is_digit(p[i]) {
        lemma_digits_end_ge(p, i + 1);
    }
}

proof fn lemma_digits_end_facts(p: Seq<char>, i: int)
    requires
        0 <= i <= p.len(),
    ensures
        i <= digits_end(p, i) <= p.len(),
        forall|j: int| i <= j < digits_end(p, i) ==> is_digit(#[trigger] p[j]),
        digits_end(p, i) < p.len() ==> !is_digit(p[digits_end(p, i)]),
    decreases p.len() - i,
{
    if i < p.len() && is_digit(p[i]) {
        lemma_digits_end_facts(p, i + 1);
    }
}

proof fn lemma_zeros_end_facts(p: Seq<char>, i: int, k: int)
    requires
        0 <= i <= k <= p.len(),
    ensures
        i <= zeros_end(p, i, k) <= k,
        zeros_end(p, i, k) < k ==> p[zeros_end(p, i, k)] != '0',
        forall|j: int| i <= j < zeros_end(p, i, k) ==> #[trigger] p[j] == '0',
    decreases k - i,
{
    if i < k && p[i] == '0' {
        lemma_zeros_end_facts(p, i + 1, k);
    }
}

/// The expansion of `p` from index `i` on: the first `%`, digits and `d`
/// (while none has been substituted yet) becomes the rendered index; a `%`
/// whose digits end in another character is kept as text, followed by that
/// character; a `%` whose digits run to the end is kept as text.
pub open spec fn expand_from(p: Seq<char>, i: int, substituted: bool, index: nat) -> Seq<char>
    decreases p.len() - i,
{
    if i < 0 || i >= p.len() {
        Seq::empty()
    } else if p[i] == '%' && !substituted {
        let k = digits_end(p, i + 1);
        let z = zeros_end(p, i + 1, k);
        let fmt = p.subrange(i, k);
        proof {
            lemma_digits_end_ge(p, i + 1);
        }
        if k >= p.len() {
            fmt
        } else if p[k] == 'd' {
            render_index(index, z > i + 1, width_of(p.subrange(z, k))) + expand_from(
                p,
                k + 1,
                true,
                index,
            )
        } else {
            fmt + seq![p[k]] + expand_from(p, k + 1, false, index)
        }
    } else {
        seq![p[i]] + expand_from(p, i + 1, substituted, index)
    }
}

/// A pattern without `%` is used as it is, whatever the index.
pub proof fn law_plain_pattern_kept(pattern: Seq<char>, index: nat)
    requires
        !pattern.contains('%'),
    ensures
        output_path(pattern, index) == pattern,
{
    lemma_plain_suffix_kept(pattern, 0, index);
    assert(pattern.subrange(0, pattern.len() as int) =~= pattern);
}

proof fn lemma_plain_suffix_kept(p: Seq<char>, i: int, index: nat)
    requires
        !p.contains('%'),
        0 <= i <= p.len(),
    ensures
        expand_from(p, i, false, index) == p.subrange(i, p.len() as int),
    decreases p.len() - i,
{
    if i < p.len() {
        assert(p[i] != '%') by {
            if p[i] == '%' {
                assert(p.contains('%'));
            }
        }
        lemma_plain_suffix_kept(p, i + 1, index);
        assert(seq![p[i]] + p.subrange(i + 1, p.len() as int) =~= p.subrange(i, p.len() as int));
    } else {
        assert(p.subrange(i, p.len() as int) =~= Seq::<char>::empty());
    }
}

/// Characters before the first `%` are copied as they are.
proof fn lemma_plain_prefix(p: Seq<char>, i: int, j: int, index: nat)
    requires
        0 <= i <= j <= p.len(),
        forall|t: int| i <= t < j ==> p[t] != '%',
    ensures
        expand_from(p, i, false, index) == p.subrange(i, j) + expand_from(p, j, false, index),
    decreases j - i,
{
    if i < j {
        lemma_plain_prefix(p, i + 1, j, index);
        assert(seq![p[i]] + p.subrange(i + 1, j) =~= p.subrange(i, j));
        assert(seq![p[i]] + (p.subrange(i + 1, j) + expand_from(p, j, false, index)) =~= p.subrange(i, j)
            + expand_from(p, j, false, index));
    } else {
        assert(p.subrange(i, j) =~= Seq::<char>::empty());
        assert(Seq::<char>::empty() + expand_from(p, j, false, index) =~= expand_from(p, j, false, index));
    }
}

/// After the substitution, the rest of the pattern is copied as it is.
proof fn lemma_rest_copied(p: Seq<char>, i: int, index: nat)
    requires
        0 <= i <= p.len(),
    ensures
        expand_from(p, i, true, index) == p.subrange(i, p.len() as int),
    decreases p.len() - i,
{
    if i < p.len() {
        lemma_rest_copied(p, i + 1, index);
        assert(seq![p[i]] + p.subrange(i + 1, p.len() as int) =~= p.subrange(i, p.len() as int));
    } else {
        assert(p.subrange(i, p.len() as int) =~= Seq::<char>::empty());
    }
}

/// A pattern `prefix%0Nd suffix` (no `%` in `prefix`, a single width digit
/// `N` from 1 to 9) names the file `prefix`, the index in decimal
/// left-padded with zeros to `N` characters, then `suffix` as it is; and
/// `prefix%dsuffix` puts the plain decimal index there.
pub proof fn law_indexed_output_path(prefix: Seq<char>, width: char, suffix: Seq<char>, index: nat)
    requires
        forall|t: int| 0 <= t < prefix.len() ==> prefix[t] != '%',
        '1' <= width <= '9',
    ensures
        ({
            let out = output_path(prefix + seq!['%', '0', width, 'd'] + suffix, index);
            let dec = decimal_spec(index);
            let n = width as int - '0' as int;
            let field = if dec.len() >= n { dec.len() as int } else { n };
            &&& out.len() == prefix.len() + field + suffix.len()
            &&& out.subrange(0, prefix.len() as int) == prefix
            &&& out.subrange(prefix.len() + field - dec.len(), prefix.len() + field) == dec
            &&& forall|t: int| prefix.len() <= t < prefix.len() + field - dec.len() ==> out[t] == '0'
            &&& out.subrange(prefix.len() + field, out.len() as int) == suffix
        }),
        output_path(prefix + seq!['%', 'd'] + suffix, index) == prefix + decimal_spec(index) + suffix,
{
    let p = prefix + seq!['%', '0', width, 'd'] + suffix;
    let j = prefix.len() as int;
    lemma_plain_prefix(p, 0, j, index);
    assert(p.subrange(0, j) =~= prefix);
    assert(p[j] == '%' && p[j + 1] == '0' && p[j + 2] == width && p[j + 3] == 'd');
    assert(digits_end(p, j + 3) == j + 3);
    assert(digits_end(p, j + 2) == j + 3);
    assert(digits_end(p, j + 1) == j + 3);
    assert(zeros_end(p, j + 3, j + 3) == j + 3);
    assert(zeros_end(p, j + 2, j + 3) == j + 2);
    assert(zeros_end(p, j + 1, j + 3) == j + 2);
    let ds = p.subrange(j + 2, j + 3);
    assert(ds.len() == 1 && ds.last() == width);
    assert(ds.drop_last() =~= Seq::<char>::empty());
    assert(digits_value(ds.drop_last()) == 0);
    assert(digits_value(ds) == width as int - '0' as int);
    lemma_rest_copied(p, j + 4, index);
    assert(p.subrange(j + 4, p.len() as int) =~= suffix);
    let dec = decimal_spec(index);
    let n = (width as int - '0' as int) as nat;
    let r = pad_left(dec, n, '0');
    assert(expand_from(p, j, false, index) == r + suffix);
    let out = output_path(p, index);
    assert(out == prefix + r + suffix);
    let field = if dec.len() >= n { dec.len() as int } else { n as int };
    assert(r.len() == field);
    assert(out.subrange(0, j) =~= prefix);
    assert(out.subrange(j + field - dec.len(), j + field) =~= dec);
    assert(out.subrange(j + field, out.len() as int) =~= suffix);
    assert forall|t: int| j <= t < j + field - dec.len() implies out[t] == '0' by {
        assert(out[t] == r[t - j]);
    }
    let q = prefix + seq!['%', 'd'] + suffix;
    lemma_plain_prefix(q, 0, j, index);
    assert(q.subrange(0, j) =~= prefix);
    assert(q[j] == '%' && q[j + 1] == 'd');
    assert(digits_end(q, j + 1) == j + 1);
    assert(zeros_end(q, j + 1, j + 1) == j + 1);
    assert(q.subrange(j + 1, j + 1) =~= Seq::<char>::empty());
    lemma_rest_copied(q, j + 2, index);
    assert(q.subrange(j + 2, q.len() as int) =~= suffix);
    assert(output_path(q, index) =~= prefix + dec + suffix);
}

/// The output path for frame `index`: the first printf-style `%d` directive
/// of `pattern` (optionally `%0Nd` or `%Nd`) is replaced by the index.
pub open spec fn output_path(pattern: Seq<char>, index: nat) -> Seq<char> {
    expand_from(pattern, 0, false, index)
}

fn digits_end_exec(p: &Vec<char>, i: usize) -> (k: usize)
    requires
        i <= p@.len(),
    ensures
        k == digits_end(p@, i as int),
{
    proof {
        lemma_digits_end_facts(p@, i as int);
    }
    let mut k = i;
    while k < p.len() && '0' <= p[k] && p[k] <= '9'
        invariant
            i <= k <= p@.len(),
            digits_end(p@, k as int) == digits_end(p@, i as int),
        decreases p@.len() - k,
    {
        k = k + 1;
    }
    k
}

fn zeros_end_exec(p: &Vec<char>, i: usize, k: usize) -> (z: usize)
    requires
        i <= k <= p@.len(),
    ensures
        z == zeros_end(p@, i as int, k as int),
{
    let mut z = i;
    while z < k && p[z] == '0'
        invariant
            i <= z <= k <= p@.len(),
            zeros_end(p@, z as int, k as int) == zeros_end(p@, i as int, k as int),
        decreases k - z,
    {
        z = z + 1;
    }
    z
}

proof fn lemma_digits_value_grows(s: Seq<char>, j: int)
    requires
        0 <= j <= s.len(),
        forall|t: int| 0 <= t < s.len() ==> is_digit(#[trigger] s[t]),
    ensures
        digits_value(s.take(j)) <= digits_value(s),
    decreases s.len() - j,
{
    if j < s.len() {
        lemma_digits_value_grows(s, j + 1);
        assert(s.take(j + 1).drop_last() =~= s.take(j));
    } else {
        assert(s.take(j) =~= s);
    }
}

/// The width a run of digits `p[z..k]` asks for (0 when empty or too large).
fn parse_width(p: &Vec<char>, z: usize, k: usize) -> (w: usize)
    requires
        z <= k <= p@.len(),
        forall|j: int| z <= j < k ==> is_digit(#[trigger] p@[j]),
    ensures
        w == width_of(p@.subrange(z as int, k as int)),
{
    let ghost s = p@.subrange(z as int, k as int);
    let mut v: usize = 0;
    let mut j = z;
    while j < k
        invariant
            z <= j <= k <= p@.len(),
            s == p@.subrange(z as int, k as int),
            forall|t: int| z <= t < k ==> is_digit(#[trigger] p@[t]),
            v == digits_value(s.take(j - z)),
        decreases k - j,
    {
        let d = (p[j] as u32 - '0' as u32) as usize;
        proof {
            assert(s.take(j - z + 1).drop_last() =~= s.take(j - z));
            assert(s[j - z] == p@[j as int]);
            assert(is_digit(p@[j as int]));
        }
        match v.checked_mul(10) {
            Some(t) => match t.checked_add(d) {
                Some(n) => {
                    v = n;
                },
                None => {
                    proof {
                        assert forall|t: int| 0 <= t < s.len() implies is_digit(#[trigger] s[t]) by {
                            assert(s[t] == p@[z + t]);
                        }
                        lemma_digits_value_grows(s, j - z + 1);
                    }
                    return 0;
                },
            },
            None => {
                proof {
                    assert forall|t: int| 0 <= t < s.len() implies is_digit(#[trigger] s[t]) by {
                        assert(s[t] == p@[z + t]);
                    }
                    lemma_digits_value_grows(s, j - z + 1);
                }
                return 0;
            },
        }
        j = j + 1;
    }
    proof {
        assert(s.take(j - z) =~= s);
    }
    v
}

/// Append `n` copies of `fill`.
fn push_fill(out: &mut String, fill: char, n: usize)
    ensures
        final(out)@ == old(out)@ + Seq::new(n as nat, |i: int| fill),
{
    let mut i: usize = 0;
    while i < n
        invariant
            i <= n,
            out@ == old(out)@ + Seq::new(i as nat, |t: int| fill),
        decreases n - i,
    {
        push_char(out, fill);
        i = i + 1;
        proof {
            assert(out@ =~= old(out)@ + Seq::new(i as nat, |t: int| fill));
        }
    }
}

/// Append the rendering of `index` for a `%d` directive.
fn push_rendered(out: &mut String, index: usize, zero_fill: bool, width: usize)
    ensures
        final(out)@ == old(out)@ + render_index(index as nat, zero_fill, width as nat),
{
    let mut digits = String::new();
    push_decimal(&mut digits, index);
    assert(digits@ =~= decimal_spec(index as nat));
    let len = digits.as_str().unicode_len();
    if width > 0 && len < width {
        let fill = if zero_fill {
            '0'
        } else {
            ' '
        };
        push_fill(out, fill, width - len);
    }
    out.append(digits.as_str());
    assert(final(out)@ =~= old(out)@ + render_index(index as nat, zero_fill, width as nat));
}

/// The output path for frame `index`: the first printf-style `%d` directive
/// of `pattern` (`%d`, `%Nd` or `%0Nd`) is replaced by the index, padded to
/// the width with spaces, or with zeros after a leading `0`.
pub fn format_output_path(pattern: &str, index: usize) -> (r: String)
    ensures
        r@ == output_path(pattern@, index as nat),
{
    let p = chars_of(pattern);
    let n = p.len();
    let mut out = String::new();
    let mut i: usize = 0;
    let mut substituted = false;
    while i < n
        invariant
            p@ == pattern@,
            n == p@.len(),
            i <= n,
            out@ + expand_from(p@, i as int, substituted, index as nat) == output_path(
                pattern@,
                index as nat,
            ),
        decreases n - i,
    {
        let c = p[i];
        let ghost before = out@;
        if c == '%' && !substituted {
            let k = digits_end_exec(&p, i + 1);
            proof {
                lemma_digits_end_facts(p@, i + 1);
            }
            let z = zeros_end_exec(&p, i + 1, k);
            proof {
                lemma_zeros_end_facts(p@, i + 1, k as int);
            }
            if k >= n {
                push_range(&mut out, &p, i, k);
                proof {
                    assert(expand_from(p@, k as int, substituted, index as nat) =~= Seq::empty());
                    assert(out@ + expand_from(p@, k as int, substituted, index as nat) =~= out@);
                }
                i = k;
            } else if p[k] == 'd' {
                let w = parse_width(&p, z, k);
                push_rendered(&mut out, index, z > i + 1, w);
                substituted = true;
                proof {
                    assert(out@ + expand_from(p@, k + 1, true, index as nat) =~= before
                        + expand_from(p@, i as int, false, index as nat));
                }
                i = k + 1;
            } else {
                // Not a %d directive: emitted literally.
                push_range(&mut out, &p, i, k);
                push_char(&mut out, p[k]);
                proof {
                    assert(out@ + expand_from(p@, k + 1, false, index as nat) =~= before
                        + expand_from(p@, i as int, false, index as nat));
                }
                i = k + 1;
            }
        } else {
            push_char(&mut out, c);
            proof {
                assert(out@ + expand_from(p@, i + 1, substituted, index as nat) =~= before
                    + expand_from(p@, i as int, substituted, index as nat));
            }
            i = i + 1;
        }
    }
    proof {
        assert(out@ + expand_from(p@, i as int, substituted, index as nat) =~= out@);
    }
    out
}

// ---------------------------------------------------------------------------
// Containers.

/// `mp4`
pub const EXT_MP4: [u8; 3] = [109, 112, 52];
/// `m4v`
pub const EXT_M4V: [u8; 3] = [109, 52, 118];
/// `mkv`
pub const EXT_MKV: [u8; 3] = [109, 107, 118];
/// `webm`
pub const EXT_WEBM: [u8; 4] = [119, 101, 98, 109];
/// `ivf`
pub const EXT_IVF: [u8; 3] = [105, 118, 102];
/// `wav`
pub const EXT_WAV: [u8; 3] = [119, 97, 118];

/// The container format, as a file extension names it.
#[derive(Debug, Clone, Copy, PartialEq, Eq, Structural)]
pub enum ContainerKind {
    Mp4,
    /// Covers both .mkv and .webm.
    Mkv,
    /// Raw IVF container (DKIF magic), commonly used for VP8 test streams.
    Ivf,
}

/// The container a lowercase extension names.
pub open spec fn container_for_extension(e: Seq<u8>) -> Option<ContainerKind> {
    if e == EXT_MP4@ || e == EXT_M4V@ {
        Some(ContainerKind::Mp4)
    } else if e == EXT_MKV@ || e == EXT_WEBM@ {
        Some(ContainerKind::Mkv)
    } else if e == EXT_IVF@ {
        Some(ContainerKind::Ivf)
    } else {
        None
    }
}

/// The container a path names by its extension (compared case-insensitively).
pub open spec fn container_of_path(path: Seq<char>) -> Option<ContainerKind> {
    match path_extension(path) {
        Some(e) => container_for_extension(ascii_lower(vstd::utf8::encode_utf8(e))),
        None => None,
    }
}

impl ContainerKind {
    /// Detect the container format from the file extension.
    pub fn from_path(path: &str) -> (r: Option<Self>)
        ensures
            r == container_of_path(path@),
    {
        match extension_of_path(path) {
            Some(e) => {
                let lower = crate::asset::lower_ascii(e.as_str().as_bytes());
                let l = lower.as_slice();
                if eq_bytes(l, &EXT_MP4) || eq_bytes(l, &EXT_M4V) {
                    Some(ContainerKind::Mp4)
                } else if eq_bytes(l, &EXT_MKV) || eq_bytes(l, &EXT_WEBM) {
                    Some(ContainerKind::Mkv)
                } else if eq_bytes(l, &EXT_IVF) {
                    Some(ContainerKind::Ivf)
                } else {
                    None
                }
            },
            None => None,
        }
    }
}

/// The error for a path whose extension names no container.
pub open spec fn unknown_container_message(path: Seq<char>) -> Seq<char> {
    "unrecognised container extension: '"@ + path + "'"@
}

/// The error for a path whose extension names no container.
pub fn unknown_container(path: &str) -> (r: Error)
    ensures
        r.is_unsupported(unknown_container_message(path@)),
{
    let mut s = String::from_str("unrecognised container extension: '");
    s.append(path);
    s.append("'");
    proof {
        assert(s@ =~= unknown_container_message(path@));
    }
    Error::UnsupportedFormat(s)
}

// ---------------------------------------------------------------------------
// Frame extraction.

/// Result of a frame-extraction run.
#[derive(Debug)]
pub struct ExtractResult {
    /// Paths of the image files written.
    pub frame_paths: Vec<String>,
    /// Number of video packets skipped (undecodable frames).
    pub skipped: usize,
    /// Number of streams in the container.
    pub stream_count: usize,
}

impl Default for ExtractResult {
    fn default() -> (r: Self)
        ensures
            r.frame_paths@.len() == 0,
            r.skipped == 0,
            r.stream_count == 0,
    {
        ExtractResult { frame_paths: Vec::new(), skipped: 0, stream_count: 0 }
    }
}

/// The pixel decoders this build has. VP8 is decoded in pure Rust; VP9 and
/// H.264 need optional native decoders that are not built in.
pub open spec fn decoder_message(codec: CodecId) -> Option<Seq<char>> {
    match codec {
        CodecId::Vp8 => None,
        CodecId::Vp9 => Some(
            "no pixel decoder available for VP9 — enable the `vp9` feature flag to decode VP9 with libdav1d"@,
        ),
        CodecId::H264 => Some(
            "no pixel decoder available for H.264 — enable the `h264` feature flag to decode H.264 with OpenH264"@,
        ),
        _ => Some("no pixel decoder available for "@ + codec.spec_name()),
    }
}

/// Whether a pixel decoder exists for `codec`; the error says which feature
/// would provide one.
pub fn check_decoder(codec: &CodecId) -> (r: Result<(), Error>)
    ensures
        match decoder_message(*codec) {
            None => r is Ok,
            Some(m) => (r matches Err(e) && e.is_video(m)),
        },
{
    match codec {
        CodecId::Vp8 => Ok(()),
        CodecId::Vp9 => Err(
            Error::Video(
                String::from_str(
                    "no pixel decoder available for VP9 — enable the `vp9` feature flag to decode VP9 with libdav1d",
                ),
            ),
        ),
        CodecId::H264 => Err(
            Error::Video(
                String::from_str(
                    "no pixel decoder available for H.264 — enable the `h264` feature flag to decode H.264 with OpenH264",
                ),
            ),
        ),
        _ => {
            let mut s = String::from_str("no pixel decoder available for ");
            let name = codec.name();
            s.append(name.as_str());
            proof {
                assert(s@ =~= "no pixel decoder available for "@ + codec.spec_name());
            }
            Err(Error::Video(s))
        },
    }
}

/// The index (in `streams`) of the first stream of `kind`.
pub open spec fn first_of_kind(streams: Seq<StreamInfo>, kind: StreamKind) -> Option<int> {
    if exists|i: int| 0 <= i < streams.len() && streams[i].kind == kind {
        Some(
            choose|i: int|
                0 <= i < streams.len() && streams[i].kind == kind && forall|j: int|
                    0 <= j < i ==> streams[j].kind != kind,
        )
    } else {
        None
    }
}

fn find_first_of_kind(streams: &[StreamInfo], kind: StreamKind) -> (r: Option<usize>)
    ensures
        match r {
            Some(i) => i < streams@.len() && streams@[i as int].kind == kind && forall|j: int|
                0 <= j < i ==> streams@[j].kind != kind,
            None => forall|j: int| 0 <= j < streams@.len() ==> streams@[j].kind != kind,
        },
        r matches Some(i) ==> first_of_kind(streams@, kind) == Some(i as int),
        r is None ==> first_of_kind(streams@, kind) is None,
{
    let mut i: usize = 0;
    while i < streams.len()
        invariant
            i <= streams@.len(),
            forall|j: int| 0 <= j < i ==> streams@[j].kind != kind,
        decreases streams@.len() - i,
    {
        if streams[i].kind == kind {
            proof {
                let w = choose|w: int|
                    0 <= w < streams@.len() && streams@[w].kind == kind && forall|j: int|
                        0 <= j < w ==> streams@[j].kind != kind;
                if w < i {
                } else if w > i {
                    assert(streams@[i as int].kind != kind);
                }
            }
            return Some(i);
        }
        i = i + 1;
    }
    None
}

/// The progress of one frame-extraction run: frames number `start` to
/// `start + count - 1` among the decodable frames of the first video stream
/// are written, the `i`-th of them to `output_path(pattern, i)`.
pub struct FrameExtraction {
    /// The stream index of the video stream whose packets are decoded.
    pub video_index: usize,
    pub pattern: String,
    pub start: usize,
    pub count: usize,
    /// Frames decoded so far.
    pub decoded: usize,
    pub result: ExtractResult,
}

impl FrameExtraction {
    /// The run's invariant.
    pub open spec fn wf(&self) -> bool {
        &&& self.start + self.count <= usize::MAX
        &&& self.result.frame_paths@.len() == (if self.decoded >= self.start {
            self.decoded - self.start
        } else {
            0
        })
        &&& self.result.frame_paths@.len() <= self.count
        &&& forall|i: int|
            0 <= i < self.result.frame_paths@.len() ==> #[trigger] self.result.frame_paths@[i]@
                == output_path(self.pattern@, i as nat)
    }

    /// Whether the run wants another video packet.
    pub open spec fn spec_wants_more(&self) -> bool {
        &&& self.result.frame_paths@.len() < self.count
        &&& !(self.count > 0 && self.decoded >= self.start + self.count)
    }

    /// Start a run over the container's `streams`: its first video stream is
    /// decoded, if a decoder exists for its codec.
    pub fn begin(streams: &[StreamInfo], pattern: &str, start: usize, count: usize) -> (r: Result<
        FrameExtraction,
        Error,
    >)
        requires
            start + count <= usize::MAX,
        ensures
            match first_of_kind(streams@, StreamKind::Video) {
                None => (r matches Err(e) && e.is_video("no video stream found in container"@)),
                Some(v) => match decoder_message(streams@[v].codec) {
                    Some(m) => (r matches Err(e) && e.is_video(m)),
                    None => (r matches Ok(x) && x.wf() && x.video_index == streams@[v].index
                        && x.pattern@ == pattern@ && x.start == start && x.count == count
                        && x.decoded == 0 && x.result.skipped == 0 && x.result.stream_count
                        == streams@.len()),
                },
            },
    {
        match find_first_of_kind(streams, StreamKind::Video) {
            None => Err(Error::Video(String::from_str("no video stream found in container"))),
            Some(v) => {
                match check_decoder(&streams[v].codec) {
                    Err(e) => Err(e),
                    Ok(()) => {
                        let mut result = ExtractResult::default();
                        result.stream_count = streams.len();
                        Ok(
                            FrameExtraction {
                                video_index: streams[v].index,
                                pattern: String::from_str(pattern),
                                start,
                                count,
                                decoded: 0,
                                result,
                            },
                        )
                    },
                }
            },
        }
    }

    /// Whether the run wants another video packet.
    pub fn wants_more(&self) -> (r: bool)
        requires
            self.wf(),
        ensures
            r == self.spec_wants_more(),
    {
        let written = self.result.frame_paths.len();
        !(written >= self.count) && !(self.count > 0 && self.decoded >= self.start + self.count)
    }

    /// A frame decoded: the path to write it to, when it is one of the frames
    /// the run keeps.
    pub fn on_decoded(&mut self) -> (r: Option<String>)
        requires
            old(self).wf(),
            old(self).spec_wants_more(),
        ensures
            final(self).wf(),
            final(self).decoded == old(self).decoded + 1,
            final(self).video_index == old(self).video_index,
            final(self).pattern == old(self).pattern,
            final(self).start == old(self).start,
            final(self).count == old(self).count,
            final(self).result.skipped == old(self).result.skipped,
            final(self).result.stream_count == old(self).result.stream_count,
            old(self).decoded >= old(self).start ==> (r matches Some(p) && p@ == output_path(
                old(self).pattern@,
                (old(self).decoded - old(self).start) as nat,
            ) && final(self).result.frame_paths@ == old(self).result.frame_paths@.push(p)),
            old(self).decoded < old(self).start ==> r is None && final(self).result.frame_paths
                == old(self).result.frame_paths,
    {
        let r = if self.decoded >= self.start {
            let path = format_output_path(self.pattern.as_str(), self.decoded - self.start);
            self.result.frame_paths.push(path.clone());
            Some(path)
        } else {
            None
        };
        self.decoded = self.decoded + 1;
        r
    }

    /// A packet of the video stream could not be decoded.
    pub fn on_skipped(&mut self)
        requires
            old(self).result.skipped < usize::MAX,
        ensures
            final(self).result.skipped == old(self).result.skipped + 1,
            final(self).result.frame_paths == old(self).result.frame_paths,
            final(self).decoded == old(self).decoded,
            final(self).video_index == old(self).video_index,
            final(self).pattern == old(self).pattern,
            final(self).start == old(self).start,
            final(self).count == old(self).count,
            final(self).result.stream_count == old(self).result.stream_count,
    {
        self.result.skipped = self.result.skipped + 1;
    }
}

// ---------------------------------------------------------------------------
// Audio extraction.

/// Why audio cannot be taken from an MP4 source.
pub open spec fn mp4_audio_message() -> Seq<char> {
    "audio extraction from MP4 is not yet supported (AAC decoder not implemented). Use a WebM/MKV source with PCM audio, or extract audio externally first."@
}

/// Why audio cannot be taken from an IVF source.
pub open spec fn ivf_audio_message() -> Seq<char> {
    "IVF containers carry video only — no audio stream."@
}

/// Why Vorbis audio cannot be taken from a Matroska source.
pub open spec fn vorbis_audio_message() -> Seq<char> {
    "Vorbis audio extraction from WebM requires raw-packet decoding (Ogg re-wrapping not yet implemented). Convert the WebM to an Ogg Vorbis file first with an external tool."@
}

/// Whether an audio extraction from `input` to `output` can proceed: only
/// WAV output (the extension `wav`, compared exactly) from Matroska/WebM
/// sources is supported. `Ok` means the Matroska source is to be read.
pub fn extract_audio(input: &str, output: &str) -> (r: Result<(), Error>)
    ensures
        match path_extension(output@) {
            None => (r matches Err(e) && e.is_unsupported("output has no extension"@)),
            Some(ext) => if ext != seq!['w', 'a', 'v'] {
                (r matches Err(e) && e.is_unsupported(
                    "audio extraction only supports WAV output; got '."@ + ext + "'"@,
                ))
            } else {
                match container_of_path(input@) {
                    None => (r matches Err(e) && e.is_unsupported(unknown_container_message(input@))),
                    Some(ContainerKind::Mp4) => (r matches Err(e) && e.is_video(mp4_audio_message())),
                    Some(ContainerKind::Ivf) => (r matches Err(e) && e.is_video(ivf_audio_message())),
                    Some(ContainerKind::Mkv) => r is Ok,
                }
            },
        },
{
    let ext = match extension_of_path(output) {
        Some(e) => e,
        None => {
            return Err(Error::UnsupportedFormat(String::from_str("output has no extension")));
        },
    };
    let c = chars_of(ext.as_str());
    let is_wav = c.len() == 3 && c[0] == 'w' && c[1] == 'a' && c[2] == 'v';
    proof {
        if c@.len() == 3 && c@[0] == 'w' && c@[1] == 'a' && c@[2] == 'v' {
            assert(ext@ =~= seq!['w', 'a', 'v']);
        }
    }
    if !is_wav {
        let mut m = String::from_str("audio extraction only supports WAV output; got '.");
        m.append(ext.as_str());
        m.append("'");
        proof {
            assert(m@ =~= "audio extraction only supports WAV output; got '."@ + ext@ + "'"@);
        }
        return Err(Error::UnsupportedFormat(m));
    }
    match ContainerKind::from_path(input) {
        None => Err(unknown_container(input)),
        Some(ContainerKind::Mp4) => Err(
            Error::Video(
                String::from_str(
                    "audio extraction from MP4 is not yet supported (AAC decoder not implemented). Use a WebM/MKV source with PCM audio, or extract audio externally first.",
                ),
            ),
        ),
        Some(ContainerKind::Ivf) => Err(
            Error::Video(String::from_str("IVF containers carry video only — no audio stream.")),
        ),
        Some(ContainerKind::Mkv) => Ok(()),
    }
}

/// Which audio stream of a Matroska source can be extracted: the first audio
/// stream, if its codec is PCM (its position in `streams`).
pub fn mkv_audio_source(streams: &[StreamInfo]) -> (r: Result<usize, Error>)
    ensures
        match first_of_kind(streams@, StreamKind::Audio) {
            None => (r matches Err(e) && e.is_video("no audio stream in container"@)),
            Some(a) => match streams@[a].codec {
                CodecId::Pcm => r == Ok::<usize, Error>(a as usize),
                CodecId::Vorbis => (r matches Err(e) && e.is_video(vorbis_audio_message())),
                _ => (r matches Err(e) && e.is_video(
                    "audio codec "@ + streams@[a].codec.spec_name()
                        + " extraction from MKV not yet supported"@,
                )),
            },
        },
{
    match find_first_of_kind(streams, StreamKind::Audio) {
        None => Err(Error::Video(String::from_str("no audio stream in container"))),
        Some(a) => match &streams[a].codec {
            CodecId::Pcm => Ok(a),
            CodecId::Vorbis => Err(
                Error::Video(
                    String::from_str(
                        "Vorbis audio extraction from WebM requires raw-packet decoding (Ogg re-wrapping not yet implemented). Convert the WebM to an Ogg Vorbis file first with an external tool.",
                    ),
                ),
            ),
            other => {
                let mut m = String::from_str("audio codec ");
                let name = other.name();
                m.append(name.as_str());
                m.append(" extraction from MKV not yet supported");
                proof {
                    assert(m@ =~= "audio codec "@ + streams@[a as int].codec.spec_name()
                        + " extraction from MKV not yet supported"@);
                }
                Err(Error::Video(m))
            },
        },
    }
}

/// The sample rate and channel count a PCM track is read with: at least
/// 8000 Hz and one channel.
pub fn pcm_format(stream: &StreamInfo) -> (r: (u32, u16))
    ensures
        r.0 == (if stream.sample_rate >= 8000 {
            stream.sample_rate
        } else {
            8000
        }),
        r.1 == (if stream.channels >= 1 {
            stream.channels
        } else {
            1
        }),
{
    let rate = if stream.sample_rate >= 8000 {
        stream.sample_rate
    } else {
        8000
    };
    let channels = if stream.channels >= 1 {
        stream.channels
    } else {
        1
    };
    (rate, channels)
}

/// The signed 16-bit little-endian value of two bytes.
pub open spec fn le_i16(lo: u8, hi: u8) -> int {
    let u = lo as int + hi as int * 256;
    if u >= 0x8000 {
        u - 0x1_0000
    } else {
        u
    }
}

/// Raw PCM bytes as signed 16-bit little-endian samples; a trailing odd byte
/// is ignored.
pub fn pcm_i16_samples(raw: &[u8]) -> (r: Vec<i16>)
    ensures
        r@.len() == raw@.len() / 2,
        forall|i: int| 0 <= i < r@.len() ==> #[trigger] r@[i] == le_i16(raw@[2 * i], raw@[2 * i + 1]),
{
    let n = raw.len() / 2;
    let mut out: Vec<i16> = Vec::new();
    let mut i: usize = 0;
    while i < n
        invariant
            n == raw@.len() / 2,
            raw@.len() <= usize::MAX,
            i <= n,
            out@.len() == i,
            forall|j: int| 0 <= j < i ==> #[trigger] out@[j] == le_i16(raw@[2 * j], raw@[2 * j + 1]),
        decreases n - i,
    {
        assert(2 * i + 1 < raw@.len());
        let lo = raw[2 * i];
        let hi = raw[2 * i + 1];
        let u: u16 = (hi as u16) * 256 + lo as u16;
        let v: i16 = if u >= 0x8000 {
            (u as i32 - 0x1_0000) as i16
        } else {
            u as i16
        };
        out.push(v);
        i = i + 1;
    }
    out
}


/// `mp4` and `m4v` name an MP4 file, `mkv` and `webm` a Matroska one and
/// `ivf` an IVF one, each in any mix of cases.
pub proof fn law_container_extensions(ext: Seq<u8>)
    ensures
        spells(ext, "mp4"@) || spells(ext, "m4v"@) ==> container_for_extension(ascii_lower(ext)) == Some(
            ContainerKind::Mp4,
        ),
        spells(ext, "mkv"@) || spells(ext, "webm"@) ==> container_for_extension(ascii_lower(ext)) == Some(
            ContainerKind::Mkv,
        ),
        spells(ext, "ivf"@) ==> container_for_extension(ascii_lower(ext)) == Some(ContainerKind::Ivf),
{
    reveal_strlit("mp4");
    reveal_strlit("m4v");
    reveal_strlit("mkv");
    reveal_strlit("webm");
    reveal_strlit("ivf");
    if spells(ext, "mp4"@) {
        lemma_lower_spelling(ext, "mp4"@);
        assert(ascii_lower(ext) =~= seq![109u8, 112u8, 52u8]);
    }
    if spells(ext, "m4v"@) {
        lemma_lower_spelling(ext, "m4v"@);
        assert(ascii_lower(ext) =~= seq![109u8, 52u8, 118u8]);
    }
    if spells(ext, "mkv"@) {
        lemma_lower_spelling(ext, "mkv"@);
        assert(ascii_lower(ext) =~= seq![109u8, 107u8, 118u8]);
    }
    if spells(ext, "webm"@) {
        lemma_lower_spelling(ext, "webm"@);
        assert(ascii_lower(ext) =~= seq![119u8, 101u8, 98u8, 109u8]);
    }
    if spells(ext, "ivf"@) {
        lemma_lower_spelling(ext, "ivf"@);
        assert(ascii_lower(ext) =~= seq![105u8, 118u8, 102u8]);
    }
}

} // verus!
