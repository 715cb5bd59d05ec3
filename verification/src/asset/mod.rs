//! Content-addressed media assets: ids, kinds, sources and metadata, and the
//! dependency graph between assets.
//!
//! Identical sources collapse to one [`AssetId`]: the id is the 64-bit FNV-1a
//! hash of the source's bytes (or of its path).

pub mod extensions;
pub mod graph;
pub mod manager;

use std::sync::Arc;
use vstd::prelude::*;
use vstd::string::StringSliceAdditionalSpecFns;

use crate::text::{chars_of, push_range};

verus! {

/// A content-addressed asset identifier (identical sources give identical ids).
#[derive(Debug, Clone, Copy, PartialEq, Eq, Hash, PartialOrd, Ord)]
pub struct AssetId(pub u64);

/// The 64-bit FNV-1a offset basis.
pub const FNV_OFFSET: u64 = 0xcbf2_9ce4_8422_2325;

/// The 64-bit FNV prime.
pub const FNV_PRIME: u64 = 0x0000_0100_0000_01b3;

/// 64-bit FNV-1a of `bytes`: starting from the offset basis, each byte is
/// xored in and the state multiplied by the prime, modulo 2^64.
pub open spec fn fnv1a_spec(bytes: Seq<u8>) -> u64
    decreases bytes.len(),
{
    if bytes.len() == 0 {
        FNV_OFFSET
    } else {
        (fnv1a_spec(bytes.drop_last()) ^ (bytes.last() as u64)).wrapping_mul(FNV_PRIME)
    }
}

fn fnv1a(bytes: &[u8]) -> (h: u64)
    ensures
        h == fnv1a_spec(bytes@),
{
    let mut h: u64 = FNV_OFFSET;
    let mut i: usize = 0;
    while i < bytes.len()
        invariant
            i <= bytes@.len(),
            h == fnv1a_spec(bytes@.take(i as int)),
        decreases bytes@.len() - i,
    {
        proof {
            assert(bytes@.take(i as int + 1).drop_last() =~= bytes@.take(i as int));
        }
        h = (h ^ (bytes[i] as u64)).wrapping_mul(FNV_PRIME);
        i = i + 1;
    }
    proof {
        assert(bytes@.take(i as int) =~= bytes@);
    }
    h
}

impl AssetId {
    /// Id derived from raw bytes (content addressing gives deduplication).
    pub fn of_bytes(bytes: &[u8]) -> (r: Self)
        ensures
            r.0 == fnv1a_spec(bytes@),
    {
        AssetId(fnv1a(bytes))
    }

    /// Id derived from a string (e.g. a file path): the hash of its UTF-8 bytes.
    pub fn of_str(s: &str) -> (r: Self)
        ensures
            r.0 == fnv1a_spec(s.spec_bytes()),
    {
        AssetId(fnv1a(s.as_bytes()))
    }
}

/// The category of an asset.
#[derive(Debug, Clone, Copy, PartialEq, Eq, Hash)]
pub enum AssetKind {
    Image,
    Video,
    Audio,
    Font,
    Lut,
    Mask,
    Sticker,
    Svg,
    Lottie,
    Subtitle,
}

/// `png`
pub const EXT_PNG: [u8; 3] = [112, 110, 103];
/// `jpg`
pub const EXT_JPG: [u8; 3] = [106, 112, 103];
/// `jpeg`
pub const EXT_JPEG: [u8; 4] = [106, 112, 101, 103];
/// `gif`
pub const EXT_GIF: [u8; 3] = [103, 105, 102];
/// `webp`
pub const EXT_WEBP: [u8; 4] = [119, 101, 98, 112];
/// `bmp`
pub const EXT_BMP: [u8; 3] = [98, 109, 112];
/// `mp4`
pub const EXT_MP4: [u8; 3] = [109, 112, 52];
/// `webm`
pub const EXT_WEBM: [u8; 4] = [119, 101, 98, 109];
/// `mkv`
pub const EXT_MKV: [u8; 3] = [109, 107, 118];
/// `mov`
pub const EXT_MOV: [u8; 3] = [109, 111, 118];
/// `ivf`
pub const EXT_IVF: [u8; 3] = [105, 118, 102];
/// `wav`
pub const EXT_WAV: [u8; 3] = [119, 97, 118];
/// `mp3`
pub const EXT_MP3: [u8; 3] = [109, 112, 51];
/// `flac`
pub const EXT_FLAC: [u8; 4] = [102, 108, 97, 99];
/// `ogg`
pub const EXT_OGG: [u8; 3] = [111, 103, 103];
/// `aac`
pub const EXT_AAC: [u8; 3] = [97, 97, 99];
/// `m4a`
pub const EXT_M4A: [u8; 3] = [109, 52, 97];
/// `opus`
pub const EXT_OPUS: [u8; 4] = [111, 112, 117, 115];
/// `ttf`
pub const EXT_TTF: [u8; 3] = [116, 116, 102];
/// `otf`
pub const EXT_OTF: [u8; 3] = [111, 116, 102];
/// `woff`
pub const EXT_WOFF: [u8; 4] = [119, 111, 102, 102];
/// `woff2`
pub const EXT_WOFF2: [u8; 5] = [119, 111, 102, 102, 50];
/// `cube`
pub const EXT_CUBE: [u8; 4] = [99, 117, 98, 101];
/// `svg`
pub const EXT_SVG: [u8; 3] = [115, 118, 103];
/// `lottie`
pub const EXT_LOTTIE: [u8; 6] = [108, 111, 116, 116, 105, 101];
/// `srt`
pub const EXT_SRT: [u8; 3] = [115, 114, 116];
/// `vtt`
pub const EXT_VTT: [u8; 3] = [118, 116, 116];
/// `ass`
pub const EXT_ASS: [u8; 3] = [97, 115, 115];
/// `ssa`
pub const EXT_SSA: [u8; 3] = [115, 115, 97];

/// ASCII lowercasing of a byte: `A`..=`Z` map to `a`..=`z`, all else is kept.
pub open spec fn ascii_lower_byte(b: u8) -> u8 {
    if 65 <= b <= 90 {
        (b + 32) as u8
    } else {
        b
    }
}

/// ASCII lowercasing of a byte string.
pub open spec fn ascii_lower(s: Seq<u8>) -> Seq<u8> {
    s.map_values(|b: u8| ascii_lower_byte(b))
}

/// The kind that a lowercase extension names.
pub open spec fn kind_for_extension(e: Seq<u8>) -> Option<AssetKind> {
    if e == EXT_PNG@ || e == EXT_JPG@ || e == EXT_JPEG@ || e == EXT_GIF@ || e == EXT_WEBP@
        || e == EXT_BMP@ {
        Some(AssetKind::Image)
    } else if e == EXT_MP4@ || e == EXT_WEBM@ || e == EXT_MKV@ || e == EXT_MOV@ || e == EXT_IVF@ {
        Some(AssetKind::Video)
    } else if e == EXT_WAV@ || e == EXT_MP3@ || e == EXT_FLAC@ || e == EXT_OGG@ || e == EXT_AAC@
        || e == EXT_M4A@ || e == EXT_OPUS@ {
        Some(AssetKind::Audio)
    } else if e == EXT_TTF@ || e == EXT_OTF@ || e == EXT_WOFF@ || e == EXT_WOFF2@ {
        Some(AssetKind::Font)
    } else if e == EXT_CUBE@ {
        Some(AssetKind::Lut)
    } else if e == EXT_SVG@ {
        Some(AssetKind::Svg)
    } else if e == EXT_LOTTIE@ {
        Some(AssetKind::Lottie)
    } else if e == EXT_SRT@ || e == EXT_VTT@ || e == EXT_ASS@ || e == EXT_SSA@ {
        Some(AssetKind::Subtitle)
    } else {
        None
    }
}

/// Byte-wise equality of two slices.
pub fn eq_bytes(a: &[u8], b: &[u8]) -> (r: bool)
    ensures
        r == (a@ == b@),
{
    if a.len() != b.len() {
        return false;
    }
    let mut i: usize = 0;
    while i < a.len()
        invariant
            a@.len() == b@.len(),
            i <= a@.len(),
            forall|j: int| 0 <= j < i ==> a@[j] == b@[j],
        decreases a@.len() - i,
    {
        if a[i] != b[i] {
            return false;
        }
        i = i + 1;
    }
    assert(a@ =~= b@);
    true
}

pub(crate) fn lower_ascii(s: &[u8]) -> (r: Vec<u8>)
    ensures
        r@ == ascii_lower(s@),
{
    let mut out: Vec<u8> = Vec::new();
    let mut i: usize = 0;
    while i < s.len()
        invariant
            i <= s@.len(),
            out@ == ascii_lower(s@.take(i as int)),
        decreases s@.len() - i,
    {
        let b = s[i];
        let l = if 65 <= b && b <= 90 {
            b + 32
        } else {
            b
        };
        out.push(l);
        proof {
            assert(ascii_lower(s@.take(i as int + 1)) =~= ascii_lower(s@.take(i as int)).push(l));
        }
        i = i + 1;
    }
    proof {
        assert(s@.take(i as int) =~= s@);
    }
    out
}

impl AssetKind {
    /// Guess the kind from a file extension, compared case-insensitively
    /// (ASCII letters).
    pub fn from_extension(ext: &str) -> (r: Option<Self>)
        ensures
            r == kind_for_extension(ascii_lower(ext.spec_bytes())),
    {
        let lower = lower_ascii(ext.as_bytes());
        let e = lower.as_slice();
        if eq_bytes(e, &EXT_PNG) || eq_bytes(e, &EXT_JPG) || eq_bytes(e, &EXT_JPEG) || eq_bytes(
            e,
            &EXT_GIF,
        ) || eq_bytes(e, &EXT_WEBP) || eq_bytes(e, &EXT_BMP) {
            Some(AssetKind::Image)
        } else if eq_bytes(e, &EXT_MP4) || eq_bytes(e, &EXT_WEBM) || eq_bytes(e, &EXT_MKV)
            || eq_bytes(e, &EXT_MOV) || eq_bytes(e, &EXT_IVF) {
            Some(AssetKind::Video)
        } else if eq_bytes(e, &EXT_WAV) || eq_bytes(e, &EXT_MP3) || eq_bytes(e, &EXT_FLAC)
            || eq_bytes(e, &EXT_OGG) || eq_bytes(e, &EXT_AAC) || eq_bytes(e, &EXT_M4A) || eq_bytes(
            e,
            &EXT_OPUS,
        ) {
            Some(AssetKind::Audio)
        } else if eq_bytes(e, &EXT_TTF) || eq_bytes(e, &EXT_OTF) || eq_bytes(e, &EXT_WOFF)
            || eq_bytes(e, &EXT_WOFF2) {
            Some(AssetKind::Font)
        } else if eq_bytes(e, &EXT_CUBE) {
            Some(AssetKind::Lut)
        } else if eq_bytes(e, &EXT_SVG) {
            Some(AssetKind::Svg)
        } else if eq_bytes(e, &EXT_LOTTIE) {
            Some(AssetKind::Lottie)
        } else if eq_bytes(e, &EXT_SRT) || eq_bytes(e, &EXT_VTT) || eq_bytes(e, &EXT_ASS)
            || eq_bytes(e, &EXT_SSA) {
            Some(AssetKind::Subtitle)
        } else {
            None
        }
    }
}

/// The index of the last `c` in `p[0..end]`, or -1 when there is none.
pub open spec fn last_of(p: Seq<char>, end: int, c: char) -> int
    decreases end,
{
    if end <= 0 {
        -1
    } else if p[end - 1] == c {
        end - 1
    } else {
        last_of(p, end - 1, c)
    }
}

pub proof fn lemma_last_of(p: Seq<char>, end: int, c: char)
    requires
        end <= p.len(),
    ensures
        -1 <= last_of(p, end, c) < end || (end <= 0 && last_of(p, end, c) == -1),
        last_of(p, end, c) >= 0 ==> p[last_of(p, end, c)] == c,
        forall|j: int| last_of(p, end, c) < j < end ==> #[trigger] p[j] != c,
    decreases end,
{
    if end > 0 && p[end - 1] != c {
        lemma_last_of(p, end - 1, c);
    }
}

/// The final name of the Unix path `p[0..end]`: the text after its last
/// `/`, skipping empty and `.` components that follow a slash; a path with
/// no such name (empty, the root, a leading `.`, or ending in `..`) has none.
pub open spec fn file_name_in(p: Seq<char>, end: int) -> Option<Seq<char>>
    decreases end,
{
    if end <= 0 || end > p.len() {
        None
    } else {
        let s = last_of(p, end, '/');
        proof {
            lemma_last_of(p, end, '/');
        }
        let seg = p.subrange(s + 1, end);
        if s >= 0 && (seg.len() == 0 || seg == seq!['.']) {
            file_name_in(p, s)
        } else if seg == seq!['.'] || seg == seq!['.', '.'] {
            None
        } else {
            Some(seg)
        }
    }
}

/// The extension of a file name: the text after its last `.`, when that
/// `.` is not the name's first character.
pub open spec fn name_extension(name: Seq<char>) -> Option<Seq<char>> {
    let d = last_of(name, name.len() as int, '.');
    if d <= 0 {
        None
    } else {
        Some(name.subrange(d + 1, name.len() as int))
    }
}

/// The extension of a Unix path, as `std::path::Path::extension` gives it
/// there: that of the path's final name.
pub open spec fn path_extension(path: Seq<char>) -> Option<Seq<char>> {
    match file_name_in(path, path.len() as int) {
        Some(name) => name_extension(name),
        None => None,
    }
}

/// The index of the last `c` in `p[0..end]`.
fn last_index_of(p: &Vec<char>, end: usize, c: char) -> (r: Option<usize>)
    requires
        end <= p@.len(),
    ensures
        match r {
            Some(i) => i as int == last_of(p@, end as int, c),
            None => last_of(p@, end as int, c) == -1,
        },
{
    let mut e = end;
    while e > 0
        invariant
            e <= end <= p@.len(),
            last_of(p@, end as int, c) == last_of(p@, e as int, c),
        decreases e,
    {
        if p[e - 1] == c {
            return Some(e - 1);
        }
        e = e - 1;
    }
    None
}

/// The extension of the Unix path `path`, as `std::path::Path::extension`
/// gives it there.
pub(crate) fn extension_of_path(path: &str) -> (r: Option<String>)
    ensures
        r.is_some() == path_extension(path@).is_some(),
        r matches Some(e) ==> e@ == path_extension(path@)->0,
{
    let p = chars_of(path);
    let n = p.len();
    let mut end = n;
    let mut start: usize = 0;
    // Find the final name: skip empty and `.` components after a slash.
    loop
        invariant_except_break
            p@ == path@,
            n == p@.len(),
            end <= n,
            file_name_in(p@, n as int) == file_name_in(p@, end as int),
        ensures
            p@ == path@,
            n == p@.len(),
            start <= end <= n,
            file_name_in(p@, n as int) == Some(p@.subrange(start as int, end as int)),
        decreases end,
    {
        if end == 0 {
            return None;
        }
        let s = last_index_of(&p, end, '/');
        proof {
            lemma_last_of(p@, end as int, '/');
        }
        start = match s {
            Some(i) => i + 1,
            None => 0,
        };
        let seg_len = end - start;
        let dot = seg_len == 1 && p[start] == '.';
        let dotdot = seg_len == 2 && p[start] == '.' && p[start + 1] == '.';
        proof {
            let seg = p@.subrange(start as int, end as int);
            if seg_len == 1 {
                assert(dot == (seg == seq!['.'])) by {
                    if seg == seq!['.'] {
                        assert(seg[0] == p@[start as int]);
                    }
                    if dot {
                        assert(seg =~= seq!['.']);
                    }
                }
            } else {
                assert(seg != seq!['.']) by {
                    assert(seg.len() != 1);
                }
            }
            if seg_len == 2 {
                assert(dotdot == (seg == seq!['.', '.'])) by {
                    if seg == seq!['.', '.'] {
                        assert(seg[0] == p@[start as int]);
                        assert(seg[1] == p@[start + 1]);
                    }
                    if dotdot {
                        assert(seg =~= seq!['.', '.']);
                    }
                }
            } else {
                assert(seg != seq!['.', '.']) by {
                    assert(seg.len() != 2);
                }
            }
        }
        match s {
            Some(i) => {
                if seg_len == 0 || dot {
                    end = i;
                    continue ;
                }
            },
            None => {},
        }
        if dot || dotdot {
            return None;
        }
        break ;
    }
    let stop = end;
    let ghost name = p@.subrange(start as int, stop as int);
    // The extension: after the name's last `.`, unless that starts the name.
    let d = last_index_of(&p, stop, '.');
    proof {
        lemma_last_of(p@, stop as int, '.');
        lemma_last_of(name, name.len() as int, '.');
        lemma_last_of_shift(p@, start as int, stop as int, '.');
    }
    match d {
        Some(i) => {
            if i <= start {
                None
            } else {
                let mut e = String::new();
                push_range(&mut e, &p, i + 1, stop);
                assert(e@ =~= name.subrange(i - start + 1, name.len() as int));
                Some(e)
            }
        },
        None => None,
    }
}

/// The last `c` in a slice of `p` is the last in `p` up to the slice's end,
/// shifted, when it falls inside the slice.
proof fn lemma_last_of_shift(p: Seq<char>, start: int, stop: int, c: char)
    requires
        0 <= start <= stop <= p.len(),
    ensures
        ({
            let k = last_of(p, stop, c);
            let j = last_of(p.subrange(start, stop), stop - start, c);
            &&& k >= start ==> j == k - start
            &&& k < start ==> j == -1
        }),
    decreases stop - start,
{
    let q = p.subrange(start, stop);
    if stop > start {
        assert(q[stop - start - 1] == p[stop - 1]);
        if p[stop - 1] != c {
            lemma_last_of_shift(p, start, stop - 1, c);
            lemma_last_of_same(q, p.subrange(start, stop - 1), stop - start - 1, c);
        }
    } else {
        lemma_last_of(p, stop, c);
    }
}

/// `last_of` agrees on two sequences that agree below `end`.
proof fn lemma_last_of_same(a: Seq<char>, b: Seq<char>, end: int, c: char)
    requires
        end <= a.len(),
        end <= b.len(),
        forall|j: int| 0 <= j < end ==> a[j] == b[j],
    ensures
        last_of(a, end, c) == last_of(b, end, c),
    decreases end,
{
    if end > 0 {
        lemma_last_of_same(a, b, end - 1, c);
    }
}

/// Where an asset's bytes come from.
#[derive(Debug, Clone)]
pub enum AssetSource {
    /// A file on disk, by its path.
    File(String),
    /// In-memory bytes (the portable path; how the web host supplies assets).
    Bytes(Arc<Vec<u8>>),
}

impl AssetSource {
    /// The content-addressed id of this source: the hash of the path for a
    /// file, of the bytes for in-memory data.
    pub fn id(&self) -> (r: AssetId)
        ensures
            r.0 == match self {
                AssetSource::File(p) => fnv1a_spec(vstd::utf8::encode_utf8(p@)),
                AssetSource::Bytes(b) => fnv1a_spec((**b)@),
            },
    {
        match self {
            AssetSource::File(p) => AssetId::of_str(p.as_str()),
            AssetSource::Bytes(b) => AssetId::of_bytes(b.as_slice()),
        }
    }

    /// The file extension, if any.
    pub fn extension(&self) -> (r: Option<String>)
        ensures
            match self {
                AssetSource::File(p) => r.is_some() == path_extension(p@).is_some() && (r matches Some(
                    e,
                ) ==> e@ == path_extension(p@)->0),
                AssetSource::Bytes(_) => r.is_none(),
            },
    {
        match self {
            AssetSource::File(p) => extension_of_path(p.as_str()),
            AssetSource::Bytes(_) => None,
        }
    }

    /// A human-readable hint: the path, or `<bytes>`.
    pub fn hint(&self) -> (r: String)
        ensures
            match self {
                AssetSource::File(p) => r@ == p@,
                AssetSource::Bytes(_) => r@ == "<bytes>"@,
            },
    {
        match self {
            AssetSource::File(p) => p.clone(),
            AssetSource::Bytes(_) => String::from_str("<bytes>"),
        }
    }
}

/// Descriptive metadata about a registered asset.
#[derive(Debug, Clone)]
pub struct AssetMetadata {
    pub id: AssetId,
    pub kind: AssetKind,
    /// Source byte size if known (0 for unread file sources).
    pub byte_size: usize,
    /// Human-readable source hint (path or `<bytes>`).
    pub source: String,
}

/// The kind a path's extension names, if any.
pub fn kind_from_path(path: &str) -> (r: Option<AssetKind>)
    ensures
        r == match path_extension(path@) {
            Some(e) => kind_for_extension(ascii_lower(vstd::utf8::encode_utf8(e))),
            None => None,
        },
{
    match extension_of_path(path) {
        Some(e) => AssetKind::from_extension(e.as_str()),
        None => None,
    }
}

} // verus!
