//! The extension table, stated word by word.

use vstd::prelude::*;

use crate::asset::{ascii_lower, kind_for_extension, AssetKind};

verus! {

/// `s` spells the lowercase word `w`, each letter in either case.
pub open spec fn spells(s: Seq<u8>, w: Seq<char>) -> bool {
    &&& s.len() == w.len()
    &&& forall|i: int|
        0 <= i < s.len() ==> (s[i] as int == w[i] as int || ('a' <= w[i] <= 'z' && s[i] as int + 32
            == w[i] as int))
}

/// Lowercasing a spelling of `w` gives `w`'s bytes.
pub(crate) proof fn lemma_lower_spelling(s: Seq<u8>, w: Seq<char>)
    requires
        spells(s, w),
        forall|i: int| 0 <= i < w.len() ==> ('a' <= #[trigger] w[i] <= 'z' || '0' <= w[i] <= '9'),
    ensures
        ascii_lower(s) == w.map_values(|c: char| c as u8),
{
    assert(ascii_lower(s) =~= w.map_values(|c: char| c as u8));
}

/// `png`, `jpg`, `jpeg`, `gif`, `webp`, `bmp`, in any mix of cases, name an image asset.
pub proof fn law_image_extensions(ext: Seq<u8>)
    requires
        spells(ext, "png"@) || spells(ext, "jpg"@) || spells(ext, "jpeg"@) || spells(ext, "gif"@) || spells(ext, "webp"@) || spells(ext, "bmp"@),
    ensures
        kind_for_extension(ascii_lower(ext)) == Some(AssetKind::Image),
{
    reveal_strlit("png");
    if spells(ext, "png"@) {
        lemma_lower_spelling(ext, "png"@);
        assert(ascii_lower(ext) =~= seq![112u8, 110u8, 103u8]);
    }
    reveal_strlit("jpg");
    if spells(ext, "jpg"@) {
        lemma_lower_spelling(ext, "jpg"@);
        assert(ascii_lower(ext) =~= seq![106u8, 112u8, 103u8]);
    }
    reveal_strlit("jpeg");
    if spells(ext, "jpeg"@) {
        lemma_lower_spelling(ext, "jpeg"@);
        assert(ascii_lower(ext) =~= seq![106u8, 112u8, 101u8, 103u8]);
    }
    reveal_strlit("gif");
    if spells(ext, "gif"@) {
        lemma_lower_spelling(ext, "gif"@);
        assert(ascii_lower(ext) =~= seq![103u8, 105u8, 102u8]);
    }
    reveal_strlit("webp");
    if spells(ext, "webp"@) {
        lemma_lower_spelling(ext, "webp"@);
        assert(ascii_lower(ext) =~= seq![119u8, 101u8, 98u8, 112u8]);
    }
    reveal_strlit("bmp");
    if spells(ext, "bmp"@) {
        lemma_lower_spelling(ext, "bmp"@);
        assert(ascii_lower(ext) =~= seq![98u8, 109u8, 112u8]);
    }
}

/// `mp4`, `webm`, `mkv`, `mov`, `ivf`, in any mix of cases, name a video asset.
pub proof fn law_video_extensions(ext: Seq<u8>)
    requires
        spells(ext, "mp4"@) || spells(ext, "webm"@) || spells(ext, "mkv"@) || spells(ext, "mov"@) || spells(ext, "ivf"@),
    ensures
        kind_for_extension(ascii_lower(ext)) == Some(AssetKind::Video),
{
    reveal_strlit("mp4");
    if spells(ext, "mp4"@) {
        lemma_lower_spelling(ext, "mp4"@);
        assert(ascii_lower(ext) =~= seq![109u8, 112u8, 52u8]);
    }
    reveal_strlit("webm");
    if spells(ext, "webm"@) {
        lemma_lower_spelling(ext, "webm"@);
        assert(ascii_lower(ext) =~= seq![119u8, 101u8, 98u8, 109u8]);
    }
    reveal_strlit("mkv");
    if spells(ext, "mkv"@) {
        lemma_lower_spelling(ext, "mkv"@);
        assert(ascii_lower(ext) =~= seq![109u8, 107u8, 118u8]);
    }
    reveal_strlit("mov");
    if spells(ext, "mov"@) {
        lemma_lower_spelling(ext, "mov"@);
        assert(ascii_lower(ext) =~= seq![109u8, 111u8, 118u8]);
    }
    reveal_strlit("ivf");
    if spells(ext, "ivf"@) {
        lemma_lower_spelling(ext, "ivf"@);
        assert(ascii_lower(ext) =~= seq![105u8, 118u8, 102u8]);
    }
}

/// `wav`, `mp3`, `flac`, `ogg`, `aac`, `m4a`, `opus`, in any mix of cases, name an audio asset.
pub proof fn law_audio_extensions(ext: Seq<u8>)
    requires
        spells(ext, "wav"@) || spells(ext, "mp3"@) || spells(ext, "flac"@) || spells(ext, "ogg"@) || spells(ext, "aac"@) || spells(ext, "m4a"@) || spells(ext, "opus"@),
    ensures
        kind_for_extension(ascii_lower(ext)) == Some(AssetKind::Audio),
{
    reveal_strlit("wav");
    if spells(ext, "wav"@) {
        lemma_lower_spelling(ext, "wav"@);
        assert(ascii_lower(ext) =~= seq![119u8, 97u8, 118u8]);
    }
    reveal_strlit("mp3");
    if spells(ext, "mp3"@) {
        lemma_lower_spelling(ext, "mp3"@);
        assert(ascii_lower(ext) =~= seq![109u8, 112u8, 51u8]);
    }
    reveal_strlit("flac");
    if spells(ext, "flac"@) {
        lemma_lower_spelling(ext, "flac"@);
        assert(ascii_lower(ext) =~= seq![102u8, 108u8, 97u8, 99u8]);
    }
    reveal_strlit("ogg");
    if spells(ext, "ogg"@) {
        lemma_lower_spelling(ext, "ogg"@);
        assert(ascii_lower(ext) =~= seq![111u8, 103u8, 103u8]);
    }
    reveal_strlit("aac");
    if spells(ext, "aac"@) {
        lemma_lower_spelling(ext, "aac"@);
        assert(ascii_lower(ext) =~= seq![97u8, 97u8, 99u8]);
    }
    reveal_strlit("m4a");
    if spells(ext, "m4a"@) {
        lemma_lower_spelling(ext, "m4a"@);
        assert(ascii_lower(ext) =~= seq![109u8, 52u8, 97u8]);
    }
    reveal_strlit("opus");
    if spells(ext, "opus"@) {
        lemma_lower_spelling(ext, "opus"@);
        assert(ascii_lower(ext) =~= seq![111u8, 112u8, 117u8, 115u8]);
    }
}

/// `ttf`, `otf`, `woff`, `woff2`, in any mix of cases, name a font asset.
pub proof fn law_font_extensions(ext: Seq<u8>)
    requires
        spells(ext, "ttf"@) || spells(ext, "otf"@) || spells(ext, "woff"@) || spells(ext, "woff2"@),
    ensures
        kind_for_extension(ascii_lower(ext)) == Some(AssetKind::Font),
{
    reveal_strlit("ttf");
    if spells(ext, "ttf"@) {
        lemma_lower_spelling(ext, "ttf"@);
        assert(ascii_lower(ext) =~= seq![116u8, 116u8, 102u8]);
    }
    reveal_strlit("otf");
    if spells(ext, "otf"@) {
        lemma_lower_spelling(ext, "otf"@);
        assert(ascii_lower(ext) =~= seq![111u8, 116u8, 102u8]);
    }
    reveal_strlit("woff");
    if spells(ext, "woff"@) {
        lemma_lower_spelling(ext, "woff"@);
        assert(ascii_lower(ext) =~= seq![119u8, 111u8, 102u8, 102u8]);
    }
    reveal_strlit("woff2");
    if spells(ext, "woff2"@) {
        lemma_lower_spelling(ext, "woff2"@);
        assert(ascii_lower(ext) =~= seq![119u8, 111u8, 102u8, 102u8, 50u8]);
    }
}

/// `cube`, in any mix of cases, names a LUT asset.
pub proof fn law_lut_extension(ext: Seq<u8>)
    requires
        spells(ext, "cube"@),
    ensures
        kind_for_extension(ascii_lower(ext)) == Some(AssetKind::Lut),
{
    reveal_strlit("cube");
    if spells(ext, "cube"@) {
        lemma_lower_spelling(ext, "cube"@);
        assert(ascii_lower(ext) =~= seq![99u8, 117u8, 98u8, 101u8]);
    }
}

/// `svg`, in any mix of cases, names an SVG asset.
pub proof fn law_svg_extension(ext: Seq<u8>)
    requires
        spells(ext, "svg"@),
    ensures
        kind_for_extension(ascii_lower(ext)) == Some(AssetKind::Svg),
{
    reveal_strlit("svg");
    if spells(ext, "svg"@) {
        lemma_lower_spelling(ext, "svg"@);
        assert(ascii_lower(ext) =~= seq![115u8, 118u8, 103u8]);
    }
}

/// `lottie`, in any mix of cases, names a Lottie asset.
pub proof fn law_lottie_extension(ext: Seq<u8>)
    requires
        spells(ext, "lottie"@),
    ensures
        kind_for_extension(ascii_lower(ext)) == Some(AssetKind::Lottie),
{
    reveal_strlit("lottie");
    if spells(ext, "lottie"@) {
        lemma_lower_spelling(ext, "lottie"@);
        assert(ascii_lower(ext) =~= seq![108u8, 111u8, 116u8, 116u8, 105u8, 101u8]);
    }
}

/// `srt`, `vtt`, `ass`, `ssa`, in any mix of cases, name a subtitle asset.
pub proof fn law_subtitle_extensions(ext: Seq<u8>)
    requires
        spells(ext, "srt"@) || spells(ext, "vtt"@) || spells(ext, "ass"@) || spells(ext, "ssa"@),
    ensures
        kind_for_extension(ascii_lower(ext)) == Some(AssetKind::Subtitle),
{
    reveal_strlit("srt");
    if spells(ext, "srt"@) {
        lemma_lower_spelling(ext, "srt"@);
        assert(ascii_lower(ext) =~= seq![115u8, 114u8, 116u8]);
    }
    reveal_strlit("vtt");
    if spells(ext, "vtt"@) {
        lemma_lower_spelling(ext, "vtt"@);
        assert(ascii_lower(ext) =~= seq![118u8, 116u8, 116u8]);
    }
    reveal_strlit("ass");
    if spells(ext, "ass"@) {
        lemma_lower_spelling(ext, "ass"@);
        assert(ascii_lower(ext) =~= seq![97u8, 115u8, 115u8]);
    }
    reveal_strlit("ssa");
    if spells(ext, "ssa"@) {
        lemma_lower_spelling(ext, "ssa"@);
        assert(ascii_lower(ext) =~= seq![115u8, 115u8, 97u8]);
    }
}

} // verus!
