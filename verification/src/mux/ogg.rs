//! Ogg Opus (RFC 7845) container writer over Ogg pages (RFC 3533): identification
//! header page, comment header page, then audio pages of up to 255 packets.

use vstd::prelude::*;

use crate::bytes::{append, byte_len, le16, le16_spec, le32, le32_spec, le64, le64_spec};
use crate::crc::{crc_byte, crc32_spec};
use crate::error::Error;
use vstd::string::StringSliceAdditionalSpecFns;

verus! {

/// Opus always runs at 48 kHz.
pub const OPUS_SAMPLE_RATE: u32 = 48_000;
/// 20 ms at 48 kHz (samples per channel per packet).
pub const FRAME_SIZE: usize = 960;
/// `OggS`
pub const OGGS: [u8; 4] = [0x4F, 0x67, 0x67, 0x53];
/// `OpusHead`
pub const OPUS_HEAD: [u8; 8] = [0x4F, 0x70, 0x75, 0x73, 0x48, 0x65, 0x61, 0x64];
/// `OpusTags`
pub const OPUS_TAGS: [u8; 8] = [0x4F, 0x70, 0x75, 0x73, 0x54, 0x61, 0x67, 0x73];
/// The stream serial number ("OPUS").
pub const SERIAL: u32 = 0x4F_50_55_53;

// ── CRC ──────────────────────────────────────────────────────────────────────

/// Feeding a byte is a table lookup on the top register byte XOR the input,
/// folded into the register shifted by 8 (why a 256-entry table suffices).
pub proof fn lemma_crc_byte_table(crc: u32, b: u8)
    ensures
        crc_byte(crc, b) == (crc << 8u32) ^ crc_byte(0, ((crc >> 24u32) as u8) ^ b),
{
    assert(crc_byte(crc, b) == (crc << 8u32) ^ crc_byte(0, ((crc >> 24u32) as u8) ^ b)) by (bit_vector);
}

fn crc_table() -> (t: Vec<u32>)
    ensures
        t@.len() == 256,
        forall|i: int| 0 <= i < 256 ==> #[trigger] t@[i] == crc_byte(0, i as u8),
{
    let mut t: Vec<u32> = Vec::new();
    let mut i: u32 = 0;
    while i < 256
        invariant
            i <= 256,
            t@.len() == i,
            forall|k: int| 0 <= k < i ==> #[trigger] t@[k] == crc_byte(0, k as u8),
        decreases 256 - i,
    {
        let c = crate::crc::crc_update_byte(0, i as u8);
        t.push(c);
        i = i + 1;
    }
    t
}

/// Ogg CRC-32 over `header` then `body` (generator 0x04C11DB7, initial 0).
pub fn ogg_crc32(header: &[u8], body: &[u8]) -> (r: u32)
    ensures
        r == crc32_spec(0, header@ + body@),
{
    // Lookup table for the Ogg CRC-32 polynomial.
    let table = crc_table();
    let ghost all = header@ + body@;
    let mut crc: u32 = 0;
    let hn = byte_len(header);
    let bn = byte_len(body);
    let total = hn + bn;
    let mut i: usize = 0;
    while i < total
        invariant
            total == hn + bn,
            i <= hn + bn,
            hn == header@.len(),
            bn == body@.len(),
            all == header@ + body@,
            table@.len() == 256,
            forall|k: int| 0 <= k < 256 ==> #[trigger] table@[k] == crc_byte(0, k as u8),
            crc == crc32_spec(0, all.take(i as int)),
        decreases total - i,
    {
        let b = if i < hn { header[i] } else { body[i - hn] };
        assert(b == all[i as int]);
        let idx = ((crc >> 24u32) ^ (b as u32)) as usize;
        proof {
            lemma_crc_byte_table(crc, b);
            assert(((crc >> 24u32) ^ (b as u32)) < 256 && ((crc >> 24u32) ^ (b as u32)) as u8 == ((crc >> 24u32) as u8)
                ^ b) by (bit_vector);
            assert(all.take(i + 1).drop_last() =~= all.take(i as int));
        }
        crc = (crc << 8u32) ^ table[idx];
        i = i + 1;
    }
    assert(all.take((hn + bn) as int) =~= all);
    crc
}

// ── Ogg pages ────────────────────────────────────────────────────────────────

/// The segment-table entries (lacing values) of one packet of `n` bytes:
/// 255 for each full segment, then the remainder (possibly 0).
pub open spec fn lacing_spec(n: int) -> Seq<u8>
    decreases n,
{
    if n < 255 {
        seq![n as u8]
    } else {
        seq![255u8] + lacing_spec(n - 255)
    }
}

/// The segment table of the first `k` packets.
pub open spec fn page_lacing_spec(packets: Seq<Seq<u8>>, k: int) -> Seq<u8>
    decreases k,
{
    if k <= 0 {
        Seq::empty()
    } else {
        page_lacing_spec(packets, k - 1) + lacing_spec(packets[k - 1].len() as int)
    }
}

/// The concatenated bytes of the first `k` packets.
pub open spec fn page_body_spec(packets: Seq<Seq<u8>>, k: int) -> Seq<u8>
    decreases k,
{
    if k <= 0 {
        Seq::empty()
    } else {
        page_body_spec(packets, k - 1) + packets[k - 1]
    }
}

/// The page header with a zero CRC field.
pub open spec fn page_header_spec(
    serial: u32,
    granule_pos: u64,
    seq_no: u32,
    is_bos: bool,
    is_eos: bool,
    packets: Seq<Seq<u8>>,
) -> Seq<u8> {
    let lacing = page_lacing_spec(packets, packets.len() as int);
    let flags: u8 = (if is_bos { 0x02u8 } else { 0u8 }) | (if is_eos { 0x04u8 } else { 0u8 });
    OGGS@ + seq![0u8, flags] + le64_spec(granule_pos) + le32_spec(serial) + le32_spec(seq_no) + le32_spec(0)
        + seq![lacing.len() as u8] + lacing
}

/// One Ogg page: header (with its CRC over header and body filled in), then body.
pub open spec fn ogg_page_spec(
    serial: u32,
    granule_pos: u64,
    seq_no: u32,
    is_bos: bool,
    is_eos: bool,
    packets: Seq<Seq<u8>>,
) -> Seq<u8> {
    let h = page_header_spec(serial, granule_pos, seq_no, is_bos, is_eos, packets);
    let body = page_body_spec(packets, packets.len() as int);
    h.subrange(0, 22) + le32_spec(crc32_spec(0, h + body)) + h.subrange(26, h.len() as int) + body
}

/// The views of a list of byte vectors.
pub open spec fn byte_views(v: Seq<Vec<u8>>) -> Seq<Seq<u8>> {
    v.map_values(|p: Vec<u8>| p@)
}

fn append_lacing(out: &mut Vec<u8>, n: usize)
    ensures
        final(out)@ == old(out)@ + lacing_spec(n as int),
    decreases n,
{
    if n < 255 {
        out.push(n as u8);
        assert(final(out)@ =~= old(out)@ + lacing_spec(n as int));
    } else {
        out.push(255);
        let ghost mid = out@;
        append_lacing(out, n - 255);
        assert(final(out)@ =~= old(out)@ + lacing_spec(n as int));
    }
}

/// Write one Ogg page (RFC 3533) to `w`.
pub fn write_ogg_page(
    w: &mut Vec<u8>,
    serial: u32,
    granule_pos: u64,
    seq_no: u32,
    _page_seq: u32,
    is_bos: bool,
    is_eos: bool,
    packets: &[Vec<u8>],
)
    ensures
        final(w)@ == old(w)@ + ogg_page_spec(serial, granule_pos, seq_no, is_bos, is_eos, byte_views(packets@)),
{
    let ghost pv = byte_views(packets@);
    // Build segment table (lacing).
    let mut lacing: Vec<u8> = Vec::new();
    let mut body: Vec<u8> = Vec::new();
    let mut i: usize = 0;
    while i < packets.len()
        invariant
            i <= packets@.len(),
            pv == byte_views(packets@),
            lacing@ == page_lacing_spec(pv, i as int),
            body@ == page_body_spec(pv, i as int),
        decreases packets@.len() - i,
    {
        let pkt = &packets[i];
        append_lacing(&mut lacing, byte_len(pkt.as_slice()));
        append(&mut body, pkt.as_slice());
        assert(pv[i as int] == pkt@);
        i = i + 1;
    }
    let mut header: Vec<u8> = Vec::new();
    append(&mut header, &OGGS);
    header.push(0);  // stream structure version
    let mut flags: u8 = 0;
    if is_bos {
        flags = flags | 0x02;
    }
    if is_eos {
        flags = flags | 0x04;
    }
    header.push(flags);
    append(&mut header, &le64(granule_pos));
    append(&mut header, &le32(serial));
    append(&mut header, &le32(seq_no));
    append(&mut header, &le32(0));  // CRC placeholder
    header.push(byte_len(lacing.as_slice()) as u8);
    append(&mut header, lacing.as_slice());
    proof {
        let f: u8 = (if is_bos { 0x02u8 } else { 0u8 }) | (if is_eos { 0x04u8 } else { 0u8 });
        assert(flags == f) by (bit_vector)
            requires
                flags == (if is_eos { (if is_bos { 0u8 | 0x02u8 } else { 0u8 }) | 0x04u8 } else { (if is_bos {
                    0u8 | 0x02u8
                } else {
                    0u8
                }) }),
                f == (if is_bos { 0x02u8 } else { 0u8 }) | (if is_eos { 0x04u8 } else { 0u8 }),
        ;
        assert(header@ =~= page_header_spec(serial, granule_pos, seq_no, is_bos, is_eos, pv));
    }
    // Compute CRC over header + body.
    let crc = ogg_crc32(header.as_slice(), body.as_slice());
    let c = le32(crc);
    let ghost h0 = header@;
    header.set(22, c[0]);
    header.set(23, c[1]);
    header.set(24, c[2]);
    header.set(25, c[3]);
    assert(header@ =~= h0.subrange(0, 22) + le32_spec(crc) + h0.subrange(26, h0.len() as int));
    append(w, header.as_slice());
    append(w, body.as_slice());
    assert(final(w)@ =~= old(w)@ + ogg_page_spec(serial, granule_pos, seq_no, is_bos, is_eos, pv));
}

// ── Opus headers ─────────────────────────────────────────────────────────────

pub open spec fn opus_head_spec(channels: u8, input_sample_rate: u32) -> Seq<u8> {
    OPUS_HEAD@ + seq![1u8, channels] + le16_spec(3840) + le32_spec(input_sample_rate) + le16_spec(0) + seq![0u8]
}

/// Build the OpusHead binary header (RFC 7845 §5.1).
pub fn build_opus_head(channels: u8, input_sample_rate: u32) -> (r: Vec<u8>)
    ensures
        r@ == opus_head_spec(channels, input_sample_rate),
{
    let mut h: Vec<u8> = Vec::new();
    append(&mut h, &OPUS_HEAD);
    h.push(1);  // version
    h.push(channels);  // channel count
    append(&mut h, &le16(3840));  // pre-skip (typical for 48 kHz)
    append(&mut h, &le32(input_sample_rate));  // input sample rate
    append(&mut h, &le16(0));  // output gain
    h.push(0);  // channel mapping family 0
    assert(h@ =~= opus_head_spec(channels, input_sample_rate));
    h
}

pub open spec fn opus_tags_spec(vendor: Seq<u8>) -> Seq<u8> {
    OPUS_TAGS@ + le32_spec(vendor.len() as u32) + vendor + le32_spec(0)
}

/// Build the OpusTags binary header (RFC 7845 §5.2) with no user comments.
pub fn build_opus_tags(vendor: &str) -> (r: Vec<u8>)
    ensures
        r@ == opus_tags_spec(vendor.spec_bytes()),
{
    let bytes = vendor.as_bytes();
    let mut t: Vec<u8> = Vec::new();
    append(&mut t, &OPUS_TAGS);
    append(&mut t, &le32(byte_len(bytes) as u32));
    append(&mut t, bytes);
    append(&mut t, &le32(0));  // 0 user comments
    assert(t@ =~= opus_tags_spec(vendor.spec_bytes()));
    t
}


// ── Ogg Opus stream ──────────────────────────────────────────────────────────

/// The audio pages for the packets `rest`, `done` packets having been paged
/// already: up to 255 packets per page, granule position = samples (at
/// 48 kHz) up to the end of the page, end-of-stream flag on the last page.
pub open spec fn audio_pages_spec(rest: Seq<Seq<u8>>, done: int, frame_size: u64, seq_no: u32) -> Seq<u8>
    decreases rest.len(),
{
    if rest.len() == 0 {
        Seq::empty()
    } else {
        let m = if rest.len() < 255 {
            rest.len() as int
        } else {
            255
        };
        ogg_page_spec(
            SERIAL,
            (frame_size * (done + m)) as u64,
            seq_no,
            false,
            rest.len() <= 255,
            rest.subrange(0, m),
        ) + audio_pages_spec(rest.subrange(m, rest.len() as int), done + m, frame_size, (seq_no + 1) as u32)
    }
}

/// A complete Ogg Opus stream: OpusHead page, OpusTags page, audio pages.
pub open spec fn ogg_opus_spec(packets: Seq<Seq<u8>>, channels: u16, frame_size: u64) -> Seq<u8> {
    ogg_page_spec(SERIAL, 0, 0, true, false, seq![opus_head_spec(channels as u8, OPUS_SAMPLE_RATE)])
        + ogg_page_spec(SERIAL, 0, 1, false, false, seq![opus_tags_spec("ferrox".spec_bytes())])
        + audio_pages_spec(packets, 0, frame_size, 2)
}

fn copy_range(packets: &[Vec<u8>], from: usize, to: usize) -> (r: Vec<Vec<u8>>)
    requires
        from <= to <= packets@.len(),
    ensures
        byte_views(r@) == byte_views(packets@).subrange(from as int, to as int),
{
    let ghost pv = byte_views(packets@);
    let mut chunk: Vec<Vec<u8>> = Vec::new();
    let mut j: usize = from;
    while j < to
        invariant
            from <= j <= to,
            to <= packets@.len(),
            pv == byte_views(packets@),
            chunk@.len() == j - from,
            forall|k: int| 0 <= k < chunk@.len() ==> (#[trigger] chunk@[k])@ == pv[from + k],
        decreases to - j,
    {
        let mut copy: Vec<u8> = Vec::new();
        append(&mut copy, packets[j].as_slice());
        assert(copy@ =~= pv[j as int]);
        chunk.push(copy);
        j = j + 1;
    }
    assert(byte_views(chunk@) =~= pv.subrange(from as int, to as int));
    chunk
}

/// Wrap raw Opus packets in an Ogg container (RFC 7845), appending to `writer`.
pub fn write_ogg_opus(
    writer: &mut Vec<u8>,
    packets: &[Vec<u8>],
    _sample_rate: u32,
    channels: u16,
    frame_size: u64,
) -> (r: Result<(), Error>)
    requires
        frame_size * packets@.len() <= u64::MAX,
        packets@.len() <= 255 * (u32::MAX - 2),
    ensures
        r is Ok,
        final(writer)@ == old(writer)@ + ogg_opus_spec(byte_views(packets@), channels, frame_size),
{
    let ghost pv = byte_views(packets@);
    let ghost start = writer@;
    // Serial number (arbitrary, non-zero).
    let serial: u32 = SERIAL;
    let mut granule_pos: u64 = 0;
    let mut seq: u32 = 0;
    // ── Page 0: OpusHead ──
    let mut head_pkts: Vec<Vec<u8>> = Vec::new();
    head_pkts.push(build_opus_head(channels as u8, OPUS_SAMPLE_RATE));
    assert(byte_views(head_pkts@) =~= seq![opus_head_spec(channels as u8, OPUS_SAMPLE_RATE)]);
    write_ogg_page(writer, serial, 0, 0, seq, true, false, head_pkts.as_slice());
    seq = seq + 1;
    // ── Page 1: OpusTags ──
    let mut tag_pkts: Vec<Vec<u8>> = Vec::new();
    tag_pkts.push(build_opus_tags("ferrox"));
    assert(byte_views(tag_pkts@) =~= seq![opus_tags_spec("ferrox".spec_bytes())]);
    write_ogg_page(writer, serial, 0, seq, seq, false, false, tag_pkts.as_slice());
    seq = seq + 1;
    let ghost prefix = writer@;
    // ── Audio pages: up to 255 packets per page ──
    let n = packets.len();
    let mut offset: usize = 0;
    assert(pv.subrange(0, n as int) =~= pv);
    while offset < n
        invariant
            offset <= n,
            n == packets@.len(),
            pv == byte_views(packets@),
            frame_size * n <= u64::MAX,
            n <= 255 * (u32::MAX - 2),
            granule_pos == frame_size * offset,
            seq >= 2,
            offset == n || (seq as int - 2) * 255 == offset,
            writer@ + audio_pages_spec(pv.subrange(offset as int, n as int), offset as int, frame_size, seq) == prefix
                + audio_pages_spec(pv, 0, frame_size, 2),
        decreases n - offset,
    {
        let m = if n - offset < 255 { n - offset } else { 255 };
        let end = offset + m;
        let chunk = copy_range(packets, offset, end);
        proof {
            assert(frame_size * (offset + m) <= frame_size * n) by (nonlinear_arith)
                requires
                    offset + m <= n,
            ;
            assert(frame_size * offset + frame_size * m == frame_size * (offset + m)) by (nonlinear_arith);
            assert(frame_size * m <= frame_size * (offset + m)) by (nonlinear_arith);
            assert((seq as int - 2) * 255 == offset);
        }
        granule_pos = granule_pos + frame_size * (m as u64);
        let is_last = end == n;
        let ghost rest = pv.subrange(offset as int, n as int);
        let ghost w0 = writer@;
        write_ogg_page(writer, SERIAL, granule_pos, seq, seq, false, is_last, chunk.as_slice());
        proof {
            assert(rest.subrange(0, m as int) =~= pv.subrange(offset as int, end as int));
            assert(rest.subrange(m as int, rest.len() as int) =~= pv.subrange(end as int, n as int));
            assert(granule_pos == (frame_size * (offset + m)) as u64);
            if end < n {
                assert(m == 255);
            }
            assert(is_last == (rest.len() <= 255));
            assert(audio_pages_spec(rest, offset as int, frame_size, seq) == ogg_page_spec(
                SERIAL,
                (frame_size * (offset + m)) as u64,
                seq,
                false,
                rest.len() <= 255,
                rest.subrange(0, m as int),
            ) + audio_pages_spec(rest.subrange(m as int, rest.len() as int), offset + m, frame_size, (seq + 1) as u32));
            let page = ogg_page_spec(
                SERIAL,
                (frame_size * (offset + m)) as u64,
                seq,
                false,
                rest.len() <= 255,
                rest.subrange(0, m as int),
            );
            assert(byte_views(chunk@) == rest.subrange(0, m as int));
            assert(writer@ == w0 + page);
            let tail = audio_pages_spec(pv.subrange(end as int, n as int), end as int, frame_size, (seq + 1) as u32);
            assert(audio_pages_spec(rest, offset as int, frame_size, seq) == page + tail);
            assert(writer@ + tail =~= w0 + (page + tail));
        }
        seq = seq + 1;
        offset = end;
    }
    proof {
        assert(pv.subrange(n as int, n as int) =~= Seq::<Seq<u8>>::empty());
    }
    Ok(())
}

/// Every page checks: computing the CRC over the page with its checksum
/// field (bytes 22..26) zeroed gives the value stored in that field, as a
/// reader validates it.
pub proof fn law_ogg_page_checks(
    serial: u32,
    granule_pos: u64,
    seq_no: u32,
    is_bos: bool,
    is_eos: bool,
    packets: Seq<Seq<u8>>,
)
    ensures
        ({
            let p = ogg_page_spec(serial, granule_pos, seq_no, is_bos, is_eos, packets);
            &&& p.len() >= 27
            &&& p.subrange(22, 26) == le32_spec(
                crc32_spec(0, p.subrange(0, 22) + le32_spec(0) + p.subrange(26, p.len() as int)),
            )
        }),
{
    let h = page_header_spec(serial, granule_pos, seq_no, is_bos, is_eos, packets);
    let body = page_body_spec(packets, packets.len() as int);
    let c = le32_spec(crc32_spec(0, h + body));
    let p = ogg_page_spec(serial, granule_pos, seq_no, is_bos, is_eos, packets);
    assert(h.len() >= 27);
    assert(h.subrange(22, 26) =~= le32_spec(0));
    assert(p =~= h.subrange(0, 22) + c + h.subrange(26, h.len() as int) + body);
    assert(p.subrange(22, 26) =~= c);
    assert(p.subrange(0, 22) + le32_spec(0) + p.subrange(26, p.len() as int) =~= h + body);
}


/// A page's header flags byte (5) and granule position (bytes 6..14).
proof fn lemma_page_fields(
    serial: u32,
    granule_pos: u64,
    seq_no: u32,
    is_bos: bool,
    is_eos: bool,
    packets: Seq<Seq<u8>>,
)
    ensures
        ({
            let p = ogg_page_spec(serial, granule_pos, seq_no, is_bos, is_eos, packets);
            &&& p.len() >= 27
            &&& p.subrange(0, 4) == OGGS@
            &&& p.subrange(6, 14) == le64_spec(granule_pos)
            &&& !is_bos ==> (p[5] == if is_eos { 0x04u8 } else { 0x00u8 })
        }),
{
    let h = page_header_spec(serial, granule_pos, seq_no, is_bos, is_eos, packets);
    let p = ogg_page_spec(serial, granule_pos, seq_no, is_bos, is_eos, packets);
    assert(h.len() >= 27);
    assert(p.subrange(0, 22) =~= h.subrange(0, 22));
    assert(p.subrange(0, 4) =~= OGGS@);
    assert(p.subrange(6, 14) =~= le64_spec(granule_pos));
    let f: u8 = (if is_bos { 0x02u8 } else { 0u8 }) | (if is_eos { 0x04u8 } else { 0u8 });
    assert(p[5] == f);
    assert((0u8 | 0x04u8) == 0x04u8 && (0u8 | 0u8) == 0u8) by (bit_vector);
}

/// The first of the audio pages for `rest` (after `done` earlier packets)
/// holds up to 255 packets and carries as granule position the 48 kHz
/// sample count at its end: `frame_size` per packet in it and before it. It
/// is flagged end-of-stream exactly when it holds the last packet.
pub proof fn law_audio_page_granule(rest: Seq<Seq<u8>>, done: int, frame_size: u64, seq_no: u32)
    requires
        rest.len() > 0,
        done >= 0,
        frame_size * (done + rest.len()) <= u64::MAX,
    ensures
        ({
            let out = audio_pages_spec(rest, done, frame_size, seq_no);
            let m = if rest.len() < 255 { rest.len() as int } else { 255 };
            &&& out.subrange(0, 4) == OGGS@
            &&& out.subrange(6, 14) == le64_spec((frame_size * (done + m)) as u64)
            &&& (out[5] == 0x04u8) == (rest.len() <= 255)
        }),
{
    let m = if rest.len() < 255 { rest.len() as int } else { 255 };
    let g = (frame_size * (done + m)) as u64;
    let page = ogg_page_spec(SERIAL, g, seq_no, false, rest.len() <= 255, rest.subrange(0, m));
    lemma_page_fields(SERIAL, g, seq_no, false, rest.len() <= 255, rest.subrange(0, m));
    let out = audio_pages_spec(rest, done, frame_size, seq_no);
    let tail = audio_pages_spec(rest.subrange(m, rest.len() as int), done + m, frame_size, (seq_no + 1) as u32);
    assert(out == page + tail);
    assert(out.subrange(0, 4) =~= page.subrange(0, 4));
    assert(out.subrange(6, 14) =~= page.subrange(6, 14));
    assert(out[5] == page[5]);
    assert(frame_size * (done + m) <= frame_size * (done + rest.len())) by (nonlinear_arith)
        requires
            m <= rest.len(),
            done >= 0,
    ;
}

/// Somewhere in the audio pages for `rest` stands a page flagged
/// end-of-stream whose granule position is the sample count after all of
/// `rest`: `frame_size * (done + rest.len())`.
proof fn lemma_final_granule(rest: Seq<Seq<u8>>, done: int, frame_size: u64, seq_no: u32)
    requires
        rest.len() > 0,
        done >= 0,
        frame_size * (done + rest.len()) <= u64::MAX,
    ensures
        ({
            let out = audio_pages_spec(rest, done, frame_size, seq_no);
            exists|k: int|
                0 <= k && k + 27 <= out.len() && #[trigger] out.subrange(k, k + 4) == OGGS@ && out[k + 5] == 0x04u8
                    && out.subrange(k + 6, k + 14) == le64_spec((frame_size * (done + rest.len())) as u64)
        }),
    decreases rest.len(),
{
    let out = audio_pages_spec(rest, done, frame_size, seq_no);
    law_audio_page_granule(rest, done, frame_size, seq_no);
    let m = if rest.len() < 255 { rest.len() as int } else { 255 };
    let g = (frame_size * (done + m)) as u64;
    let page = ogg_page_spec(SERIAL, g, seq_no, false, rest.len() <= 255, rest.subrange(0, m));
    lemma_page_fields(SERIAL, g, seq_no, false, rest.len() <= 255, rest.subrange(0, m));
    let next = rest.subrange(m, rest.len() as int);
    let tail = audio_pages_spec(next, done + m, frame_size, (seq_no + 1) as u32);
    assert(out == page + tail);
    let goal = le64_spec((frame_size * (done + rest.len())) as u64);
    if rest.len() <= 255 {
        assert(m == rest.len());
        assert(out.len() >= page.len());
        let z: int = 0;
        assert(z + 27 <= out.len() && out.subrange(z, z + 4) == OGGS@ && out[z + 5] == 0x04u8
            && out.subrange(z + 6, z + 14) == goal);
    } else {
        lemma_final_granule(next, done + m, frame_size, (seq_no + 1) as u32);
        assert(done + m + next.len() == done + rest.len());
        let k = choose|k: int|
            0 <= k && k + 27 <= tail.len() && #[trigger] tail.subrange(k, k + 4) == OGGS@ && tail[k + 5] == 0x04u8
                && tail.subrange(k + 6, k + 14) == le64_spec((frame_size * (done + m + next.len())) as u64);
        let j = page.len() + k;
        assert(out.subrange(j, j + 4) =~= tail.subrange(k, k + 4));
        assert(out.subrange(j + 6, j + 14) =~= tail.subrange(k + 6, k + 14));
        assert(out[j + 5] == tail[k + 5]);
        assert(j + 27 <= out.len() && out.subrange(j, j + 4) == OGGS@ && out[j + 5] == 0x04u8
            && out.subrange(j + 6, j + 14) == goal);
    }
}

/// An Ogg Opus stream of at least one packet ends its audio with a page
/// flagged end-of-stream whose granule position is the stream's length in
/// 48 kHz samples, `frame_size` times the number of packets.
pub proof fn law_stream_final_granule(packets: Seq<Seq<u8>>, channels: u16, frame_size: u64)
    requires
        packets.len() > 0,
        frame_size * packets.len() <= u64::MAX,
    ensures
        ({
            let out = ogg_opus_spec(packets, channels, frame_size);
            exists|k: int|
                0 <= k && k + 27 <= out.len() && #[trigger] out.subrange(k, k + 4) == OGGS@ && out[k + 5] == 0x04u8
                    && out.subrange(k + 6, k + 14) == le64_spec((frame_size * packets.len()) as u64)
        }),
{
    let head = ogg_page_spec(SERIAL, 0, 0, true, false, seq![opus_head_spec(channels as u8, OPUS_SAMPLE_RATE)])
        + ogg_page_spec(SERIAL, 0, 1, false, false, seq![opus_tags_spec("ferrox".spec_bytes())]);
    let audio = audio_pages_spec(packets, 0, frame_size, 2);
    let out = ogg_opus_spec(packets, channels, frame_size);
    assert(out == head + audio);
    lemma_final_granule(packets, 0, frame_size, 2);
    let k = choose|k: int|
        0 <= k && k + 27 <= audio.len() && #[trigger] audio.subrange(k, k + 4) == OGGS@ && audio[k + 5] == 0x04u8
            && audio.subrange(k + 6, k + 14) == le64_spec((frame_size * (0 + packets.len())) as u64);
    let j = head.len() + k;
    assert(out.subrange(j, j + 4) =~= audio.subrange(k, k + 4));
    assert(out.subrange(j + 6, j + 14) =~= audio.subrange(k + 6, k + 14));
    assert(out[j + 5] == audio[k + 5]);
    assert(frame_size * (0 + packets.len()) == frame_size * packets.len());
}


/// An Ogg Opus stream opens with the identification page (RFC 7845 §5.1):
/// flagged beginning-of-stream, granule position 0, page sequence 0, one
/// 19-byte segment holding `OpusHead`, version 1, the channel count, a
/// pre-skip of 3840 samples (80 ms at 48 kHz), the 48 kHz input rate, no
/// output gain and channel mapping family 0, all little-endian.
pub proof fn law_stream_head_page(packets: Seq<Seq<u8>>, channels: u16, frame_size: u64)
    ensures
        ({
            let out = ogg_opus_spec(packets, channels, frame_size);
            &&& out.subrange(0, 4) == seq![0x4Fu8, 0x67u8, 0x67u8, 0x53u8]
            &&& out[5] == 0x02u8
            &&& out.subrange(6, 14) == seq![0u8, 0u8, 0u8, 0u8, 0u8, 0u8, 0u8, 0u8]
            &&& out.subrange(18, 22) == seq![0u8, 0u8, 0u8, 0u8]
            &&& out[26] == 1u8 && out[27] == 19u8
            &&& out.subrange(28, 47) == seq![
                0x4Fu8, 0x70u8, 0x75u8, 0x73u8, 0x48u8, 0x65u8, 0x61u8, 0x64u8,
                1u8, channels as u8,
                0x00u8, 0x0Fu8,
                0x80u8, 0xBBu8, 0x00u8, 0x00u8,
                0x00u8, 0x00u8,
                0x00u8,
            ]
        }),
{
    let head = opus_head_spec(channels as u8, OPUS_SAMPLE_RATE);
    let pk = seq![head];
    let h = page_header_spec(SERIAL, 0, 0, true, false, pk);
    let page = ogg_page_spec(SERIAL, 0, 0, true, false, pk);
    let out = ogg_opus_spec(packets, channels, frame_size);
    let rest = ogg_page_spec(SERIAL, 0, 1, false, false, seq![opus_tags_spec("ferrox".spec_bytes())])
        + audio_pages_spec(packets, 0, frame_size, 2);
    assert(out =~= page + rest);
    assert(head.len() == 19);
    assert(pk[0] == head);
    assert(page_lacing_spec(pk, 0) =~= Seq::<u8>::empty());
    assert(page_body_spec(pk, 0) =~= Seq::<u8>::empty());
    assert(lacing_spec(19) =~= seq![19u8]);
    assert(page_lacing_spec(pk, 1) =~= seq![19u8]);
    assert(page_body_spec(pk, 1) =~= head);
    let pre: u16 = 3840;
    let rate: u32 = 48_000;
    let z64: u64 = 0;
    let z32: u32 = 0;
    let f: u8 = 0x02u8 | 0u8;
    assert(pre as u8 == 0x00u8 && (pre >> 8u16) as u8 == 0x0Fu8 && rate as u8 == 0x80u8 && (rate >> 8u32) as u8
        == 0xBBu8 && (rate >> 16u32) as u8 == 0u8 && (rate >> 24u32) as u8 == 0u8 && z64 as u32 == 0u32 && (z64
        >> 32u64) as u32 == 0u32 && z32 as u8 == 0u8 && (z32 >> 8u32) as u8 == 0u8 && (z32 >> 16u32) as u8 == 0u8
        && (z32 >> 24u32) as u8 == 0u8 && f == 0x02u8) by (bit_vector)
        requires
            pre == 3840u16,
            rate == 48_000u32,
            z64 == 0u64,
            z32 == 0u32,
            f == 0x02u8 | 0u8,
    ;
    assert(le64_spec(0) =~= seq![0u8, 0u8, 0u8, 0u8, 0u8, 0u8, 0u8, 0u8]);
    assert(le32_spec(0) =~= seq![0u8, 0u8, 0u8, 0u8]);
    assert(h.len() == 28);
    assert(page.subrange(0, 22) =~= h.subrange(0, 22));
    assert(page.subrange(26, 28) =~= h.subrange(26, 28));
    assert(page.subrange(28, 47) =~= head);
    assert(out.subrange(0, 47) =~= page.subrange(0, 47));
    assert(out.subrange(0, 4) =~= page.subrange(0, 4));
    assert(out.subrange(6, 14) =~= page.subrange(6, 14));
    assert(out.subrange(18, 22) =~= page.subrange(18, 22));
    assert(out.subrange(28, 47) =~= page.subrange(28, 47));
}


/// A packet of `n` bytes is laced as `n / 255` segments of 255 and a last
/// one of `n % 255` (0 when `n` is a multiple of 255), so that a reader
/// finds its end at the first value below 255.
pub proof fn law_lacing(n: nat)
    ensures
        lacing_spec(n as int).len() == n / 255 + 1,
        forall|i: int| 0 <= i < n / 255 ==> #[trigger] lacing_spec(n as int)[i] == 255u8,
        lacing_spec(n as int)[(n / 255) as int] == (n % 255) as u8,
    decreases n,
{
    if n >= 255 {
        law_lacing((n - 255) as nat);
        let rest = lacing_spec(n - 255);
        assert(lacing_spec(n as int) == seq![255u8] + rest);
        assert((n - 255) as nat / 255 + 1 == n / 255);
        assert((n - 255) as nat % 255 == n % 255);
        assert forall|i: int| 0 <= i < n / 255 implies #[trigger] lacing_spec(n as int)[i] == 255u8 by {
            if i > 0 {
                assert(lacing_spec(n as int)[i] == rest[i - 1]);
            }
        }
    }
}

} // verus!
