//! ISO-BMFF four-character box codes.

use vstd::prelude::*;

verus! {

/// `ftyp`
pub const FTYP: [u8; 4] = [0x66, 0x74, 0x79, 0x70];
/// `moov`
pub const MOOV: [u8; 4] = [0x6d, 0x6f, 0x6f, 0x76];
/// `mvhd`
pub const MVHD: [u8; 4] = [0x6d, 0x76, 0x68, 0x64];
/// `tkhd`
pub const TKHD: [u8; 4] = [0x74, 0x6b, 0x68, 0x64];
/// `mdhd`
pub const MDHD: [u8; 4] = [0x6d, 0x64, 0x68, 0x64];
/// `hdlr`
pub const HDLR: [u8; 4] = [0x68, 0x64, 0x6c, 0x72];
/// `avc1`
pub const AVC1: [u8; 4] = [0x61, 0x76, 0x63, 0x31];
/// `avcC`
pub const AVCC: [u8; 4] = [0x61, 0x76, 0x63, 0x43];
/// `av01`
pub const AV01: [u8; 4] = [0x61, 0x76, 0x30, 0x31];
/// `av1C`
pub const AV1C: [u8; 4] = [0x61, 0x76, 0x31, 0x43];
/// `mp4a`
pub const MP4A: [u8; 4] = [0x6d, 0x70, 0x34, 0x61];
/// `esds`
pub const ESDS: [u8; 4] = [0x65, 0x73, 0x64, 0x73];
/// `stsd`
pub const STSD: [u8; 4] = [0x73, 0x74, 0x73, 0x64];
/// `stts`
pub const STTS: [u8; 4] = [0x73, 0x74, 0x74, 0x73];
/// `stsc`
pub const STSC: [u8; 4] = [0x73, 0x74, 0x73, 0x63];
/// `stsz`
pub const STSZ: [u8; 4] = [0x73, 0x74, 0x73, 0x7a];
/// `stco`
pub const STCO: [u8; 4] = [0x73, 0x74, 0x63, 0x6f];
/// `stss`
pub const STSS: [u8; 4] = [0x73, 0x74, 0x73, 0x73];
/// `stbl`
pub const STBL: [u8; 4] = [0x73, 0x74, 0x62, 0x6c];
/// `url ` (trailing space)
pub const URL_: [u8; 4] = [0x75, 0x72, 0x6c, 0x20];
/// `dref`
pub const DREF: [u8; 4] = [0x64, 0x72, 0x65, 0x66];
/// `dinf`
pub const DINF: [u8; 4] = [0x64, 0x69, 0x6e, 0x66];
/// `smhd`
pub const SMHD: [u8; 4] = [0x73, 0x6d, 0x68, 0x64];
/// `vmhd`
pub const VMHD: [u8; 4] = [0x76, 0x6d, 0x68, 0x64];
/// `minf`
pub const MINF: [u8; 4] = [0x6d, 0x69, 0x6e, 0x66];
/// `mdia`
pub const MDIA: [u8; 4] = [0x6d, 0x64, 0x69, 0x61];
/// `trak`
pub const TRAK: [u8; 4] = [0x74, 0x72, 0x61, 0x6b];
/// `trex`
pub const TREX: [u8; 4] = [0x74, 0x72, 0x65, 0x78];
/// `mvex`
pub const MVEX: [u8; 4] = [0x6d, 0x76, 0x65, 0x78];
/// `trun`
pub const TRUN: [u8; 4] = [0x74, 0x72, 0x75, 0x6e];
/// `tfhd`
pub const TFHD: [u8; 4] = [0x74, 0x66, 0x68, 0x64];
/// `tfdt`
pub const TFDT: [u8; 4] = [0x74, 0x66, 0x64, 0x74];
/// `traf`
pub const TRAF: [u8; 4] = [0x74, 0x72, 0x61, 0x66];
/// `mfhd`
pub const MFHD: [u8; 4] = [0x6d, 0x66, 0x68, 0x64];
/// `moof`
pub const MOOF: [u8; 4] = [0x6d, 0x6f, 0x6f, 0x66];
/// `mdat`
pub const MDAT: [u8; 4] = [0x6d, 0x64, 0x61, 0x74];
/// `iso5` brand
pub const ISO5: [u8; 4] = [0x69, 0x73, 0x6f, 0x35];
/// `iso6` brand
pub const ISO6: [u8; 4] = [0x69, 0x73, 0x6f, 0x36];
/// `mp41` brand
pub const MP41: [u8; 4] = [0x6d, 0x70, 0x34, 0x31];
/// `soun` handler
pub const SOUN: [u8; 4] = [0x73, 0x6f, 0x75, 0x6e];
/// `vide` handler
pub const VIDE: [u8; 4] = [0x76, 0x69, 0x64, 0x65];
/// "SoundHandler"
pub const SOUND_HANDLER: [u8; 12] = [0x53, 0x6f, 0x75, 0x6e, 0x64, 0x48, 0x61, 0x6e, 0x64, 0x6c, 0x65, 0x72];
/// "VideoHandler"
pub const VIDEO_HANDLER: [u8; 12] = [0x56, 0x69, 0x64, 0x65, 0x6f, 0x48, 0x61, 0x6e, 0x64, 0x6c, 0x65, 0x72];

} // verus!
