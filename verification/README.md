# ferrox

A media-engine core written in Verus: container muxers and demuxer state,
codec front-ends, caches, an asset registry and frame extraction, each with
its behaviour stated in `requires` / `ensures` contracts and proved.

## Layout

- `src/` — the verified library.
  - `mux/` — ISO-BMFF boxes, fragmented and progressive MP4, MPEG-TS
    (PAT/PMT/PES packetisation), Ogg Opus pages, WebM track and packet
    descriptions; `crc.rs` is CRC-32 with the MPEG-2/Ogg polynomial.
  - `codecs/` — IVF and VP8, VP9 plane packing, H.264 (Annex B framing and
    OpenH264 decoding), AV1 encoding (rav1e), MP3 encoding (libmp3lame),
    PNG/JPEG (image), GIF decoding and compositing, container track
    descriptions.
  - `cache/` — an LRU cache bounded by entry count and bytes, and a shared,
    lock-protected handle around it.
  - `asset/` — content-addressed ids, kinds, the dependency graph and the
    reference-counting registry with release cascades.
  - `extract.rs` — output path patterns and the decisions of frame and audio
    extraction.
- `tests/` — tests on concrete values, run against the compiled library.
- `app/` — the `ferrox` command-line tool: file I/O, container reading,
  and the floating-point audio, colour, blending and animation code.

Calls into outside crates go through small trusted wrappers, each with a doc
comment saying what its contract claims of the called function.
