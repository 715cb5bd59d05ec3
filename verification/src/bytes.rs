//! Byte-level helpers: fixed-width integer encodings and buffer appends.

use vstd::prelude::*;

verus! {

/// Big-endian encoding of a 32-bit value.
pub open spec fn be32_spec(v: u32) -> Seq<u8> {
    seq![(v >> 24u32) as u8, (v >> 16u32) as u8, (v >> 8u32) as u8, v as u8]
}

/// Big-endian encoding of a 64-bit value.
pub open spec fn be64_spec(v: u64) -> Seq<u8> {
    be32_spec((v >> 32u64) as u32) + be32_spec(v as u32)
}

/// Little-endian encoding of a 16-bit value.
pub open spec fn le16_spec(v: u16) -> Seq<u8> {
    seq![v as u8, (v >> 8u16) as u8]
}

/// Little-endian encoding of a 32-bit value.
pub open spec fn le32_spec(v: u32) -> Seq<u8> {
    seq![v as u8, (v >> 8u32) as u8, (v >> 16u32) as u8, (v >> 24u32) as u8]
}

/// Little-endian encoding of a 64-bit value.
pub open spec fn le64_spec(v: u64) -> Seq<u8> {
    le32_spec(v as u32) + le32_spec((v >> 32u64) as u32)
}

/// The value a big-endian 4-byte field holds.
pub open spec fn read_be32(s: Seq<u8>) -> int
    recommends
        s.len() >= 4,
{
    s[0] * 0x100_0000 + s[1] * 0x1_0000 + s[2] * 0x100 + s[3]
}

/// `n` zero bytes.
pub open spec fn zeros(n: nat) -> Seq<u8> {
    Seq::new(n, |i: int| 0u8)
}

/// Write a 4-byte big-endian u32.
pub fn be32(v: u32) -> (r: [u8; 4])
    ensures
        r@ == be32_spec(v),
{
    [(v >> 24u32) as u8, (v >> 16u32) as u8, (v >> 8u32) as u8, v as u8]
}

/// Write an 8-byte big-endian u64.
pub fn be64(v: u64) -> (r: [u8; 8])
    ensures
        r@ == be64_spec(v),
{
    let hi = (v >> 32u64) as u32;
    let lo = v as u32;
    let r = [
        (hi >> 24u32) as u8,
        (hi >> 16u32) as u8,
        (hi >> 8u32) as u8,
        hi as u8,
        (lo >> 24u32) as u8,
        (lo >> 16u32) as u8,
        (lo >> 8u32) as u8,
        lo as u8,
    ];
    assert(r@ =~= be64_spec(v));
    r
}

/// Write a 2-byte little-endian u16.
pub fn le16(v: u16) -> (r: [u8; 2])
    ensures
        r@ == le16_spec(v),
{
    [v as u8, (v >> 8u16) as u8]
}

/// Write a 4-byte little-endian u32.
pub fn le32(v: u32) -> (r: [u8; 4])
    ensures
        r@ == le32_spec(v),
{
    [v as u8, (v >> 8u32) as u8, (v >> 16u32) as u8, (v >> 24u32) as u8]
}

/// Write an 8-byte little-endian u64.
pub fn le64(v: u64) -> (r: [u8; 8])
    ensures
        r@ == le64_spec(v),
{
    let lo = v as u32;
    let hi = (v >> 32u64) as u32;
    let r = [
        lo as u8,
        (lo >> 8u32) as u8,
        (lo >> 16u32) as u8,
        (lo >> 24u32) as u8,
        hi as u8,
        (hi >> 8u32) as u8,
        (hi >> 16u32) as u8,
        (hi >> 24u32) as u8,
    ];
    assert(r@ =~= le64_spec(v));
    r
}

/// The length of a byte slice.
///
/// Trusted: calls `<[u8]>::len`. Besides the length itself, the contract claims
/// what Rust documents for every slice (see `std::slice::from_raw_parts`): a
/// slice spans at most `isize::MAX` bytes.
#[verifier::external_body]
pub(crate) fn byte_len(s: &[u8]) -> (n: usize)
    ensures
        n == s@.len(),
        n <= isize::MAX,
{
    s.len()
}

/// The bytes of `s` from `from` up to `to`.
pub fn subslice(s: &[u8], from: usize, to: usize) -> (r: &[u8])
    requires
        from <= to <= s@.len(),
    ensures
        r@ == s@.subrange(from as int, to as int),
{
    vstd::slice::slice_subrange(s, from, to)
}

/// Append every byte of `s` to `out`.
pub fn append(out: &mut Vec<u8>, s: &[u8])
    ensures
        final(out)@ == old(out)@ + s@,
{
    out.extend_from_slice(s);
    assert(final(out)@ =~= old(out)@ + s@);
}

/// Append `n` zero bytes to `out`.
pub fn append_zeros(out: &mut Vec<u8>, n: usize)
    ensures
        final(out)@ == old(out)@ + zeros(n as nat),
{
    let ghost start = out@;
    let mut i: usize = 0;
    while i < n
        invariant
            i <= n,
            out@ == start + zeros(i as nat),
        decreases n - i,
    {
        out.push(0u8);
        i = i + 1;
        assert(out@ =~= start + zeros(i as nat));
    }
}

/// Big-endian 4-byte encoding round-trips: reading the field back gives the value.
pub proof fn lemma_be32_roundtrip(v: u32)
    ensures
        read_be32(be32_spec(v)) == v,
{
    let b0 = (v >> 24u32) as u8;
    let b1 = (v >> 16u32) as u8;
    let b2 = (v >> 8u32) as u8;
    let b3 = v as u8;
    assert(b0 * 0x100_0000 + b1 * 0x1_0000 + b2 * 0x100 + b3 == v) by (bit_vector)
        requires
            b0 == (v >> 24u32) as u8,
            b1 == (v >> 16u32) as u8,
            b2 == (v >> 8u32) as u8,
            b3 == v as u8,
    ;
}

} // verus!
