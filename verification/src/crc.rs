//! CRC-32 with the MPEG-2 / Ogg generator polynomial 0x04C11DB7
//! (most-significant bit first, no reflection, no final XOR).

use vstd::prelude::*;

use crate::bytes::be32_spec;

verus! {

/// One bit of polynomial division: shift left, folding in the generator when
/// the top bit falls out.
pub open spec fn crc_shift(x: u32) -> u32 {
    if x & 0x8000_0000u32 != 0 {
        (x << 1u32) ^ 0x04C1_1DB7u32
    } else {
        x << 1u32
    }
}

/// The register after feeding one byte (eight bits, most significant first).
pub open spec fn crc_byte(crc: u32, b: u8) -> u32 {
    let x = crc ^ ((b as u32) << 24u32);
    crc_shift(crc_shift(crc_shift(crc_shift(crc_shift(crc_shift(crc_shift(crc_shift(x))))))))
}

/// The register after feeding `data` into a register holding `init`.
pub open spec fn crc32_spec(init: u32, data: Seq<u8>) -> u32
    decreases data.len(),
{
    if data.len() == 0 {
        init
    } else {
        crc_byte(crc32_spec(init, data.drop_last()), data.last())
    }
}

fn shift(x: u32) -> (r: u32)
    ensures
        r == crc_shift(x),
{
    if x & 0x8000_0000u32 != 0 {
        (x << 1u32) ^ 0x04C1_1DB7u32
    } else {
        x << 1u32
    }
}

/// Feed one byte into the register.
pub fn crc_update_byte(crc: u32, b: u8) -> (r: u32)
    ensures
        r == crc_byte(crc, b),
{
    let x = crc ^ ((b as u32) << 24u32);
    shift(shift(shift(shift(shift(shift(shift(shift(x))))))))
}

/// Feed `data` into a register holding `init`.
pub fn crc32_update(init: u32, data: &[u8]) -> (r: u32)
    ensures
        r == crc32_spec(init, data@),
{
    let mut crc = init;
    let mut i: usize = 0;
    while i < data.len()
        invariant
            i <= data@.len(),
            crc == crc32_spec(init, data@.take(i as int)),
        decreases data@.len() - i,
    {
        proof {
            assert(data@.take(i + 1).drop_last() =~= data@.take(i as int));
        }
        crc = crc_update_byte(crc, data[i]);
        i = i + 1;
    }
    assert(data@.take(data@.len() as int) =~= data@);
    crc
}

/// CRC-32/MPEG-2: initial register all ones.
pub fn crc32_mpeg(data: &[u8]) -> (r: u32)
    ensures
        r == crc32_spec(0xFFFF_FFFF, data@),
{
    crc32_update(0xFFFF_FFFF, data)
}

proof fn lemma_crc_byte_of_top(s: u32)
    ensures
        crc_byte(s, (s >> 24u32) as u8) == s << 8u32,
{
    assert(crc_byte(s, (s >> 24u32) as u8) == s << 8u32) by (bit_vector);
}

proof fn lemma_crc_append_byte(init: u32, data: Seq<u8>, b: u8)
    ensures
        crc32_spec(init, data.push(b)) == crc_byte(crc32_spec(init, data), b),
{
    assert(data.push(b).drop_last() =~= data);
}

/// A register followed by its own big-endian encoding checks to zero: feeding
/// `data` and then the 4 big-endian bytes of the resulting CRC leaves 0 (how
/// receivers validate a section with its trailing CRC).
pub proof fn lemma_crc_residue_zero(init: u32, data: Seq<u8>)
    ensures
        crc32_spec(init, data + be32_spec(crc32_spec(init, data))) == 0,
{
    let c = crc32_spec(init, data);
    let e = be32_spec(c);
    let d1 = data.push(e[0]);
    let d2 = d1.push(e[1]);
    let d3 = d2.push(e[2]);
    let d4 = d3.push(e[3]);
    assert(data + e =~= d4);
    lemma_crc_append_byte(init, data, e[0]);
    lemma_crc_append_byte(init, d1, e[1]);
    lemma_crc_append_byte(init, d2, e[2]);
    lemma_crc_append_byte(init, d3, e[3]);
    lemma_crc_byte_of_top(c);
    let c1 = c << 8u32;
    assert((c1 >> 24u32) as u8 == (c >> 16u32) as u8) by (bit_vector)
        requires
            c1 == c << 8u32,
    ;
    lemma_crc_byte_of_top(c1);
    let c2 = c1 << 8u32;
    assert((c2 >> 24u32) as u8 == (c >> 8u32) as u8) by (bit_vector)
        requires
            c1 == c << 8u32,
            c2 == c1 << 8u32,
    ;
    lemma_crc_byte_of_top(c2);
    let c3 = c2 << 8u32;
    assert((c3 >> 24u32) as u8 == c as u8) by (bit_vector)
        requires
            c1 == c << 8u32,
            c2 == c1 << 8u32,
            c3 == c2 << 8u32,
    ;
    lemma_crc_byte_of_top(c3);
    assert(c3 << 8u32 == 0) by (bit_vector)
        requires
            c1 == c << 8u32,
            c2 == c1 << 8u32,
            c3 == c2 << 8u32,
    ;
}

} // verus!
