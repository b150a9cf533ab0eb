//! CRC-16/CCITT as used to checksum compiled bytecode images.
//!
//! The computation keeps a 24-bit working register: the current 16-bit CRC
//! sits in bits 8..24, each input byte is or-ed into bits 0..8 and then
//! shifted through eight times against the generator `0x11021`.

use vstd::prelude::*;

verus! {

/// One shift of the working register against the generator polynomial.
pub open spec fn crc_bit(w: u32) -> u32 {
    let s = w << 1u32;
    if s & 0x1000000u32 != 0 { s ^ 0x1102100u32 } else { s }
}

/// Eight shifts of the working register, i.e. one full input byte.
pub open spec fn crc_shift8(w: u32) -> u32 {
    crc_bit(crc_bit(crc_bit(crc_bit(crc_bit(crc_bit(crc_bit(crc_bit(w))))))))
}

/// The working register after feeding one byte.
pub open spec fn crc_feed(w: u32, b: u8) -> u32 {
    crc_shift8(w | (b as u32))
}

/// The working register after feeding every byte of `data`, in order.
pub open spec fn crc_register(data: Seq<u8>, w: u32) -> u32
    decreases data.len(),
{
    if data.len() == 0 {
        w
    } else {
        crc_feed(crc_register(data.drop_last(), w), data.last())
    }
}

/// The CRC-16/CCITT of `data`, continuing from the CRC value `crc`.
pub open spec fn spec_crc_16_ccitt(data: Seq<u8>, crc: u16) -> u16 {
    (crc_register(data, (crc as u32) << 8u32) >> 8u32) as u16
}

/// A working register that holds a 16-bit CRC in bits 8..24 and zeros elsewhere.
pub open spec fn register_holds_crc(w: u32) -> bool {
    w < 0x1000000u32 && w & 0xffu32 == 0
}

proof fn lemma_feed_keeps_shape(w: u32, b: u8)
    requires
        register_holds_crc(w),
    ensures
        register_holds_crc(crc_feed(w, b)),
{
    let bb = b as u32;
    assert(bb < 256u32);
    assert(w < 0x1000000u32 && w & 0xffu32 == 0 && bb < 256u32 ==> crc_shift8(w | bb)
        < 0x1000000u32 && crc_shift8(w | bb) & 0xffu32 == 0) by (bit_vector);
}

proof fn lemma_register_keeps_shape(data: Seq<u8>, w: u32)
    requires
        register_holds_crc(w),
    ensures
        register_holds_crc(crc_register(data, w)),
    decreases data.len(),
{
    if data.len() > 0 {
        lemma_register_keeps_shape(data.drop_last(), w);
        lemma_feed_keeps_shape(crc_register(data.drop_last(), w), data.last());
    }
}

proof fn lemma_register_append(a: Seq<u8>, b: Seq<u8>, w: u32)
    ensures
        crc_register(a + b, w) == crc_register(b, crc_register(a, w)),
    decreases b.len(),
{
    if b.len() == 0 {
        assert(a + b =~= a);
    } else {
        assert((a + b).drop_last() =~= a + b.drop_last());
        lemma_register_append(a, b.drop_last(), w);
    }
}

proof fn lemma_shape_roundtrip(w: u32)
    requires
        register_holds_crc(w),
    ensures
        (((w >> 8u32) as u16) as u32) << 8u32 == w,
{
    assert(w < 0x1000000u32 && w & 0xffu32 == 0 ==> (((w >> 8u32) as u16) as u32) << 8u32 == w)
        by (bit_vector);
}

proof fn lemma_initial_shape(crc: u16)
    ensures
        register_holds_crc((crc as u32) << 8u32),
{
    let c = crc as u32;
    assert(c < 0x10000u32 ==> (c << 8u32) < 0x1000000u32 && (c << 8u32) & 0xffu32 == 0)
        by (bit_vector);
}

/// Checksumming a message in two pieces, feeding the CRC of the first piece in
/// as the starting value for the second, gives the CRC of the whole message.
pub proof fn lemma_crc_concat(a: Seq<u8>, b: Seq<u8>, crc: u16)
    ensures
        spec_crc_16_ccitt(a + b, crc) == spec_crc_16_ccitt(b, spec_crc_16_ccitt(a, crc)),
{
    let w0 = (crc as u32) << 8u32;
    lemma_initial_shape(crc);
    lemma_register_append(a, b, w0);
    lemma_register_keeps_shape(a, w0);
    lemma_shape_roundtrip(crc_register(a, w0));
}

/// Checksumming nothing leaves the CRC unchanged.
pub proof fn lemma_crc_empty(crc: u16)
    ensures
        spec_crc_16_ccitt(Seq::<u8>::empty(), crc) == crc,
{
    let c = crc as u32;
    assert(c < 0x10000u32 ==> ((c << 8u32) >> 8u32) as u16 == c as u16) by (bit_vector);
}

/// The remainder of `x * 2^16` modulo the generator `0x11021`, for a byte
/// `x` (the well-known shift-and-xor form of the CCITT table).
pub open spec fn ccitt_table(x: u16) -> u16 {
    let y = x ^ (x >> 4u16);
    (y << 12u16) ^ (y << 5u16) ^ y
}

/// One byte of CRC-16/CCITT: the message so far times `2^8` plus the byte,
/// reduced modulo the generator, whose overflow is the old high byte.
pub open spec fn ccitt_step(crc: u16, b: u8) -> u16 {
    ((crc << 8u16) | (b as u16)) ^ ccitt_table(crc >> 8u16)
}

/// Checksumming one byte takes the CRC to `ccitt_step` of it.
pub proof fn lemma_crc_one_byte(crc: u16, b: u8)
    ensures
        spec_crc_16_ccitt(seq![b], crc) == ccitt_step(crc, b),
{
    let w = (crc as u32) << 8u32;
    assert(seq![b].drop_last() =~= Seq::<u8>::empty());
    assert(seq![b].last() == b);
    assert(crc_register(Seq::<u8>::empty(), w) == w);
    assert(crc_register(seq![b], w) == crc_feed(w, b));
    let bb = b as u32;
    assert(((crc_shift8(((crc as u32) << 8u32) | (b as u32)) >> 8u32) as u16) == ccitt_step(crc, b))
        by (bit_vector);
}

/// Checksumming a message one byte longer applies `ccitt_step` to the CRC of
/// the shorter one: the CRC is the remainder, byte by byte, of the message
/// modulo the generator.
pub proof fn lemma_crc_push(data: Seq<u8>, b: u8, crc: u16)
    ensures
        spec_crc_16_ccitt(data.push(b), crc) == ccitt_step(spec_crc_16_ccitt(data, crc), b),
{
    lemma_crc_concat(data, seq![b], crc);
    assert(data + seq![b] =~= data.push(b));
    lemma_crc_one_byte(spec_crc_16_ccitt(data, crc), b);
}

/// Computes the CRC-16/CCITT of the first `nbytes` bytes of `src`, continuing
/// from the CRC value `crc` (0 for a fresh checksum).
pub fn calc_crc_16_ccitt(src: &[u8], nbytes: usize, crc: u16) -> (result: u16)
    requires
        nbytes <= src@.len(),
    ensures
        result == spec_crc_16_ccitt(src@.take(nbytes as int), crc),
{
    let mut crcwk: u32 = (crc as u32) << 8u32;
    let ghost w0 = crcwk;
    let mut ibyte: usize = 0;
    assert(src@.take(0) =~= Seq::<u8>::empty());
    while ibyte < nbytes
        invariant
            ibyte <= nbytes <= src@.len(),
            w0 == (crc as u32) << 8u32,
            crcwk == crc_register(src@.take(ibyte as int), w0),
        decreases nbytes - ibyte,
    {
        let ghost before = crcwk;
        crcwk = crcwk | (src[ibyte] as u32);
        let ghost start = crcwk;
        let mut ibit: u32 = 0;
        while ibit < 8
            invariant
                ibit <= 8,
                start == before | (src@[ibyte as int] as u32),
                ibit == 0 ==> crcwk == start,
                ibit == 1 ==> crcwk == crc_bit(start),
                ibit == 2 ==> crcwk == crc_bit(crc_bit(start)),
                ibit == 3 ==> crcwk == crc_bit(crc_bit(crc_bit(start))),
                ibit == 4 ==> crcwk == crc_bit(crc_bit(crc_bit(crc_bit(start)))),
                ibit == 5 ==> crcwk == crc_bit(crc_bit(crc_bit(crc_bit(crc_bit(start))))),
                ibit == 6 ==> crcwk == crc_bit(crc_bit(crc_bit(crc_bit(crc_bit(crc_bit(start)))))),
                ibit == 7 ==> crcwk == crc_bit(
                    crc_bit(crc_bit(crc_bit(crc_bit(crc_bit(crc_bit(start)))))),
                ),
                ibit == 8 ==> crcwk == crc_shift8(start),
            decreases 8 - ibit,
        {
            crcwk = crcwk << 1u32;
            if crcwk & 0x1000000u32 != 0 {
                crcwk = crcwk ^ 0x1102100u32;
            }
            ibit = ibit + 1;
        }
        proof {
            let pre = src@.take(ibyte as int);
            let post = src@.take(ibyte + 1);
            assert(post.drop_last() =~= pre);
            assert(post.last() == src@[ibyte as int]);
        }
        ibyte = ibyte + 1;
    }
    (crcwk >> 8u32) as u16
}

} // verus!
