//! The argument specification that `OP_ENTER` carries at the start of a
//! method or block body, and the argument count read back from it.

use vstd::prelude::*;
use crate::codegen::{encode_w, CodegenError};
use crate::eval::spec_irep_argc;
use crate::opcode::OP_ENTER;

verus! {

/// The formal arguments of a method or block: required, optional, rest,
/// required after the rest, keyword, keyword dictionary and block.
pub struct ArgSpec {
    pub ma: u32,
    pub oa: u32,
    pub ra: bool,
    pub pa: u32,
    pub ka: u32,
    pub kd: bool,
    pub ba: bool,
}

/// A flag as a bit.
pub open spec fn bit(b: bool) -> u32 {
    if b {
        1
    } else {
        0
    }
}

/// The 23-bit argument specification of `a`: five bits each for the
/// required, optional and post counts, one for the rest argument, five for
/// the keyword count, one each for the keyword dictionary and the block.
pub open spec fn spec_aspec(a: ArgSpec) -> u32 {
    ((a.ma & 0x1f) << 18u32) | ((a.oa & 0x1f) << 13u32) | (bit(a.ra) << 12u32) | ((a.pa & 0x1f)
        << 7u32) | ((a.ka & 0x1f) << 2u32) | (bit(a.kd) << 1u32) | bit(a.ba)
}

/// No count exceeds what its five bits hold.
pub open spec fn counts_fit(a: ArgSpec) -> bool {
    a.ma <= 0x1f && a.oa <= 0x1f && a.pa <= 0x1f && a.ka <= 0x1f
}

/// The argument specification of `a` for `OP_ENTER`; fails ("too many formal
/// arguments") when a count does not fit in five bits.
pub fn enter_aspec(a: &ArgSpec) -> (r: Result<u32, CodegenError>)
    ensures
        counts_fit(*a) ==> r == Ok::<u32, CodegenError>(spec_aspec(*a)),
        !counts_fit(*a) ==> r == Err::<u32, CodegenError>(CodegenError::TooManyFormalArguments),
{
    if a.ma > 0x1f || a.oa > 0x1f || a.pa > 0x1f || a.ka > 0x1f {
        return Err(CodegenError::TooManyFormalArguments);
    }
    let ra: u32 = if a.ra { 1 } else { 0 };
    let kd: u32 = if a.kd { 1 } else { 0 };
    let ba: u32 = if a.ba { 1 } else { 0 };
    Ok(((a.ma & 0x1f) << 18u32) | ((a.oa & 0x1f) << 13u32) | (ra << 12u32) | ((a.pa & 0x1f)
        << 7u32) | ((a.ka & 0x1f) << 2u32) | (kd << 1u32) | ba)
}

/// The three bytes of a 24-bit value, most significant first, put back
/// together give the value.
proof fn lemma_three_bytes(x: u32)
    requires
        x < 0x1000000,
    ensures
        (((x / 65536) % 256) << 16u32) | (((x / 256) % 256) << 8u32) | (x % 256) == x,
{
    assert((((x / 65536) % 256) << 16u32) | (((x / 256) % 256) << 8u32) | (x % 256) == x)
        by (bit_vector)
        requires
            x < 0x1000000,
    ;
}

/// The fields packed by `spec_aspec` are read back by shifts and masks.
proof fn lemma_fields(ma: u32, oa: u32, ra: u32, pa: u32, ka: u32, kd: u32, ba: u32, x: u32)
    requires
        ma <= 0x1f,
        oa <= 0x1f,
        pa <= 0x1f,
        ka <= 0x1f,
        ra <= 1,
        kd <= 1,
        ba <= 1,
        x == ((ma & 0x1f) << 18u32) | ((oa & 0x1f) << 13u32) | (ra << 12u32) | ((pa & 0x1f)
            << 7u32) | ((ka & 0x1f) << 2u32) | (kd << 1u32) | ba,
    ensures
        x < 0x1000000,
        (x >> 18u32) & 0x1fu32 == ma,
        (x >> 13u32) & 0x1fu32 == oa,
        (x >> 12u32) & 0x1u32 == ra,
        (x >> 7u32) & 0x1fu32 == pa,
{
    assert(x < 0x1000000 && (x >> 18u32) & 0x1fu32 == ma && (x >> 13u32) & 0x1fu32 == oa && (x
        >> 12u32) & 0x1u32 == ra && (x >> 7u32) & 0x1fu32 == pa) by (bit_vector)
        requires
            ma <= 0x1f,
            oa <= 0x1f,
            pa <= 0x1f,
            ka <= 0x1f,
            ra <= 1,
            kd <= 1,
            ba <= 1,
            x == ((ma & 0x1f) << 18u32) | ((oa & 0x1f) << 13u32) | (ra << 12u32) | ((pa & 0x1f)
                << 7u32) | ((ka & 0x1f) << 2u32) | (kd << 1u32) | ba,
    ;
}

/// The argument count read back from an `OP_ENTER` that carries the
/// specification of `a` is the number of positional arguments plus one slot
/// for the block: required, optional, rest and post arguments, plus one.
pub proof fn lemma_enter_argc(a: ArgSpec)
    requires
        counts_fit(a),
    ensures
        spec_irep_argc(encode_w(OP_ENTER, spec_aspec(a))) == a.ma + a.oa + bit(a.ra) + a.pa + 1,
{
    let x = spec_aspec(a);
    lemma_fields(a.ma, a.oa, bit(a.ra), a.pa, a.ka, bit(a.kd), bit(a.ba), x);
    lemma_three_bytes(x);
    let code = encode_w(OP_ENTER, x);
    assert(code[1] as u32 == (x / 65536) % 256);
    assert(code[2] as u32 == (x / 256) % 256);
    assert(code[3] as u32 == x % 256);
}

/// Every field of an argument specification reads back from its place:
/// the required count from bits 18..23, the optional count from bits
/// 13..18, the rest flag from bit 12, the post count from bits 7..12, the
/// keyword count from bits 2..7, the keyword-dictionary flag from bit 1 and
/// the block flag from bit 0; nothing is set above bit 22.
pub proof fn lemma_aspec_fields(a: ArgSpec)
    requires
        counts_fit(a),
    ensures
        spec_aspec(a) < 0x800000,
        (spec_aspec(a) >> 18u32) & 0x1fu32 == a.ma,
        (spec_aspec(a) >> 13u32) & 0x1fu32 == a.oa,
        (spec_aspec(a) >> 12u32) & 0x1u32 == bit(a.ra),
        (spec_aspec(a) >> 7u32) & 0x1fu32 == a.pa,
        (spec_aspec(a) >> 2u32) & 0x1fu32 == a.ka,
        (spec_aspec(a) >> 1u32) & 0x1u32 == bit(a.kd),
        spec_aspec(a) & 0x1u32 == bit(a.ba),
{
    let (ma, oa, ra, pa, ka, kd, ba) = (a.ma, a.oa, bit(a.ra), a.pa, a.ka, bit(a.kd), bit(a.ba));
    let x = spec_aspec(a);
    assert(x == ((ma & 0x1f) << 18u32) | ((oa & 0x1f) << 13u32) | (ra << 12u32) | ((pa & 0x1f)
        << 7u32) | ((ka & 0x1f) << 2u32) | (kd << 1u32) | ba);
    assert(x < 0x800000 && (x >> 18u32) & 0x1fu32 == ma && (x >> 13u32) & 0x1fu32 == oa && (x
        >> 12u32) & 0x1u32 == ra && (x >> 7u32) & 0x1fu32 == pa && (x >> 2u32) & 0x1fu32 == ka
        && (x >> 1u32) & 0x1u32 == kd && x & 0x1u32 == ba) by (bit_vector)
        requires
            ma <= 0x1f,
            oa <= 0x1f,
            pa <= 0x1f,
            ka <= 0x1f,
            ra <= 1,
            kd <= 1,
            ba <= 1,
            x == ((ma & 0x1f) << 18u32) | ((oa & 0x1f) << 13u32) | (ra << 12u32) | ((pa & 0x1f)
                << 7u32) | ((ka & 0x1f) << 2u32) | (kd << 1u32) | ba,
    ;
}

} // verus!
