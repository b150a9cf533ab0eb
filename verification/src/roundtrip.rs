//! What the decoder reads back of what the emitter writes.

use vstd::prelude::*;
use crate::opcode::{
    byte_at, is_ext_prefix, mrb_insn_data, spec_decode_insn, spec_insn_len, spec_plain_format,
    InsnFormat, OP_NOP, OP_MOVE, OP_LOADINEG, OP_LOADI__1, OP_LOADI_7,
    OP_LOADSYM, OP_LOADNIL, OP_LOADF, OP_GETGV, OP_SETMCNST, OP_GETUPVAR, OP_SETUPVAR, OP_JMP,
    OP_JMPIF, OP_JMPNOT, OP_JMPNIL, OP_ONERR, OP_EXCEPT, OP_RESCUE, OP_POPERR, OP_EPOP, OP_SENDV,
    OP_SENDVB, OP_SEND, OP_SENDB, OP_CALL, OP_SUPER, OP_ARGARY, OP_ENTER, OP_KEY_P, OP_KEYEND,
    OP_KARG, OP_RETURN, OP_BREAK, OP_BLKPUSH, OP_ADD, OP_ADDI, OP_SUB, OP_SUBI, OP_MUL, OP_GE,
    OP_ARRAY, OP_ARRAY2, OP_ARYCAT, OP_ARYDUP, OP_AREF, OP_ASET, OP_APOST, OP_INTERN, OP_STRING,
    OP_STRCAT, OP_HASH, OP_HASHADD, OP_HASHCAT, OP_LAMBDA, OP_METHOD, OP_RANGE_INC, OP_OCLASS,
    OP_CLASS, OP_ALIAS, OP_UNDEF, OP_TCLASS, OP_DEBUG, OP_ERR, OP_STOP,
};
use crate::codegen::{
    emit_outcome, emit_outcome_at, enc_s, encode_0, encode_1, encode_2, encode_2s, encode_3, encode_w,
    lemma_emit_bytes_content, scope,
};
use crate::peephole::spec_last_insn;

verus! {

/// The `k`-th bytes from `p1` in `c1` and from `p2` in `c2` agree.
pub open spec fn same_byte(c1: Seq<u8>, p1: int, c2: Seq<u8>, p2: int, k: int) -> bool {
    byte_at(c1, p1 + k) == byte_at(c2, p2 + k)
}

/// Decoding only looks at the bytes of the instruction itself.
pub proof fn lemma_decode_local(c1: Seq<u8>, p1: int, c2: Seq<u8>, p2: int, n: int)
    requires
        n >= spec_insn_len(c1, p1),
        forall|k: int| 0 <= k < n ==> #[trigger] same_byte(c1, p1, c2, p2, k),
    ensures
        spec_decode_insn(c1, p1) == spec_decode_insn(c2, p2),
        spec_insn_len(c1, p1) == spec_insn_len(c2, p2),
{
    assert(same_byte(c1, p1, c2, p2, 0));
    assert(p1 + 0 == p1 && p2 + 0 == p2);
    if n > 1 {
        assert(same_byte(c1, p1, c2, p2, 1));
    }
    if n > 2 {
        assert(same_byte(c1, p1, c2, p2, 2));
    }
    if n > 3 {
        assert(same_byte(c1, p1, c2, p2, 3));
    }
    if n > 4 {
        assert(same_byte(c1, p1, c2, p2, 4));
    }
    if n > 5 {
        assert(same_byte(c1, p1, c2, p2, 5));
    }
    if n > 6 {
        assert(same_byte(c1, p1, c2, p2, 6));
    }
}

proof fn lemma_enc_s(x: u16)
    ensures
        (enc_s(x)[0] as int) * 256 + enc_s(x)[1] as int == x as int,
        enc_s(x).len() == 2,
{
}

/// An instruction without operands decodes to its opcode.
pub proof fn lemma_decode_encode_0(i: u8)
    requires
        spec_plain_format(i) == InsnFormat::Z,
        !is_ext_prefix(i),
    ensures
        spec_decode_insn(encode_0(i), 0) == (mrb_insn_data { insn: i, a: 0, b: 0, c: 0 }),
        spec_insn_len(encode_0(i), 0) == encode_0(i).len(),
{
}

/// An instruction with one 8-bit operand decodes to what was encoded, the
/// operand widened or not.
pub proof fn lemma_decode_encode_1(i: u8, a: u16)
    requires
        spec_plain_format(i) == InsnFormat::B,
    ensures
        spec_decode_insn(encode_1(i, a), 0) == (mrb_insn_data { insn: i, a: a, b: 0, c: 0 }),
        spec_insn_len(encode_1(i, a), 0) == encode_1(i, a).len(),
{
    lemma_enc_s(a);
}

/// An instruction with two 8-bit operands decodes to what was encoded,
/// whichever operands were widened.
pub proof fn lemma_decode_encode_2(i: u8, a: u16, b: u16)
    requires
        spec_plain_format(i) == InsnFormat::BB,
    ensures
        spec_decode_insn(encode_2(i, a, b), 0) == (mrb_insn_data { insn: i, a: a, b: b, c: 0 }),
        spec_insn_len(encode_2(i, a, b), 0) == encode_2(i, a, b).len(),
{
    lemma_enc_s(a);
    lemma_enc_s(b);
}

/// An instruction with three operands decodes to what was encoded.
pub proof fn lemma_decode_encode_3(i: u8, a: u16, b: u16, c: u8)
    requires
        spec_plain_format(i) == InsnFormat::BBB,
    ensures
        spec_decode_insn(encode_3(i, a, b, c), 0) == (mrb_insn_data { insn: i, a: a, b: b, c: c }),
        spec_insn_len(encode_3(i, a, b, c), 0) == encode_3(i, a, b, c).len(),
{
    lemma_enc_s(a);
    lemma_enc_s(b);
}

/// An instruction with an 8-bit and a 16-bit operand decodes to what was encoded.
pub proof fn lemma_decode_encode_2s(i: u8, a: u16, b: u16)
    requires
        spec_plain_format(i) == InsnFormat::BS,
    ensures
        spec_decode_insn(encode_2s(i, a, b), 0) == (mrb_insn_data { insn: i, a: a, b: b, c: 0 }),
        spec_insn_len(encode_2s(i, a, b), 0) == encode_2s(i, a, b).len(),
{
    lemma_enc_s(a);
    lemma_enc_s(b);
}

/// A jump decodes to its opcode and 16-bit target.
pub proof fn lemma_decode_encode_jmp(i: u8, pc: u16)
    requires
        spec_plain_format(i) == InsnFormat::S,
    ensures
        spec_decode_insn(seq![i] + enc_s(pc), 0) == (mrb_insn_data { insn: i, a: pc, b: 0, c: 0 }),
        spec_insn_len(seq![i] + enc_s(pc), 0) == 3,
{
    lemma_enc_s(pc);
}

/// An instruction with a 24-bit operand decodes to its opcode and the low 16
/// bits of the operand.
pub proof fn lemma_decode_encode_w(i: u8, a: u32)
    requires
        spec_plain_format(i) == InsnFormat::W,
    ensures
        spec_decode_insn(encode_w(i, a), 0) == (mrb_insn_data {
            insn: i,
            a: (a % 65536) as u16,
            b: 0,
            c: 0,
        }),
        spec_insn_len(encode_w(i, a), 0) == encode_w(i, a).len(),
{
}

/// After an instruction has been emitted as the last one, the last
/// instruction of the scope is that instruction.
pub proof fn lemma_last_insn_after_emit(s_old: &scope, s_new: &scope, bytes: Seq<u8>)
    requires
        s_old.wf(),
        emit_outcome(s_old, s_new, bytes, Ok(())),
        s_new.lastpc == s_old.pc,
        bytes.len() > 0,
        spec_insn_len(bytes, 0) == bytes.len(),
    ensures
        spec_last_insn(s_new) == spec_decode_insn(bytes, 0),
{
    lemma_emit_bytes_content(s_old.buf(), s_old.pc as int, bytes, s_old.lineno);
    let code = s_new.iseq@;
    let p = s_old.pc as int;
    assert forall|k: int| 0 <= k < bytes.len() implies #[trigger] same_byte(bytes, 0, code, p, k) by {
        assert(code[p + k] == bytes[k]);
    }
    lemma_decode_local(bytes, 0, code, p, bytes.len() as int);
}

/// After an instruction has been written at `start`, where the last
/// instruction now begins, the last instruction of the scope is that one.
pub proof fn lemma_last_insn_after_emit_at(s_old: &scope, start: int, s_new: &scope, bytes: Seq<u8>)
    requires
        s_old.wf(),
        0 <= start <= s_old.icapa,
        emit_outcome_at(s_old, start, s_new, bytes, Ok(())),
        s_new.lastpc == start,
        bytes.len() > 0,
        spec_insn_len(bytes, 0) == bytes.len(),
    ensures
        spec_last_insn(s_new) == spec_decode_insn(bytes, 0),
{
    lemma_emit_bytes_content(s_old.buf(), start, bytes, s_old.lineno);
    let code = s_new.iseq@;
    assert forall|k: int| 0 <= k < bytes.len() implies #[trigger] same_byte(bytes, 0, code, start, k) by {
        assert(code[start + k] == bytes[k]);
    }
    lemma_decode_local(bytes, 0, code, start, bytes.len() as int);
}

/// What `genop_2` writes is what `mrb_last_insn` reads back.
pub proof fn lemma_genop_2_read_back(s_old: &scope, s_new: &scope, i: u8, a: u16, b: u16)
    requires
        s_old.wf(),
        spec_plain_format(i) == InsnFormat::BB,
        emit_outcome(s_old, s_new, encode_2(i, a, b), Ok(())),
        s_new.lastpc == s_old.pc,
    ensures
        spec_last_insn(s_new) == (mrb_insn_data { insn: i, a: a, b: b, c: 0 }),
{
    lemma_decode_encode_2(i, a, b);
    lemma_last_insn_after_emit(s_old, s_new, encode_2(i, a, b));
}

/// What `genop_1` writes is what `mrb_last_insn` reads back.
pub proof fn lemma_genop_1_read_back(s_old: &scope, s_new: &scope, i: u8, a: u16)
    requires
        s_old.wf(),
        spec_plain_format(i) == InsnFormat::B,
        emit_outcome(s_old, s_new, encode_1(i, a), Ok(())),
        s_new.lastpc == s_old.pc,
    ensures
        spec_last_insn(s_new) == (mrb_insn_data { insn: i, a: a, b: 0, c: 0 }),
{
    lemma_decode_encode_1(i, a);
    lemma_last_insn_after_emit(s_old, s_new, encode_1(i, a));
}

/// What `genop_3` writes is what `mrb_last_insn` reads back.
pub proof fn lemma_genop_3_read_back(s_old: &scope, s_new: &scope, i: u8, a: u16, b: u16, c: u8)
    requires
        s_old.wf(),
        spec_plain_format(i) == InsnFormat::BBB,
        emit_outcome(s_old, s_new, encode_3(i, a, b, c), Ok(())),
        s_new.lastpc == s_old.pc,
    ensures
        spec_last_insn(s_new) == (mrb_insn_data { insn: i, a: a, b: b, c: c }),
{
    lemma_decode_encode_3(i, a, b, c);
    lemma_last_insn_after_emit(s_old, s_new, encode_3(i, a, b, c));
}

/// What `genop_2S` writes is what `mrb_last_insn` reads back.
pub proof fn lemma_genop_2s_read_back(s_old: &scope, s_new: &scope, i: u8, a: u16, b: u16)
    requires
        s_old.wf(),
        spec_plain_format(i) == InsnFormat::BS,
        emit_outcome(s_old, s_new, encode_2s(i, a, b), Ok(())),
        s_new.lastpc == s_old.pc,
    ensures
        spec_last_insn(s_new) == (mrb_insn_data { insn: i, a: a, b: b, c: 0 }),
{
    lemma_decode_encode_2s(i, a, b);
    lemma_last_insn_after_emit(s_old, s_new, encode_2s(i, a, b));
}

/// The opcodes of the instruction set whose operands are three 8-bit
/// values (`BBB`): up-level variable access, `SEND`/`SENDB`, `ARRAY2`,
/// `AREF`, `ASET`, `APOST` and `DEBUG`.
pub open spec fn takes_three_operands(op: u8) -> bool {
    op == OP_GETUPVAR || op == OP_SETUPVAR || op == OP_SEND || op == OP_SENDB || op == OP_ARRAY2
        || op == OP_AREF || op == OP_ASET || op == OP_APOST || op == OP_DEBUG
}

/// The opcodes of the instruction set whose operands are two 8-bit values
/// (`BB`).
pub open spec fn takes_two_operands(op: u8) -> bool {
    ||| OP_MOVE <= op <= OP_LOADINEG
    ||| op == OP_LOADSYM
    ||| OP_GETGV <= op <= OP_SETMCNST
    ||| op == OP_RESCUE || op == OP_SENDV || op == OP_SENDVB || op == OP_SUPER
    ||| op == OP_KEY_P || op == OP_KARG || op == OP_ADDI || op == OP_SUBI || op == OP_ARRAY
    ||| op == OP_STRING || op == OP_HASH || op == OP_HASHADD
    ||| OP_LAMBDA <= op <= OP_METHOD
    ||| OP_CLASS <= op <= OP_ALIAS
}

/// The opcodes of the instruction set whose one operand is an 8-bit value
/// (`B`).
pub open spec fn takes_one_operand(op: u8) -> bool {
    ||| OP_LOADI__1 <= op <= OP_LOADI_7
    ||| OP_LOADNIL <= op <= OP_LOADF
    ||| op == OP_EXCEPT
    ||| OP_POPERR <= op <= OP_EPOP
    ||| OP_RETURN <= op <= OP_BREAK
    ||| op == OP_ADD || op == OP_SUB
    ||| OP_MUL <= op <= OP_GE
    ||| OP_ARYCAT <= op <= OP_ARYDUP
    ||| op == OP_INTERN || op == OP_STRCAT || op == OP_HASHCAT
    ||| OP_RANGE_INC <= op <= OP_OCLASS
    ||| OP_UNDEF <= op <= OP_TCLASS
    ||| op == OP_ERR
}

/// The opcodes of the instruction set with an 8-bit and a 16-bit operand
/// (`BS`): the conditional jumps, `ARGARY` and `BLKPUSH`.
pub open spec fn takes_byte_and_short(op: u8) -> bool {
    op == OP_JMPIF || op == OP_JMPNOT || op == OP_JMPNIL || op == OP_ARGARY || op == OP_BLKPUSH
}

/// The opcodes of the instruction set without operands.
pub open spec fn takes_no_operand(op: u8) -> bool {
    op == OP_NOP || op == OP_CALL || op == OP_KEYEND || op == OP_STOP
}

/// Every instruction of three 8-bit operands reads back as written, with
/// all four bytes, whichever of its first two operands are widened.
pub proof fn lemma_three_operand_instructions(op: u8, a: u16, b: u16, c: u8)
    requires
        takes_three_operands(op),
    ensures
        spec_decode_insn(encode_3(op, a, b, c), 0) == (mrb_insn_data { insn: op, a: a, b: b, c: c }),
        spec_insn_len(encode_3(op, a, b, c), 0) == encode_3(op, a, b, c).len(),
        a <= 0xff && b <= 0xff ==> spec_insn_len(encode_3(op, a, b, c), 0) == 4,
{
    lemma_decode_encode_3(op, a, b, c);
}

/// Every instruction of two 8-bit operands reads back as written, with no
/// third operand, whichever operands are widened.
pub proof fn lemma_two_operand_instructions(op: u8, a: u16, b: u16)
    requires
        takes_two_operands(op),
    ensures
        spec_decode_insn(encode_2(op, a, b), 0) == (mrb_insn_data { insn: op, a: a, b: b, c: 0 }),
        spec_insn_len(encode_2(op, a, b), 0) == encode_2(op, a, b).len(),
        a <= 0xff && b <= 0xff ==> spec_insn_len(encode_2(op, a, b), 0) == 3,
{
    lemma_decode_encode_2(op, a, b);
}

/// Every instruction of one 8-bit operand reads back as written.
pub proof fn lemma_one_operand_instructions(op: u8, a: u16)
    requires
        takes_one_operand(op),
    ensures
        spec_decode_insn(encode_1(op, a), 0) == (mrb_insn_data { insn: op, a: a, b: 0, c: 0 }),
        spec_insn_len(encode_1(op, a), 0) == encode_1(op, a).len(),
        a <= 0xff ==> spec_insn_len(encode_1(op, a), 0) == 2,
{
    lemma_decode_encode_1(op, a);
}

/// Every instruction of an 8-bit and a 16-bit operand reads back as written.
pub proof fn lemma_byte_and_short_instructions(op: u8, a: u16, b: u16)
    requires
        takes_byte_and_short(op),
    ensures
        spec_decode_insn(encode_2s(op, a, b), 0) == (mrb_insn_data { insn: op, a: a, b: b, c: 0 }),
        spec_insn_len(encode_2s(op, a, b), 0) == encode_2s(op, a, b).len(),
        a <= 0xff ==> spec_insn_len(encode_2s(op, a, b), 0) == 4,
{
    lemma_decode_encode_2s(op, a, b);
}

/// The unconditional jump and `ONERR` read back their 16-bit target.
pub proof fn lemma_jump_instructions(op: u8, target: u16)
    requires
        op == OP_JMP || op == OP_ONERR,
    ensures
        spec_decode_insn(seq![op] + enc_s(target), 0) == (mrb_insn_data {
            insn: op,
            a: target,
            b: 0,
            c: 0,
        }),
        spec_insn_len(seq![op] + enc_s(target), 0) == 3,
{
    lemma_decode_encode_jmp(op, target);
}

/// `ENTER` reads back the low 16 bits of its 24-bit operand, and is four
/// bytes long.
pub proof fn lemma_enter_instruction(a: u32)
    ensures
        spec_decode_insn(encode_w(OP_ENTER, a), 0) == (mrb_insn_data {
            insn: OP_ENTER,
            a: (a % 65536) as u16,
            b: 0,
            c: 0,
        }),
        spec_insn_len(encode_w(OP_ENTER, a), 0) == 4,
{
    lemma_decode_encode_w(OP_ENTER, a);
}

/// Every instruction without operands is one byte long and reads back as
/// its opcode alone.
pub proof fn lemma_no_operand_instructions(op: u8)
    requires
        takes_no_operand(op),
    ensures
        spec_decode_insn(encode_0(op), 0) == (mrb_insn_data { insn: op, a: 0, b: 0, c: 0 }),
        spec_insn_len(encode_0(op), 0) == 1,
{
    lemma_decode_encode_0(op);
}

} // verus!
