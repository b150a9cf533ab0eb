//! Emission helpers that look at the previously emitted instruction and
//! fold it into the new one (peephole optimization).

use vstd::prelude::*;
use crate::opcode::{
    mrb_insn_data, mrb_decode_insn, spec_decode_insn, OP_NOP, OP_MOVE, OP_LOADI, OP_LOADINEG,
    OP_LOADL, OP_LOADSYM, OP_LOADNIL, OP_LOADSELF, OP_LOADT, OP_LOADF, OP_LOADI__1, OP_LOADI_0,
    OP_LOADI_7, OP_GETGV, OP_GETSV, OP_GETIV, OP_GETCV, OP_GETCONST, OP_STRING, OP_LAMBDA,
    OP_BLOCK, OP_METHOD, OP_BLKPUSH, OP_RETURN, OP_ADD, OP_SUB, OP_ADDI, OP_SUBI,
};
use crate::codegen::{
    scope, CodegenError, emit_outcome, emit_outcome_at, enc_s, encode_0, encode_1, encode_2,
    encode_2s, genop_0, genop_1, genop_2, gen_S,
};

verus! {

/// The last emitted instruction, or `OP_NOP` when nothing was emitted since
/// the last rewind.
pub open spec fn spec_last_insn(s: &scope) -> mrb_insn_data {
    if s.pc == s.lastpc {
        mrb_insn_data { insn: OP_NOP, a: 0, b: 0, c: 0 }
    } else {
        spec_decode_insn(s.iseq@, s.lastpc as int)
    }
}

/// Peephole rewriting is off: optimization is disabled, a label points at
/// the current position, nothing was emitted yet, or there is no last
/// instruction.
pub open spec fn spec_no_peephole(s: &scope) -> bool {
    s.no_optimize || s.lastlabel == s.pc || s.pc == 0 || s.pc == s.lastpc
}

/// Whether the parser asked for unoptimized code.
pub fn no_optimize(s: &scope) -> (r: bool)
    ensures
        r == s.no_optimize,
{
    s.no_optimize
}

/// Whether the code is compiled for `eval`.
pub fn on_eval(s: &scope) -> (r: bool)
    ensures
        r == s.on_eval,
{
    s.on_eval
}

/// Decodes the last emitted instruction.
pub fn mrb_last_insn(s: &scope) -> (data: mrb_insn_data)
    requires
        s.wf(),
    ensures
        data == spec_last_insn(s),
{
    if s.pc == s.lastpc {
        return mrb_insn_data { insn: OP_NOP, a: 0, b: 0, c: 0 };
    }
    mrb_decode_insn(s.iseq.as_slice(), s.lastpc as usize)
}

/// Whether peephole rewriting must be skipped.
pub fn no_peephole(s: &scope) -> (r: bool)
    ensures
        r == spec_no_peephole(s),
{
    no_optimize(s) || s.lastlabel == s.pc || s.pc == 0 || s.pc == s.lastpc
}

/// Result type of an emission, without the value.
pub open spec fn unit_result<T>(r: Result<T, CodegenError>) -> Result<(), CodegenError> {
    match r {
        Ok(_) => Ok(()),
        Err(e) => Err(e),
    }
}

/// Whether a conditional jump on register `a` folds into the `OP_MOVE`
/// that was just emitted into `a`: it then tests the move's source instead.
pub open spec fn jmp_folds_move(s: &scope, a: u16, val: i32) -> bool {
    &&& !spec_no_peephole(s)
    &&& val == 0
    &&& spec_last_insn(s).insn == OP_MOVE
    &&& spec_last_insn(s).a == a
}

/// Emits a conditional jump on register `a` to `pc`; returns the position
/// of the target operand.  When the value is not needed afterwards (`val`
/// is 0) and the last instruction moved a register into `a`, that move is
/// dropped and the jump tests the source register instead.
pub fn genjmp2(s: &mut scope, i: u8, a: u16, pc: i32, val: i32) -> (r: Result<u16, CodegenError>)
    requires
        old(s).wf(),
    ensures
        ({
            let fold = jmp_folds_move(old(s), a, val);
            let start = if fold { old(s).lastpc as int } else { old(s).pc as int };
            let reg = if fold { spec_last_insn(old(s)).b } else { a };
            &&& emit_outcome_at(old(s), start, final(s), encode_2s(i, reg, pc as u16), unit_result(r))
            &&& r matches Ok(pos) ==> pos == start + encode_1(i, reg).len() && final(s).lastpc == start
        }),
{
    let mut a = a;
    if !no_peephole(s) && val == 0 {
        let data = mrb_last_insn(s);
        if data.insn == OP_MOVE && data.a == a {
            s.pc = s.lastpc;
            a = data.b;
        }
    }
    let ghost s0 = *s;
    let r = genop_1(s, i, a);
    if r.is_err() {
        proof {
            crate::codegen::lemma_outcome_err(&s0, s, encode_1(i, a), enc_s(pc as u16), r);
        }
        return Err(CodegenError::TooBigCodeBlock);
    }
    let ghost s1 = *s;
    let pos = s.pc;
    let r = gen_S(s, pc as u16);
    proof {
        crate::codegen::lemma_outcome_seq(&s0, &s1, s, encode_1(i, a), enc_s(pc as u16), r);
    }
    if r.is_err() {
        return Err(CodegenError::TooBigCodeBlock);
    }
    Ok(pos)
}

/// Opcodes that load a constant into register `a` and take no other operand.
pub open spec fn is_load_const_op(op: u8) -> bool {
    op == OP_LOADNIL || op == OP_LOADSELF || op == OP_LOADT || op == OP_LOADF || op == OP_LOADI__1
        || (OP_LOADI_0 <= op && op <= OP_LOADI_7)
}

/// Opcodes that load a value described by operand `b` into register `a`.
pub open spec fn is_load_operand_op(op: u8) -> bool {
    op == OP_LOADI || op == OP_LOADINEG || op == OP_LOADL || op == OP_LOADSYM || op == OP_GETGV
        || op == OP_GETSV || op == OP_GETIV || op == OP_GETCV || op == OP_GETCONST || op
        == OP_STRING || op == OP_LAMBDA || op == OP_BLOCK || op == OP_METHOD || op == OP_BLKPUSH
}

/// A move `dst <- src` is redundant: it copies a register onto itself, or
/// undoes the move just emitted.
pub open spec fn move_is_redundant(s: &scope, dst: u16, src: u16) -> bool {
    &&& !spec_no_peephole(s)
    &&& spec_last_insn(s).insn == OP_MOVE
    &&& (dst == src || (spec_last_insn(s).b == dst && spec_last_insn(s).a == src))
}

/// The move `dst <- src` can be folded into the load just emitted into the
/// temporary register `src`, making that load target `dst` directly.
pub open spec fn move_retargets_load(s: &scope, src: u16, nopeep: i32) -> bool {
    &&& !spec_no_peephole(s)
    &&& (is_load_const_op(spec_last_insn(s).insn) || is_load_operand_op(spec_last_insn(s).insn))
    &&& nopeep == 0
    &&& spec_last_insn(s).a == src
    &&& spec_last_insn(s).a >= s.nlocals
}

/// `new` equals `old` in every respect.
pub open spec fn unchanged(old_s: &scope, new_s: &scope) -> bool {
    &&& new_s.buf() == old_s.buf()
    &&& new_s.same_except_buf(old_s)
    &&& new_s.wf()
}

/// What [`gen_move`] does to `old_s`, giving `new_s` and `r`.
pub open spec fn move_outcome(
    old_s: &scope,
    new_s: &scope,
    dst: u16,
    src: u16,
    nopeep: i32,
    r: Result<(), CodegenError>,
) -> bool {
    let last = spec_last_insn(old_s);
    if move_is_redundant(old_s, dst, src) {
        r is Ok && unchanged(old_s, new_s)
    } else if move_retargets_load(old_s, src, nopeep) {
        let bytes = if is_load_const_op(last.insn) {
            encode_1(last.insn, dst)
        } else {
            encode_2(last.insn, dst, last.b)
        };
        &&& emit_outcome_at(old_s, old_s.lastpc as int, new_s, bytes, r)
        &&& r is Ok ==> new_s.lastpc == old_s.lastpc
    } else {
        let mv = encode_2(OP_MOVE, dst, src);
        let bytes = if old_s.on_eval { mv + encode_0(OP_NOP) } else { mv };
        &&& emit_outcome(old_s, new_s, bytes, r)
        &&& r is Ok ==> new_s.lastpc == if old_s.on_eval {
            old_s.pc + mv.len()
        } else {
            old_s.pc as int
        }
    }
}

/// Emits `dst <- src`, followed by `OP_NOP` when compiling for `eval`.
/// A redundant move is dropped; a move out of a temporary register that
/// was just loaded is folded into that load.
pub fn gen_move(s: &mut scope, dst: u16, src: u16, nopeep: i32) -> (r: Result<(), CodegenError>)
    requires
        old(s).wf(),
    ensures
        move_outcome(old(s), final(s), dst, src, nopeep, r),
{
    if !no_peephole(s) {
        let data = mrb_last_insn(s);
        if data.insn == OP_MOVE {
            if dst == src {
                return Ok(());
            }
            if data.b == dst && data.a == src {
                return Ok(());
            }
        } else if data.insn == OP_LOADNIL || data.insn == OP_LOADSELF || data.insn == OP_LOADT
            || data.insn == OP_LOADF || data.insn == OP_LOADI__1 || (OP_LOADI_0 <= data.insn
            && data.insn <= OP_LOADI_7) {
            if !(nopeep != 0 || data.a != src || data.a < s.nlocals) {
                s.pc = s.lastpc;
                return genop_1(s, data.insn, dst);
            }
        } else if data.insn == OP_LOADI || data.insn == OP_LOADINEG || data.insn == OP_LOADL
            || data.insn == OP_LOADSYM || data.insn == OP_GETGV || data.insn == OP_GETSV
            || data.insn == OP_GETIV || data.insn == OP_GETCV || data.insn == OP_GETCONST
            || data.insn == OP_STRING || data.insn == OP_LAMBDA || data.insn == OP_BLOCK
            || data.insn == OP_METHOD || data.insn == OP_BLKPUSH {
            if !(nopeep != 0 || data.a != src || data.a < s.nlocals) {
                s.pc = s.lastpc;
                return genop_2(s, data.insn, dst, data.b);
            }
        }
    }
    let ghost s0 = *s;
    let r = genop_2(s, OP_MOVE, dst, src);
    if r.is_err() {
        proof {
            crate::codegen::lemma_outcome_err(&s0, s, encode_2(OP_MOVE, dst, src), encode_0(OP_NOP), r);
        }
        return r;
    }
    if on_eval(s) {
        let ghost s1 = *s;
        let r2 = genop_0(s, OP_NOP);
        proof {
            crate::codegen::lemma_outcome_seq(&s0, &s1, s, encode_2(OP_MOVE, dst, src), encode_0(OP_NOP), r2);
        }
        return r2;
    }
    Ok(())
}

/// What [`gen_return`] does to `old_s`, giving `new_s` and `r`.
pub open spec fn return_outcome(
    old_s: &scope,
    new_s: &scope,
    op: u8,
    src: u16,
    r: Result<(), CodegenError>,
) -> bool {
    let last = spec_last_insn(old_s);
    if spec_no_peephole(old_s) {
        emit_outcome(old_s, new_s, encode_1(op, src), r)
            && (r is Ok ==> new_s.lastpc == old_s.pc)
    } else if last.insn == OP_MOVE && src == last.a {
        emit_outcome_at(old_s, old_s.lastpc as int, new_s, encode_1(op, last.b), r)
            && (r is Ok ==> new_s.lastpc == old_s.lastpc)
    } else if last.insn != OP_RETURN {
        emit_outcome(old_s, new_s, encode_1(op, src), r)
            && (r is Ok ==> new_s.lastpc == old_s.pc)
    } else {
        r is Ok && unchanged(old_s, new_s)
    }
}

/// Emits `op` (a return-like instruction) on register `src`.  A return of
/// the register that was just moved into returns the move's source instead;
/// a return right after a return is dropped.
pub fn gen_return(s: &mut scope, op: u8, src: u16) -> (r: Result<(), CodegenError>)
    requires
        old(s).wf(),
    ensures
        return_outcome(old(s), final(s), op, src, r),
{
    if no_peephole(s) {
        genop_1(s, op, src)
    } else {
        let data = mrb_last_insn(s);
        if data.insn == OP_MOVE && src == data.a {
            s.pc = s.lastpc;
            genop_1(s, op, data.b)
        } else if data.insn != OP_RETURN {
            genop_1(s, op, src)
        } else {
            Ok(())
        }
    }
}

/// The integer that a load instruction puts in its register: -1 for
/// `OP_LOADI__1`, `n` for `OP_LOADI_n`, the operand for `OP_LOADI` and its
/// negation for `OP_LOADINEG`; `None` for other instructions.
pub open spec fn loaded_integer(insn: mrb_insn_data) -> Option<int> {
    if insn.insn == OP_LOADI__1 {
        Some(-1)
    } else if OP_LOADI_0 <= insn.insn <= OP_LOADI_7 {
        Some(insn.insn - OP_LOADI_0)
    } else if insn.insn == OP_LOADI {
        Some(insn.b as int)
    } else if insn.insn == OP_LOADINEG {
        Some(-(insn.b as int))
    } else {
        None
    }
}

/// What applying `OP_ADD` (else `OP_SUB`) with `v` adds to a register.
pub open spec fn signed_amount(op: u8, v: int) -> int {
    if op == OP_ADD {
        v
    } else {
        -v
    }
}

/// Folding the constant just loaded into `OP_ADDI`/`OP_SUBI` keeps the
/// value: the immediate operator (`OP_ADD` for `OP_ADDI`, `OP_SUB` for
/// `OP_SUBI`) with the immediate adds what `op` with the loaded integer
/// would have added.
pub proof fn lemma_addsub_fold_keeps_value(s: &scope, op: u8)
    requires
        op == OP_ADD || op == OP_SUB,
    ensures
        addsub_immediate(s, op) matches Some((op2, b)) ==> {
            &&& op2 == OP_ADD || op2 == OP_SUB
            &&& loaded_integer(spec_last_insn(s)) matches Some(v) && signed_amount(op2, b as int)
                == signed_amount(op, v)
        },
{
}

/// The immediate operand an `OP_ADD`/`OP_SUB` can absorb from the load just
/// emitted, with the possibly flipped operator: `OP_LOADI__1` flips the
/// operator and gives 1, `OP_LOADI_n` gives `n`, `OP_LOADI` gives its operand.
pub open spec fn addsub_immediate(s: &scope, op: u8) -> Option<(u8, u16)> {
    let last = spec_last_insn(s);
    if spec_no_peephole(s) {
        None
    } else if last.insn == OP_LOADI__1 {
        Some((if op == OP_ADD { OP_SUB } else { OP_ADD }, 1u16))
    } else if OP_LOADI_0 <= last.insn && last.insn <= OP_LOADI_7 {
        Some((op, (last.insn - OP_LOADI_0) as u16))
    } else if last.insn == OP_LOADI {
        Some((op, last.b))
    } else {
        None
    }
}

/// Emits the addition or subtraction `op` on register `dst`.  When the
/// right operand was just loaded as a small integer (below 128), the load is
/// dropped and `OP_ADDI`/`OP_SUBI` with that immediate is emitted instead.
pub fn gen_addsub(s: &mut scope, op: u8, dst: u16) -> (r: Result<(), CodegenError>)
    requires
        old(s).wf(),
    ensures
        match addsub_immediate(old(s), op) {
            Some((op2, b)) if b < 128 => {
                let i = if op2 == OP_ADD { OP_ADDI } else { OP_SUBI };
                &&& emit_outcome_at(old(s), old(s).lastpc as int, final(s), encode_2(i, dst, b), r)
                &&& r is Ok ==> final(s).lastpc == old(s).lastpc
            },
            _ => {
                &&& emit_outcome(old(s), final(s), encode_1(op, dst), r)
                &&& r is Ok ==> final(s).lastpc == old(s).pc
            },
        },
{
    let mut op = op;
    if !no_peephole(s) {
        let data = mrb_last_insn(s);
        let mut b: u16 = data.b;
        let mut fold = true;
        if data.insn == OP_LOADI__1 {
            if op == OP_ADD {
                op = OP_SUB;
            } else {
                op = OP_ADD;
            }
            b = 1;
        } else if OP_LOADI_0 <= data.insn && data.insn <= OP_LOADI_7 {
            b = (data.insn - OP_LOADI_0) as u16;
        } else if data.insn != OP_LOADI {
            fold = false;
        }
        if fold && !(b >= 128) {
            s.pc = s.lastpc;
            if op == OP_ADD {
                return genop_2(s, OP_ADDI, dst, b as u8 as u16);
            } else {
                return genop_2(s, OP_SUBI, dst, b as u8 as u16);
            }
        }
    }
    genop_1(s, op, dst)
}

} // verus!
