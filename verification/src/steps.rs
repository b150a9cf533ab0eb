//! The emitting operations as the syntax-tree walker uses them: each one, when
//! it succeeds, only moves the scope forward (see [`walked`]).

use vstd::prelude::*;
use crate::codegen::{
    scope, CodegenError, PoolValue, emit_bytes, lemma_emit_bytes_content, genop_0, genop_1,
    genop_2, genop_3, genop_2S, genop_W, genjmp, dispatch, push_n_, pop_n_, new_label,
};
use crate::peephole::{genjmp2, gen_move, gen_return, gen_addsub, spec_last_insn};
use crate::opcode::{mrb_insn_data, spec_plain_format, InsnFormat};
use crate::roundtrip::{lemma_genop_1_read_back, lemma_genop_2_read_back, lemma_genop_3_read_back};
use crate::pool::{new_sym, new_lit};
use crate::model::{
    cg, res_is, res_is_v, cg_op0, cg_op1, cg_op2, cg_op3, cg_op2s, cg_opw, cg_jmp, cg_jmp2, cg_dispatch,
    cg_label, cg_move, cg_return, cg_addsub, cg_push, cg_pop, cg_sym, cg_lit, unv, then_v,
};

verus! {

/// `new` is `old` moved forward: still well formed, with a buffer no
/// smaller, the same locals, nesting depth, flags and loop records, and no
/// nested body or symbol dropped.
pub open spec fn walked(old_s: &scope, new_s: &scope) -> bool {
    &&& new_s.wf()
    &&& new_s.icapa >= old_s.icapa
    &&& new_s.same_core(old_s)
    &&& new_s.loops@ == old_s.loops@
    &&& new_s.ensure_level == old_s.ensure_level
    &&& new_s.reps@.len() >= old_s.reps@.len()
    &&& forall|k: int| 0 <= k < old_s.reps@.len() ==> new_s.reps@[k] == old_s.reps@[k]
    &&& new_s.syms@.len() >= old_s.syms@.len()
    &&& forall|k: int| 0 <= k < old_s.syms@.len() ==> new_s.syms@[k] == old_s.syms@[k]
}

/// The instructions a peephole rewrite may fold into what follows: moves
/// and loads.
pub open spec fn foldable(op: u8) -> bool {
    op == crate::opcode::OP_MOVE || crate::peephole::is_load_const_op(op)
        || crate::peephole::is_load_operand_op(op)
}

/// The position below which no peephole rewrite can reach: the current
/// position when rewriting is off or the last instruction cannot be folded,
/// else the start of the last instruction.
pub open spec fn stable(s: &scope) -> int {
    if crate::peephole::spec_no_peephole(s) || !foldable(crate::peephole::spec_last_insn(s).insn) {
        s.pc as int
    } else {
        s.lastpc as int
    }
}

/// The instruction bytes below `b` are the same in `old` and `new`.
pub open spec fn kept_below(old_s: &scope, new_s: &scope, b: int) -> bool {
    forall|k: int| 0 <= k < b && k < old_s.iseq@.len() ==> #[trigger] new_s.iseq@[k] == old_s.iseq@[k]
}

/// The instruction whose 16-bit target operand starts at `pos` in `code` is
/// the jump `i`: its opcode stands right before its 8-bit register, or,
/// with a 16-bit register, right after an `OP_EXT1` prefix.
pub open spec fn jump_before(code: Seq<u8>, pos: int, i: u8) -> bool {
    ||| 2 <= pos && code[pos - 2] == i
    ||| 4 <= pos && code[pos - 4] == crate::opcode::OP_EXT1 && code[pos - 3] == i
}

/// Nothing below the stable position of `old` changed, and the stable
/// position did not move back.
pub open spec fn advanced(old_s: &scope, new_s: &scope) -> bool {
    &&& stable(new_s) >= stable(old_s)
    &&& kept_below(old_s, new_s, stable(old_s))
}

/// Writing `bytes` at `start` inside a well-formed scope moves it forward.
proof fn lemma_walk_at(o: &scope, start: int, n: &scope, bytes: Seq<u8>)
    requires
        o.wf(),
        0 <= start <= o.icapa,
        emit_bytes(o.buf(), start, bytes, o.lineno) == Some(n.buf()),
        n.same_core(o),
        n.loops@ == o.loops@,
        n.reps@ == o.reps@,
        n.syms@ == o.syms@,
        n.ensure_level == o.ensure_level,
        n.wf(),
    ensures
        walked(o, n),
        kept_below(o, n, start),
        start >= stable(o) && n.lastpc >= stable(o) ==> advanced(o, n),
{
    lemma_emit_bytes_content(o.buf(), start, bytes, o.lineno);
}

/// An instruction without operands.
pub(crate) fn w_op0(s: &mut scope, i: u8) -> (r: Result<(), CodegenError>)
    requires
        old(s).wf(),
    ensures
        res_is(r, cg(final(s)), cg_op0(cg(old(s)), i)),
        r is Ok ==> walked(old(s), final(s)) && final(s).sp == old(s).sp && advanced(old(s), final(s)),
{
    let ghost o = *s;
    let r = genop_0(s, i);
    proof {
        if r is Ok {
            lemma_walk_at(&o, o.pc as int, s, crate::codegen::encode_0(i));
        }
    }
    r
}

/// An instruction with one (widenable) 8-bit operand.
pub(crate) fn w_op1(s: &mut scope, i: u8, a: u16) -> (r: Result<(), CodegenError>)
    requires
        old(s).wf(),
    ensures
        res_is(r, cg(final(s)), cg_op1(cg(old(s)), i, a)),
        r is Ok ==> walked(old(s), final(s)) && final(s).sp == old(s).sp && advanced(old(s), final(s)),
        r is Ok && spec_plain_format(i) == InsnFormat::B ==> spec_last_insn(final(s)) == (
        mrb_insn_data { insn: i, a: a, b: 0, c: 0 }),
{
    let ghost o = *s;
    let r = genop_1(s, i, a);
    proof {
        if r is Ok {
            lemma_walk_at(&o, o.pc as int, s, crate::codegen::encode_1(i, a));
            if spec_plain_format(i) == InsnFormat::B {
                lemma_genop_1_read_back(&o, s, i, a);
            }
        }
    }
    r
}

/// An instruction with two (widenable) 8-bit operands.
pub(crate) fn w_op2(s: &mut scope, i: u8, a: u16, b: u16) -> (r: Result<(), CodegenError>)
    requires
        old(s).wf(),
    ensures
        res_is(r, cg(final(s)), cg_op2(cg(old(s)), i, a, b)),
        r is Ok ==> walked(old(s), final(s)) && final(s).sp == old(s).sp && advanced(old(s), final(s)),
        r is Ok && spec_plain_format(i) == InsnFormat::BB ==> spec_last_insn(final(s)) == (
        mrb_insn_data { insn: i, a: a, b: b, c: 0 }),
{
    let ghost o = *s;
    let r = genop_2(s, i, a, b);
    proof {
        if r is Ok {
            lemma_walk_at(&o, o.pc as int, s, crate::codegen::encode_2(i, a, b));
            if spec_plain_format(i) == InsnFormat::BB {
                lemma_genop_2_read_back(&o, s, i, a, b);
            }
        }
    }
    r
}

/// An instruction with two widenable operands and an 8-bit one.
pub(crate) fn w_op3(s: &mut scope, i: u8, a: u16, b: u16, c: u8) -> (r: Result<(), CodegenError>)
    requires
        old(s).wf(),
    ensures
        res_is(r, cg(final(s)), cg_op3(cg(old(s)), i, a, b, c)),
        r is Ok ==> walked(old(s), final(s)) && final(s).sp == old(s).sp && advanced(old(s), final(s)),
        r is Ok && spec_plain_format(i) == InsnFormat::BBB ==> spec_last_insn(final(s)) == (
        mrb_insn_data { insn: i, a: a, b: b, c: c }),
{
    let ghost o = *s;
    let r = genop_3(s, i, a, b, c);
    proof {
        if r is Ok {
            lemma_walk_at(&o, o.pc as int, s, crate::codegen::encode_3(i, a, b, c));
            if spec_plain_format(i) == InsnFormat::BBB {
                lemma_genop_3_read_back(&o, s, i, a, b, c);
            }
        }
    }
    r
}

/// An instruction with a widenable 8-bit operand and a 16-bit one.
#[allow(non_snake_case)]
pub(crate) fn w_op2S(s: &mut scope, i: u8, a: u16, b: u16) -> (r: Result<(), CodegenError>)
    requires
        old(s).wf(),
    ensures
        res_is(r, cg(final(s)), cg_op2s(cg(old(s)), i, a, b)),
        r is Ok ==> walked(old(s), final(s)) && final(s).sp == old(s).sp && advanced(old(s), final(s)),
{
    let ghost o = *s;
    let r = genop_2S(s, i, a, b);
    proof {
        if r is Ok {
            lemma_walk_at(&o, o.pc as int, s, crate::codegen::encode_2s(i, a, b));
        }
    }
    r
}

/// An instruction with a 24-bit operand.
#[allow(non_snake_case)]
pub(crate) fn w_opW(s: &mut scope, i: u8, a: u32) -> (r: Result<(), CodegenError>)
    requires
        old(s).wf(),
    ensures
        res_is(r, cg(final(s)), cg_opw(cg(old(s)), i, a)),
        r is Ok ==> walked(old(s), final(s)) && final(s).sp == old(s).sp && advanced(old(s), final(s)),
        r is Ok ==> final(s).iseq@.subrange(old(s).pc as int, old(s).pc + 4)
            == crate::codegen::encode_w(i, a) && final(s).pc == old(s).pc + 4 && final(s).lastpc
            == old(s).pc,
{
    let ghost o = *s;
    let r = genop_W(s, i, a);
    proof {
        if r is Ok {
            lemma_walk_at(&o, o.pc as int, s, crate::codegen::encode_w(i, a));
            lemma_emit_bytes_content(o.buf(), o.pc as int, crate::codegen::encode_w(i, a), o.lineno);
            assert(s.iseq@.subrange(o.pc as int, o.pc + 4) =~= crate::codegen::encode_w(i, a));
        }
    }
    r
}

/// A forward jump; its operand position lies inside the buffer.
pub(crate) fn w_jmp(s: &mut scope, i: u8) -> (r: Result<u16, CodegenError>)
    requires
        old(s).wf(),
    ensures
        res_is_v(r, cg(final(s)), cg_jmp(cg(old(s)), i, 0)),
        r matches Ok(pos) ==> walked(old(s), final(s)) && final(s).sp == old(s).sp && pos + 1
            < final(s).icapa && advanced(old(s), final(s)) && pos == old(s).pc + 1 && final(s).pc
            == old(s).pc + 3 && pos > stable(old(s)),
{
    let ghost o = *s;
    let r = genjmp(s, i, 0);
    proof {
        if r is Ok {
            lemma_walk_at(&o, o.pc as int, s, seq![i] + crate::codegen::enc_s(0));
        }
    }
    r
}

/// A conditional jump on register `a` to `pc` (0 for a forward jump
/// resolved later).
pub(crate) fn w_jmp2(s: &mut scope, i: u8, a: u16, pc: u16, val: bool) -> (r: Result<u16, CodegenError>)
    requires
        old(s).wf(),
    ensures
        res_is_v(r, cg(final(s)), cg_jmp2(cg(old(s)), i, a, pc, val)),
        r matches Ok(pos) ==> walked(old(s), final(s)) && final(s).sp == old(s).sp && pos + 1
            < final(s).icapa && advanced(old(s), final(s)) && pos > stable(old(s)),
        r matches Ok(pos) ==> (!foldable(i) && !crate::opcode::is_ext_prefix(i) ==> jump_before(
            final(s).iseq@,
            pos as int,
            i,
        ) && stable(final(s)) >= pos),
{
    let ghost o = *s;
    let r = genjmp2(s, i, a, pc as i32, if val { 1 } else { 0 });
    proof {
        if let Ok(pos) = r {
            let fold = crate::peephole::jmp_folds_move(&o, a, if val { 1 } else { 0 });
            let start = if fold { o.lastpc as int } else { o.pc as int };
            let reg = if fold { crate::peephole::spec_last_insn(&o).b } else { a };
            let bytes = crate::codegen::encode_2s(i, reg, pc);
            lemma_walk_at(&o, start, s, bytes);
            lemma_emit_bytes_content(o.buf(), start, bytes, o.lineno);
            if !foldable(i) && !crate::opcode::is_ext_prefix(i) {
                let code = s.iseq@;
                if reg > 0xff {
                    assert(bytes[0] == crate::opcode::OP_EXT1 && bytes[1] == i);
                    assert(code[start] == crate::opcode::OP_EXT1 && code[start + 1] == i);
                    assert(pos == start + 4);
                } else {
                    assert(bytes[0] == i);
                    assert(code[start] == i);
                    assert(pos == start + 2);
                }
                assert(crate::opcode::spec_insn_opcode(code, start) == i);
                assert(s.lastpc == start && s.pc == pos + 2);
                assert(crate::peephole::spec_last_insn(s).insn == i);
            }
        }
    }
    r
}

/// A jump to the known position `pc`.
pub(crate) fn w_jmp_to(s: &mut scope, i: u8, pc: u16) -> (r: Result<(), CodegenError>)
    requires
        old(s).wf(),
    ensures
        res_is(r, cg(final(s)), unv(cg_jmp(cg(old(s)), i, pc))),
        r is Ok ==> walked(old(s), final(s)) && final(s).sp == old(s).sp && advanced(old(s), final(s)),
        r is Ok && spec_plain_format(i) == InsnFormat::S ==> spec_last_insn(final(s)) == (
        mrb_insn_data { insn: i, a: pc, b: 0, c: 0 }),
{
    let ghost o = *s;
    let r = genjmp(s, i, pc);
    proof {
        if r is Ok {
            lemma_walk_at(&o, o.pc as int, s, seq![i] + crate::codegen::enc_s(pc));
            if spec_plain_format(i) == InsnFormat::S {
                crate::roundtrip::lemma_decode_encode_jmp(i, pc);
                crate::roundtrip::lemma_last_insn_after_emit(&o, s, seq![i] + crate::codegen::enc_s(pc));
            }
        }
    }
    match r {
        Ok(_) => Ok(()),
        Err(e) => Err(e),
    }
}

/// Raises a `LocalJumpError` with message `msg` at run time; fails when the
/// literal pool is full.
pub(crate) fn w_raise(s: &mut scope, msg: &Vec<u8>) -> (r: Result<(), CodegenError>)
    requires
        old(s).wf(),
    ensures
        res_is(r, cg(final(s)), crate::model::cg_raise(cg(old(s)), msg@)),
        r is Ok ==> walked(old(s), final(s)) && final(s).sp == old(s).sp && advanced(old(s), final(s)),
        old(s).pool@.len() >= 65535 ==> r == Err::<(), CodegenError>(CodegenError::TooManyLiterals),
        r is Ok ==> spec_last_insn(final(s)).insn == crate::opcode::OP_ERR && crate::pool::pool_lits(
            final(s).pool@,
        )[spec_last_insn(final(s)).a as int] == crate::pool::PoolLit::Str(msg@) && (spec_last_insn(
            final(s),
        ).a as int) < final(s).pool@.len(),
{
    let v = crate::codegen::PoolValue::Str(copy_bytes(msg));
    let idx = w_lit(s, &v)?;
    let ghost s1 = *s;
    let r = w_op1(s, crate::opcode::OP_ERR, idx);
    proof {
        if r is Ok {
            assert(cg(s).pool == cg(&s1).pool);
            assert(s.pool@.len() == crate::pool::pool_lits(s.pool@).len());
            assert(s1.pool@.len() == crate::pool::pool_lits(s1.pool@).len());
        }
    }
    r
}

fn copy_bytes(b: &Vec<u8>) -> (r: Vec<u8>)
    ensures
        r@ == b@,
{
    let mut v: Vec<u8> = Vec::new();
    let mut k: usize = 0;
    while k < b.len()
        invariant
            k <= b@.len(),
            v@ == b@.subrange(0, k as int),
        decreases b@.len() - k,
    {
        v.push(b[k]);
        k = k + 1;
        proof {
            assert(v@ =~= b@.subrange(0, k as int));
        }
    }
    proof {
        assert(v@ =~= b@);
    }
    v
}

/// Points the jump whose operand is at `pos` here.
pub(crate) fn w_dispatch(s: &mut scope, pos: u16) -> (r: Result<(), CodegenError>)
    requires
        old(s).wf(),
        pos + 1 < old(s).icapa,
    ensures
        res_is(r, cg(final(s)), cg_dispatch(cg(old(s)), pos)),
        r is Ok ==> walked(old(s), final(s)) && final(s).sp == old(s).sp && stable(final(s)) >= stable(
            old(s),
        ) && kept_below(old(s), final(s), pos as int),
{
    let ghost o = *s;
    let r = dispatch(s, pos);
    proof {
        if r is Ok {
            lemma_walk_at(&o, pos as int, s, crate::codegen::enc_s(o.pc));
        }
    }
    match r {
        Ok(_) => Ok(()),
        Err(e) => Err(e),
    }
}

/// A label at the current position.
pub(crate) fn w_label(s: &mut scope) -> (r: u16)
    requires
        old(s).wf(),
    ensures
        cg(final(s)) == cg_label(cg(old(s))),
        walked(old(s), final(s)),
        advanced(old(s), final(s)),
        final(s).sp == old(s).sp,
        stable(final(s)) == final(s).pc,
        final(s).iseq@ == old(s).iseq@,
        r == old(s).pc,
        final(s).pc == old(s).pc,
{
    new_label(s);
    s.pc
}

/// The move `dst <- src` (see [`gen_move`]).
pub(crate) fn w_move(s: &mut scope, dst: u16, src: u16, nopeep: bool) -> (r: Result<(), CodegenError>)
    requires
        old(s).wf(),
    ensures
        res_is(r, cg(final(s)), cg_move(cg(old(s)), dst, src, nopeep)),
        r is Ok ==> walked(old(s), final(s)) && final(s).sp == old(s).sp && advanced(old(s), final(s)),
{
    let ghost o = *s;
    let r = gen_move(s, dst, src, if nopeep { 1 } else { 0 });
    proof {
        if r is Ok {
            let np: i32 = if nopeep { 1 } else { 0 };
            let last = crate::peephole::spec_last_insn(&o);
            if crate::peephole::move_is_redundant(&o, dst, src) {
            } else if crate::peephole::move_retargets_load(&o, src, np) {
                let bytes = if crate::peephole::is_load_const_op(last.insn) {
                    crate::codegen::encode_1(last.insn, dst)
                } else {
                    crate::codegen::encode_2(last.insn, dst, last.b)
                };
                lemma_walk_at(&o, o.lastpc as int, s, bytes);
            } else {
                let mv = crate::codegen::encode_2(crate::opcode::OP_MOVE, dst, src);
                let bytes = if o.on_eval { mv + crate::codegen::encode_0(crate::opcode::OP_NOP) } else { mv };
                lemma_walk_at(&o, o.pc as int, s, bytes);
            }
        }
    }
    r
}

/// A return-like instruction (see [`gen_return`]).
pub(crate) fn w_return(s: &mut scope, op: u8, src: u16) -> (r: Result<(), CodegenError>)
    requires
        old(s).wf(),
    ensures
        res_is(r, cg(final(s)), cg_return(cg(old(s)), op, src)),
        r is Ok ==> walked(old(s), final(s)) && final(s).sp == old(s).sp && advanced(old(s), final(s)),
        r is Ok && spec_plain_format(op) == InsnFormat::B ==> (crate::peephole::spec_no_peephole(
            old(s),
        ) || spec_last_insn(old(s)).insn != crate::opcode::OP_RETURN ==> spec_last_insn(
            final(s),
        ).insn == op),
{
    let ghost o = *s;
    let r = gen_return(s, op, src);
    proof {
        if r is Ok {
            let last = crate::peephole::spec_last_insn(&o);
            if crate::peephole::spec_no_peephole(&o) {
                lemma_walk_at(&o, o.pc as int, s, crate::codegen::encode_1(op, src));
                if spec_plain_format(op) == InsnFormat::B {
                    lemma_genop_1_read_back(&o, s, op, src);
                }
            } else if last.insn == crate::opcode::OP_MOVE && src == last.a {
                lemma_walk_at(&o, o.lastpc as int, s, crate::codegen::encode_1(op, last.b));
                if spec_plain_format(op) == InsnFormat::B {
                    crate::roundtrip::lemma_decode_encode_1(op, last.b);
                    crate::roundtrip::lemma_last_insn_after_emit_at(
                        &o,
                        o.lastpc as int,
                        s,
                        crate::codegen::encode_1(op, last.b),
                    );
                }
            } else if last.insn != crate::opcode::OP_RETURN {
                lemma_walk_at(&o, o.pc as int, s, crate::codegen::encode_1(op, src));
                if spec_plain_format(op) == InsnFormat::B {
                    lemma_genop_1_read_back(&o, s, op, src);
                }
            }
        }
    }
    r
}

/// An addition or subtraction (see [`gen_addsub`]).
pub(crate) fn w_addsub(s: &mut scope, op: u8, dst: u16) -> (r: Result<(), CodegenError>)
    requires
        old(s).wf(),
    ensures
        res_is(r, cg(final(s)), cg_addsub(cg(old(s)), op, dst)),
        r is Ok ==> walked(old(s), final(s)) && final(s).sp == old(s).sp && advanced(old(s), final(s)),
        r is Ok && (op == crate::opcode::OP_ADD || op == crate::opcode::OP_SUB) ==> {
            let last = spec_last_insn(final(s));
            &&& last.a == dst
            &&& last.insn == op || last.insn == crate::opcode::OP_ADDI || last.insn
                == crate::opcode::OP_SUBI
        },
{
    let ghost o = *s;
    let r = gen_addsub(s, op, dst);
    proof {
        if r is Ok {
            match crate::peephole::addsub_immediate(&o, op) {
                Some((op2, b)) if b < 128 => {
                    let i = if op2 == crate::opcode::OP_ADD {
                        crate::opcode::OP_ADDI
                    } else {
                        crate::opcode::OP_SUBI
                    };
                    lemma_walk_at(&o, o.lastpc as int, s, crate::codegen::encode_2(i, dst, b));
                    if op == crate::opcode::OP_ADD || op == crate::opcode::OP_SUB {
                        crate::roundtrip::lemma_decode_encode_2(i, dst, b);
                        crate::roundtrip::lemma_last_insn_after_emit_at(
                            &o,
                            o.lastpc as int,
                            s,
                            crate::codegen::encode_2(i, dst, b),
                        );
                    }
                },
                _ => {
                    lemma_walk_at(&o, o.pc as int, s, crate::codegen::encode_1(op, dst));
                    if op == crate::opcode::OP_ADD || op == crate::opcode::OP_SUB {
                        lemma_genop_1_read_back(&o, s, op, dst);
                    }
                },
            }
        }
    }
    r
}

/// Reserves `n` registers.
pub(crate) fn w_push(s: &mut scope, n: u16) -> (r: Result<(), CodegenError>)
    requires
        old(s).wf(),
    ensures
        res_is(r, cg(final(s)), cg_push(cg(old(s)), n)),
        old(s).sp + n >= 0xffff ==> r == Err::<(), CodegenError>(CodegenError::TooComplexExpression),
        r is Ok ==> walked(old(s), final(s)) && final(s).sp == old(s).sp + n && advanced(old(s), final(s)),
        r is Ok ==> spec_last_insn(final(s)) == spec_last_insn(old(s)) && final(s).pool@ == old(
            s,
        ).pool@,
{
    push_n_(s, n as i32)
}

/// Releases `n` registers.
pub(crate) fn w_pop(s: &mut scope, n: u16) -> (r: Result<(), CodegenError>)
    requires
        old(s).wf(),
    ensures
        res_is(r, cg(final(s)), cg_pop(cg(old(s)), n)),
        old(s).sp >= n ==> r is Ok,
        r is Ok ==> walked(old(s), final(s)) && final(s).sp == old(s).sp - n && advanced(old(s), final(s)),
        r is Ok ==> spec_last_insn(final(s)) == spec_last_insn(old(s)),
{
    pop_n_(s, n as i32)
}

/// The symbol-table index of `sym`; fails when the table is full.
pub(crate) fn w_sym(s: &mut scope, sym: u32) -> (r: Result<u16, CodegenError>)
    requires
        old(s).wf(),
    ensures
        res_is_v(r, cg(final(s)), cg_sym(cg(old(s)), sym)),
        r is Ok ==> walked(old(s), final(s)) && final(s).sp == old(s).sp && advanced(old(s), final(s)),
        old(s).syms@.len() >= 65535 ==> r == Err::<u16, CodegenError>(CodegenError::TooManySymbols),
        r matches Ok(i) ==> (i as int) < final(s).syms@.len() && final(s).syms@[i as int] == sym,
        r is Ok ==> spec_last_insn(final(s)) == spec_last_insn(old(s)),
{
    if s.syms.len() >= 65535 {
        return Err(CodegenError::TooManySymbols);
    }
    let i = new_sym(s, sym);
    Ok(i as u16)
}

/// The literal-pool index of `v`; fails when the pool is full.
pub(crate) fn w_lit(s: &mut scope, v: &PoolValue) -> (r: Result<u16, CodegenError>)
    requires
        old(s).wf(),
    ensures
        res_is_v(r, cg(final(s)), cg_lit(cg(old(s)), crate::pool::lit_of(*v))),
        r is Ok ==> walked(old(s), final(s)) && final(s).sp == old(s).sp && advanced(old(s), final(s)),
        old(s).pool@.len() >= 65535 ==> r == Err::<u16, CodegenError>(CodegenError::TooManyLiterals),
        r matches Ok(k) ==> (k as int) < final(s).pool@.len() && crate::pool::pool_lits(
            final(s).pool@,
        )[k as int] == crate::pool::lit_of(*v),
        r is Ok ==> spec_last_insn(final(s)) == spec_last_insn(old(s)),
{
    if s.pool.len() >= 65535 {
        return Err(CodegenError::TooManyLiterals);
    }
    let i = new_lit(s, v);
    Ok(i as u16)
}

} // verus!
