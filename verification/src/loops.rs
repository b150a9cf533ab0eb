//! The stack of enclosing loops of a scope, and `break`: which loop it
//! leaves, what it emits, and how its jumps are resolved when the loop ends.

use vstd::prelude::*;
use crate::codegen::{
    scope, looptype, loopinfo, CodegenError, CodeBuf, encode_1, emit_bytes, dispatch_chain,
    jump_chain_ok, genop_1, dispatch_linked, push_n_, lemma_chain_frame, lemma_emit_bytes_content,
    emit_outcome, enc_s, genjmp, emit_outcome_at, encode_2, encode_0, on_chain, lemma_on_chain_frame,
};
use crate::opcode::{OP_LOADNIL, OP_POPERR, OP_EPOP, OP_JMP, OP_BREAK};
use crate::peephole::{
    move_outcome, return_outcome, unchanged, gen_move, gen_return, spec_last_insn, is_load_const_op,
    is_load_operand_op, move_retargets_load, move_is_redundant,
};
use crate::pool::{raised, raise_error};

verus! {

/// Enters a loop of kind `t`: its jump positions start at 0, and it
/// remembers the current ensure level and stack position.  Returns the index
/// of its record.
pub fn loop_push(s: &mut scope, t: looptype) -> (idx: usize)
    ensures
        idx == old(s).loops@.len(),
        final(s).loops@ == old(s).loops@.push(
            loopinfo {
                type_0: t,
                pc0: 0,
                pc1: 0,
                pc2: 0,
                pc3: 0,
                acc: old(s).sp as i32,
                ensure_level: old(s).ensure_level,
            },
        ),
        final(s).same_code(old(s)),
        final(s).same_core(old(s)),
        final(s).sp == old(s).sp,
        final(s).nregs == old(s).nregs,
        final(s).pool@ == old(s).pool@,
        final(s).syms@ == old(s).syms@,
        final(s).reps@ == old(s).reps@,
        final(s).ensure_level == old(s).ensure_level,
        crate::model::cg(final(s)) == crate::model::cg_loop_push(crate::model::cg(old(s)), t),
{
    let idx = s.loops.len();
    let lp = loopinfo {
        type_0: t,
        pc0: 0,
        pc1: 0,
        pc2: 0,
        pc3: 0,
        acc: s.sp as i32,
        ensure_level: s.ensure_level,
    };
    s.loops.push(lp);
    idx
}

/// A chain valid up to `l1` is valid up to any later limit within the code.
pub proof fn lemma_chain_limit(code: Seq<u8>, p: int, l1: int, l2: int)
    requires
        jump_chain_ok(code, p, l1),
        l1 <= l2 <= code.len(),
    ensures
        jump_chain_ok(code, p, l2),
    decreases p,
{
    if p > 0 {
        lemma_chain_limit(code, crate::opcode::read_s(code, p) as int, l1, l2);
    }
}

/// The buffer and position after the optional `nil` load of [`loop_pop`].
pub open spec fn loop_pop_load(s: &scope, val: i32) -> Option<(CodeBuf, int)> {
    if val != 0 {
        match s.emitted(encode_1(OP_LOADNIL, s.sp)) {
            None => None,
            Some(b) => Some((b, s.pc + encode_1(OP_LOADNIL, s.sp).len())),
        }
    } else {
        Some((s.buf(), s.pc as int))
    }
}

/// The buffer after [`loop_pop`] resolved the pending breaks of the loop.
pub open spec fn loop_pop_code(s: &scope, val: i32) -> Option<CodeBuf> {
    let pos = s.loops@.last().pc3 as u16;
    match loop_pop_load(s, val) {
        None => None,
        Some((b, pc)) => if pos == 0 {
            Some(b)
        } else {
            dispatch_chain(b, pos as int, pc as u16, s.lineno)
        },
    }
}

/// Leaves the innermost loop: loads `nil` as the loop's value when `val` is
/// set, points every pending `break` jump of the loop here, and drops the
/// loop record (reserving the value's register when `val` is set).
pub fn loop_pop(s: &mut scope, val: i32) -> (r: Result<(), CodegenError>)
    requires
        old(s).wf(),
        old(s).loops@.len() > 0,
        jump_chain_ok(old(s).iseq@, (old(s).loops@.last().pc3 as u16) as int, old(s).pc as int),
    ensures
        old(s).loops@.last().pc3 == 0 ==> crate::model::res_is(
            r,
            crate::model::cg(final(s)),
            crate::model::cg_loop_pop(crate::model::cg(old(s)), val != 0),
        ),
        ({
            let pos = old(s).loops@.last().pc3 as u16;
            match loop_pop_code(old(s), val) {
                None => r == Err::<(), CodegenError>(CodegenError::TooBigCodeBlock),
                Some(b) => {
                    let pc1 = loop_pop_load(old(s), val).unwrap().1;
                    if val != 0 && old(s).sp + 1 >= 0xffff {
                        r == Err::<(), CodegenError>(CodegenError::TooComplexExpression)
                    } else {
                        &&& r is Ok
                        &&& final(s).buf() == b
                        &&& final(s).pc == pc1
                        &&& final(s).lastpc == if val != 0 {
                            old(s).pc
                        } else {
                            old(s).lastpc
                        }
                        &&& final(s).lastlabel == if pos != 0 {
                            pc1 as u16
                        } else {
                            old(s).lastlabel
                        }
                        &&& final(s).loops@ == old(s).loops@.drop_last()
                        &&& final(s).sp == if val != 0 {
                            (old(s).sp + 1) as u16
                        } else {
                            old(s).sp
                        }
                        &&& final(s).nregs == if val != 0 && old(s).sp + 1 > old(s).nregs {
                            (old(s).sp + 1) as u16
                        } else {
                            old(s).nregs
                        }
                        &&& final(s).same_core(old(s))
                        &&& final(s).pool@ == old(s).pool@
                        &&& final(s).syms@ == old(s).syms@
                        &&& final(s).reps@ == old(s).reps@
                        &&& final(s).ensure_level == old(s).ensure_level
                        &&& final(s).wf()
                    }
                },
            }
        }),
{
    let ghost s0 = *s;
    let pos0 = s.loops[s.loops.len() - 1].pc3 as u16;
    if val != 0 {
        let sp = s.sp;
        let r = genop_1(s, OP_LOADNIL, sp);
        if r.is_err() {
            return r;
        }
        proof {
            lemma_emit_bytes_content(s0.buf(), s0.pc as int, encode_1(OP_LOADNIL, sp), s0.lineno);
            if pos0 > 0 {
                lemma_chain_frame(s0.iseq@, s.iseq@, pos0 as int, s0.pc as int);
                lemma_chain_limit(s.iseq@, pos0 as int, s0.pc as int, s.pc as int);
            }
        }
    }
    let r = dispatch_linked(s, pos0);
    if r.is_err() {
        return r;
    }
    s.loops.pop();
    if val != 0 {
        let r = push_n_(s, 1);
        if r.is_err() {
            return r;
        }
    }
    Ok(())
}

/// Looking for the loop a `break` leaves among the records `loops[..k]`
/// (innermost last), having crossed `n` `begin` regions: `begin` regions are
/// counted and `rescue` regions skipped on the way out.  The index of the
/// loop and the number of `begin` regions crossed, or `None` when only such
/// regions enclose the `break`.
pub open spec fn break_search(loops: Seq<loopinfo>, k: int, n: int) -> Option<(int, int)>
    decreases k,
{
    if k <= 0 {
        None
    } else if loops[k - 1].type_0 == looptype::LOOP_BEGIN {
        break_search(loops, k - 1, n + 1)
    } else if loops[k - 1].type_0 == looptype::LOOP_RESCUE {
        break_search(loops, k - 1, n)
    } else {
        Some((k - 1, n))
    }
}

/// The loop a `break` leaves, and the number of `begin` regions it crosses.
pub open spec fn break_target(loops: Seq<loopinfo>) -> Option<(int, int)> {
    break_search(loops, loops.len() as int, 0)
}

/// One emission a `break` is made of.
#[derive(Clone, Copy, Debug, PartialEq, Eq, Structural)]
pub enum BreakOp {
    /// Leave `n` `begin` regions (`OP_POPERR n`).
    PopErr(u16),
    /// Run `n` pending `ensure` clauses (`OP_EPOP n`).
    EPop(u16),
    /// Move the break value into the loop's result register.
    Move { dst: u16, src: u16 },
    /// Load `nil` as the break value.
    LoadNil(u16),
    /// Jump out of the loop, linking the jump into the loop's chain of
    /// pending breaks.
    Jump { target: usize, pc: u16 },
    /// Break out of the block with the value in the register (`OP_BREAK`).
    Return(u16),
}

/// `new_s` and `r` after emitting an instruction with one operand.
pub open spec fn op1_outcome(old_s: &scope, new_s: &scope, i: u8, a: u16, r: Result<(), CodegenError>) -> bool {
    &&& emit_outcome(old_s, new_s, encode_1(i, a), r)
    &&& r is Ok ==> new_s.lastpc == old_s.pc
}

/// `new_s` and `r` after emitting a jump to `pc` and making its operand the
/// head of the chain of pending breaks of loop `target`.
pub open spec fn jump_outcome(
    old_s: &scope,
    new_s: &scope,
    target: int,
    pc: u16,
    r: Result<(), CodegenError>,
) -> bool {
    match old_s.emitted(seq![OP_JMP] + enc_s(pc)) {
        None => r == Err::<(), CodegenError>(CodegenError::TooBigCodeBlock),
        Some(b) => {
            &&& r is Ok
            &&& new_s.buf() == b
            &&& new_s.pc == old_s.pc + 3
            &&& new_s.lastpc == old_s.pc
            &&& new_s.lastlabel == old_s.lastlabel
            &&& new_s.same_core(old_s)
            &&& new_s.sp == old_s.sp
            &&& new_s.nregs == old_s.nregs
            &&& new_s.pool@ == old_s.pool@
            &&& new_s.syms@ == old_s.syms@
            &&& new_s.reps@ == old_s.reps@
            &&& new_s.ensure_level == old_s.ensure_level
            &&& new_s.loops@ == old_s.loops@.update(
                target,
                loopinfo { pc3: (old_s.pc + 1) as i32, ..old_s.loops@[target] },
            )
            &&& new_s.wf()
        },
    }
}

/// `new_s` and `r` after the emission `op`.
pub open spec fn op_outcome(op: BreakOp, old_s: &scope, new_s: &scope, r: Result<(), CodegenError>) -> bool {
    match op {
        BreakOp::PopErr(n) => op1_outcome(old_s, new_s, OP_POPERR, n, r),
        BreakOp::EPop(n) => op1_outcome(old_s, new_s, OP_EPOP, n, r),
        BreakOp::Move { dst, src } => move_outcome(old_s, new_s, dst, src, 0, r),
        BreakOp::LoadNil(a) => op1_outcome(old_s, new_s, OP_LOADNIL, a, r),
        BreakOp::Jump { target, pc } => jump_outcome(old_s, new_s, target as int, pc, r),
        BreakOp::Return(a) => return_outcome(old_s, new_s, OP_BREAK, a, r),
    }
}

/// `new_s` and `r` after the emissions `ops` in turn, stopping at the first
/// that fails.
pub open spec fn run_ops_outcome(ops: Seq<BreakOp>, old_s: &scope, new_s: &scope, r: Result<(), CodegenError>) -> bool
    decreases ops.len(),
{
    if ops.len() == 0 {
        r is Ok && unchanged(old_s, new_s)
    } else {
        exists|mid: scope, r1: Result<(), CodegenError>|
            #[trigger] op_outcome(ops[0], old_s, &mid, r1) && (r1 is Err ==> r == r1) && (r1 is Ok
                ==> run_ops_outcome(ops.drop_first(), &mid, new_s, r))
    }
}

/// The emissions of a `break` out of the loop `loops[t]`, crossing `n`
/// `begin` regions, whose value (if `has_value`) is in register `sp`.
pub open spec fn break_ops(s: &scope, t: int, n: int, has_value: bool) -> Seq<BreakOp> {
    let lp = s.loops@[t];
    let inner = s.loops@.last();
    let pre = if n > 0 {
        seq![BreakOp::PopErr(n as u16)]
    } else {
        Seq::empty()
    };
    if lp.type_0 == looptype::LOOP_NORMAL {
        let epop = if s.ensure_level > inner.ensure_level {
            seq![BreakOp::EPop((s.ensure_level - inner.ensure_level) as u16)]
        } else {
            Seq::empty()
        };
        let mv = if has_value {
            seq![BreakOp::Move { dst: lp.acc as u16, src: s.sp }]
        } else {
            Seq::empty()
        };
        pre + epop + mv + seq![BreakOp::Jump { target: t as usize, pc: lp.pc3 as u16 }]
    } else {
        let nil = if has_value {
            Seq::empty()
        } else {
            seq![BreakOp::LoadNil(s.sp)]
        };
        pre + nil + seq![BreakOp::Return(s.sp)]
    }
}

/// `"unexpected break"`
pub open spec fn unexpected_break() -> Seq<u8> {
    seq![117u8, 110u8, 101u8, 120u8, 112u8, 101u8, 99u8, 116u8, 101u8, 100u8, 32u8, 98u8, 114u8, 101u8, 97u8, 107u8]
}

/// Finds the loop a `break` leaves (see [`break_target`]): its index and the
/// number of `begin` regions crossed.
pub fn find_break_target(loops: &Vec<loopinfo>) -> (r: Option<(usize, usize)>)
    ensures
        match break_target(loops@) {
            None => r is None,
            Some((t, n)) => r == Some((t as usize, n as usize)),
        },
{
    let len = loops.len();
    let mut k: usize = len;
    let mut n: usize = 0;
    while k > 0
        invariant
            len == loops@.len(),
            k <= len,
            n + k <= len,
            break_target(loops@) == break_search(loops@, k as int, n as int),
        decreases k,
    {
        let t = loops[k - 1].type_0;
        if t == looptype::LOOP_BEGIN {
            n = n + 1;
        } else if t != looptype::LOOP_RESCUE {
            return Some((k - 1, n));
        }
        k = k - 1;
    }
    None
}

/// Performs the emission `op`.
fn run_op(s: &mut scope, op: BreakOp) -> (r: Result<(), CodegenError>)
    requires
        old(s).wf(),
        op matches BreakOp::Jump { target, pc } ==> target < old(s).loops@.len(),
    ensures
        op_outcome(op, old(s), final(s), r),
{
    match op {
        BreakOp::PopErr(n) => genop_1(s, OP_POPERR, n),
        BreakOp::EPop(n) => genop_1(s, OP_EPOP, n),
        BreakOp::Move { dst, src } => gen_move(s, dst, src, 0),
        BreakOp::LoadNil(a) => genop_1(s, OP_LOADNIL, a),
        BreakOp::Jump { target, pc } => {
            let pos = genjmp(s, OP_JMP, pc);
            match pos {
                Err(e) => Err(e),
                Ok(p) => {
                    let mut lp = s.loops[target];
                    lp.pc3 = p as i32;
                    s.loops.set(target, lp);
                    Ok(())
                },
            }
        },
        BreakOp::Return(a) => gen_return(s, OP_BREAK, a),
    }
}

/// A successful emission keeps the scope well formed and its loop records
/// in number.
proof fn lemma_op_keeps(op: BreakOp, old_s: &scope, new_s: &scope, r: Result<(), CodegenError>)
    requires
        old_s.wf(),
        op_outcome(op, old_s, new_s, r),
        r is Ok,
        op matches BreakOp::Jump { target, pc } ==> target < old_s.loops@.len(),
    ensures
        new_s.wf(),
        new_s.loops@.len() == old_s.loops@.len(),
{
}

/// Performs the emissions `ops[k..]` in turn, stopping at the first that fails.
fn run_ops(s: &mut scope, ops: &Vec<BreakOp>, k: usize) -> (r: Result<(), CodegenError>)
    requires
        old(s).wf(),
        k <= ops@.len(),
        forall|j: int|
            0 <= j < ops@.len() ==> ((#[trigger] ops@[j]) matches BreakOp::Jump { target, pc }
                ==> target < old(s).loops@.len()),
    ensures
        run_ops_outcome(ops@.skip(k as int), old(s), final(s), r),
    decreases ops@.len() - k,
{
    if k == ops.len() {
        proof {
            assert(ops@.skip(k as int).len() == 0);
        }
        return Ok(());
    }
    let ghost s0 = *s;
    let op = ops[k];
    assert(op == ops@[k as int]);
    let r1 = run_op(s, op);
    let ghost s1 = *s;
    if r1.is_err() {
        proof {
            assert(ops@.skip(k as int)[0] == op);
            assert(op_outcome(ops@.skip(k as int)[0], &s0, &s1, r1));
        }
        return r1;
    }
    proof {
        assert(op matches BreakOp::Jump { target, pc } ==> target < s0.loops@.len());
        lemma_op_keeps(op, &s0, &s1, r1);
    }
    let r = run_ops(s, ops, k + 1);
    proof {
        assert(ops@.skip(k as int)[0] == op);
        assert(ops@.skip(k as int).drop_first() =~= ops@.skip(k as int + 1));
        assert(op_outcome(ops@.skip(k as int)[0], &s0, &s1, r1));
    }
    r
}

/// The emissions of a `break` out of loop `t` crossing `n` `begin` regions
/// (see [`break_ops`]).
fn break_plan(s: &scope, t: usize, n: usize, has_value: bool) -> (ops: Vec<BreakOp>)
    requires
        t < s.loops@.len(),
    ensures
        ops@ == break_ops(s, t as int, n as int, has_value),
{
    let lp = s.loops[t];
    let inner = s.loops[s.loops.len() - 1];
    let mut ops: Vec<BreakOp> = Vec::new();
    if n > 0 {
        ops.push(BreakOp::PopErr(n as u16));
    }
    if lp.type_0 == looptype::LOOP_NORMAL {
        if s.ensure_level > inner.ensure_level {
            let d = (s.ensure_level as i64 - inner.ensure_level as i64) as u16;
            ops.push(BreakOp::EPop(d));
        }
        if has_value {
            ops.push(BreakOp::Move { dst: lp.acc as u16, src: s.sp });
        }
        ops.push(BreakOp::Jump { target: t, pc: lp.pc3 as u16 });
    } else {
        if !has_value {
            ops.push(BreakOp::LoadNil(s.sp));
        }
        ops.push(BreakOp::Return(s.sp));
    }
    proof {
        assert(ops@ =~= break_ops(s, t as int, n as int, has_value));
    }
    ops
}

/// Emits a `break` whose value, when `has_value`, was just generated into
/// register `sp` (when the `break` is in no loop at all the value is
/// generated for its effects only).  The `break` leaves the innermost
/// enclosing loop, crossing `begin` regions (which it pops) and `rescue`
/// regions: out of a `while`/`until` loop it runs the pending `ensure`
/// clauses, moves its value into the loop's result register and jumps to
/// the loop's end (the jump joins the loop's chain of pending breaks); out
/// of a block it breaks with its value (`nil` when it has none).  With no
/// loop to leave, it emits the raising of "unexpected break".
pub fn loop_break(s: &mut scope, has_value: bool) -> (r: Result<(), CodegenError>)
    requires
        old(s).wf(),
        old(s).pool@.len() < 65535,
    ensures
        match break_target(old(s).loops@) {
            None => raised(old(s), final(s), unexpected_break(), r),
            Some((t, n)) => run_ops_outcome(break_ops(old(s), t, n, has_value), old(s), final(s), r),
        },
{
    match find_break_target(&s.loops) {
        None => {
            let msg: Vec<u8> = vec![117u8, 110u8, 101u8, 120u8, 112u8, 101u8, 99u8, 116u8, 101u8, 100u8, 32u8, 98u8, 114u8, 101u8, 97u8, 107u8];
            proof {
                assert(msg@ =~= unexpected_break());
            }
            raise_error(s, &msg)
        },
        Some((t, n)) => {
            proof {
                vstd::std_specs::vec::axiom_spec_len(&s.loops);
                lemma_break_target_bounds(s.loops@, s.loops@.len() as int, 0);
                let (tt, nn) = break_target(s.loops@)->0;
                assert(tt as usize == t && nn as usize == n);
                assert(0 <= tt < s.loops@.len() && 0 <= nn <= s.loops@.len());
                assert(tt == t as int && nn == n as int);
            }
            let ops = break_plan(s, t, n, has_value);
            proof {
                assert(ops@.skip(0) =~= ops@);
                assert forall|j: int| 0 <= j < ops@.len() implies ((#[trigger] ops@[j]) matches BreakOp::Jump {
                    target,
                    pc,
                } ==> target < s.loops@.len()) by {}
            }
            run_ops(s, &ops, 0)
        },
    }
}

/// The loop a `break` leaves is one of the records looked at.
proof fn lemma_break_target_bounds(loops: Seq<loopinfo>, k: int, n: int)
    requires
        0 <= k <= loops.len(),
    ensures
        break_search(loops, k, n) matches Some((t, m)) ==> 0 <= t < k && n <= m <= n + k,
    decreases k,
{
    if k > 0 {
        lemma_break_target_bounds(loops, k - 1, n + 1);
        lemma_break_target_bounds(loops, k - 1, n);
    }
}

/// The pending breaks of loop `t` form a valid chain in the code emitted so far.
pub open spec fn breaks_chained(s: &scope, t: int) -> bool {
    jump_chain_ok(s.iseq@, (s.loops@[t].pc3 as u16) as int, s.pc as int)
}

/// When the last instruction is a load that a following move may fold
/// into, the pending breaks of loop `t` all lie before it.
pub open spec fn breaks_before_load(s: &scope, t: int) -> bool {
    (is_load_const_op(spec_last_insn(s).insn) || is_load_operand_op(spec_last_insn(s).insn))
        ==> jump_chain_ok(s.iseq@, (s.loops@[t].pc3 as u16) as int, s.lastpc as int)
}

/// The chain at `p`, valid up to `limit` in `c1`, is still valid, up to
/// any limit up to `l2`, in a code `c2` that keeps the bytes below `limit`.
proof fn lemma_chain_kept(c1: Seq<u8>, c2: Seq<u8>, p: int, limit: int, l2: int)
    requires
        jump_chain_ok(c1, p, limit),
        c1.len() <= c2.len(),
        limit <= l2 <= c2.len(),
        forall|j: int| 0 <= j < limit && j < c1.len() ==> c1[j] == c2[j],
    ensures
        jump_chain_ok(c2, p, l2),
{
    if p > 0 {
        lemma_chain_frame(c1, c2, p, limit);
        lemma_chain_limit(c2, p, limit, l2);
    }
}

/// One emission of a `break` out of loop `t` keeps its pending breaks a
/// valid chain; `h` is the head of that chain before the emission.
proof fn lemma_op_keeps_chain(op: BreakOp, s0: &scope, s1: &scope, t: int)
    requires
        s0.wf(),
        0 <= t < s0.loops@.len(),
        op_outcome(op, s0, s1, Ok(())),
        op is PopErr || op is EPop || op is Move || op is LoadNil || op == (BreakOp::Jump {
            target: t as usize,
            pc: s0.loops@[t].pc3 as u16,
        }),
        breaks_chained(s0, t),
        breaks_before_load(s0, t),
    ensures
        s1.wf(),
        s1.loops@.len() == s0.loops@.len(),
        !(op is Jump) ==> s1.loops@ == s0.loops@,
        breaks_chained(s1, t),
        breaks_before_load(s1, t),
{
    let h = (s0.loops@[t].pc3 as u16) as int;
    vstd::std_specs::vec::axiom_spec_len(&s0.loops);
    match op {
        BreakOp::Move { dst, src } => {
            let last = spec_last_insn(s0);
            if move_is_redundant(s0, dst, src) {
            } else if move_retargets_load(s0, src, 0) {
                let bytes = if is_load_const_op(last.insn) {
                    crate::codegen::encode_1(last.insn, dst)
                } else {
                    encode_2(last.insn, dst, last.b)
                };
                lemma_emit_bytes_content(s0.buf(), s0.lastpc as int, bytes, s0.lineno);
                lemma_chain_kept(s0.iseq@, s1.iseq@, h, s0.lastpc as int, s1.pc as int);
                lemma_chain_kept(s0.iseq@, s1.iseq@, h, s0.lastpc as int, s1.lastpc as int);
            } else {
                let mv = encode_2(crate::opcode::OP_MOVE, dst, src);
                let bytes = if s0.on_eval { mv + encode_0(crate::opcode::OP_NOP) } else { mv };
                lemma_emit_bytes_content(s0.buf(), s0.pc as int, bytes, s0.lineno);
                lemma_chain_kept(s0.iseq@, s1.iseq@, h, s0.pc as int, s1.pc as int);
                lemma_chain_kept(s0.iseq@, s1.iseq@, h, s0.pc as int, s1.lastpc as int);
            }
        },
        BreakOp::Jump { target, pc } => {
            let bytes = seq![OP_JMP] + enc_s(pc);
            lemma_emit_bytes_content(s0.buf(), s0.pc as int, bytes, s0.lineno);
            let pos = s0.pc + 1;
            assert(s1.loops@[t].pc3 == pos as i32);
            assert((pos as i32) as u16 == pos);
            assert(crate::opcode::read_s(s1.iseq@, pos) == pc) by {
                assert(s1.iseq@[pos] == bytes[1]);
                assert(s1.iseq@[pos + 1] == bytes[2]);
            }
            lemma_chain_kept(s0.iseq@, s1.iseq@, h, s0.pc as int, s1.pc as int);
            assert(breaks_chained(s1, t));
            assert(s1.iseq@[s0.pc as int] == OP_JMP);
            assert(spec_last_insn(s1).insn == OP_JMP);
        },
        _ => {
            let (i, a) = match op {
                BreakOp::PopErr(n) => (OP_POPERR, n),
                BreakOp::EPop(n) => (OP_EPOP, n),
                BreakOp::LoadNil(a) => (OP_LOADNIL, a),
                _ => (0u8, 0u16),
            };
            lemma_emit_bytes_content(s0.buf(), s0.pc as int, encode_1(i, a), s0.lineno);
            lemma_chain_kept(s0.iseq@, s1.iseq@, h, s0.pc as int, s1.pc as int);
            lemma_chain_kept(s0.iseq@, s1.iseq@, h, s0.pc as int, s1.lastpc as int);
        },
    }
}

/// The emissions of a `break` out of the while-loop `t` whose chain of
/// pending breaks starts at `h`: instructions that leave the loop records
/// alone, then the jump that joins that chain.
pub open spec fn leaving_ops(ops: Seq<BreakOp>, t: int, h: u16) -> bool {
    &&& ops.len() > 0
    &&& ops.last() == (BreakOp::Jump { target: t as usize, pc: h })
    &&& forall|j: int|
        0 <= j < ops.len() - 1 ==> (#[trigger] ops[j] is PopErr || ops[j] is EPop || ops[j] is Move
            || ops[j] is LoadNil)
}

proof fn lemma_ops_keep_chain(ops: Seq<BreakOp>, s0: &scope, s1: &scope, t: int)
    requires
        s0.wf(),
        0 <= t < s0.loops@.len(),
        run_ops_outcome(ops, s0, s1, Ok(())),
        leaving_ops(ops, t, s0.loops@[t].pc3 as u16),
        breaks_chained(s0, t),
        breaks_before_load(s0, t),
    ensures
        breaks_chained(s1, t),
    decreases ops.len(),
{
    let (mid, r1) = choose|mid: scope, r1: Result<(), CodegenError>|
        #[trigger] op_outcome(ops[0], s0, &mid, r1) && (r1 is Err ==> Ok::<(), CodegenError>(())
            == r1) && (r1 is Ok ==> run_ops_outcome(ops.drop_first(), &mid, s1, Ok(())));
    assert(r1 is Ok);
    if ops.len() == 1 {
        lemma_op_keeps_chain(ops[0], s0, &mid, t);
        assert(ops.drop_first().len() == 0);
        assert(unchanged(&mid, s1));
    } else {
        assert(ops[0] is PopErr || ops[0] is EPop || ops[0] is Move || ops[0] is LoadNil);
        lemma_op_keeps_chain(ops[0], s0, &mid, t);
        let rest = ops.drop_first();
        assert(rest.last() == ops.last());
        assert forall|j: int| 0 <= j < rest.len() - 1 implies (#[trigger] rest[j] is PopErr
            || rest[j] is EPop || rest[j] is Move || rest[j] is LoadNil) by {
            assert(rest[j] == ops[j + 1]);
        }
        lemma_ops_keep_chain(rest, &mid, s1, t);
    }
}

/// A `break` out of a `while`/`until` loop keeps the loop's pending breaks
/// a valid chain — the chain that leaving the loop resolves — provided they
/// formed one before, lying before the last instruction when that is a load
/// the break value could fold into.
pub proof fn lemma_break_keeps_chain(
    old_s: &scope,
    new_s: &scope,
    has_value: bool,
    t: int,
    n: int,
)
    requires
        old_s.wf(),
        break_target(old_s.loops@) == Some((t, n)),
        old_s.loops@[t].type_0 == looptype::LOOP_NORMAL,
        run_ops_outcome(break_ops(old_s, t, n, has_value), old_s, new_s, Ok(())),
        breaks_chained(old_s, t),
        breaks_before_load(old_s, t),
    ensures
        breaks_chained(new_s, t),
{
    lemma_break_target_bounds(old_s.loops@, old_s.loops@.len() as int, 0);
    let ops = break_ops(old_s, t, n, has_value);
    assert(leaving_ops(ops, t, old_s.loops@[t].pc3 as u16));
    lemma_ops_keep_chain(ops, old_s, new_s, t);
}

/// Emitting an instruction at the current position keeps every chain of
/// pending jumps valid, with the same jumps on it.
pub proof fn lemma_emit_keeps_chain(old_s: &scope, new_s: &scope, bytes: Seq<u8>, p: int, q: int)
    requires
        old_s.wf(),
        emit_outcome(old_s, new_s, bytes, Ok(())),
        jump_chain_ok(old_s.iseq@, p, old_s.pc as int),
    ensures
        jump_chain_ok(new_s.iseq@, p, new_s.pc as int),
        on_chain(old_s.iseq@, p, q) ==> on_chain(new_s.iseq@, p, q),
{
    lemma_emit_bytes_content(old_s.buf(), old_s.pc as int, bytes, old_s.lineno);
    lemma_chain_kept(old_s.iseq@, new_s.iseq@, p, old_s.pc as int, new_s.pc as int);
    if on_chain(old_s.iseq@, p, q) {
        lemma_on_chain_frame(old_s.iseq@, new_s.iseq@, p, old_s.pc as int, q);
    }
}

} // verus!
