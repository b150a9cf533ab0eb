//! The state of code generation as a mathematical value, and the effect of
//! each emitting operation on it.  The compilation of a syntax tree (see
//! `walk`) is stated as a function on these values.

use vstd::prelude::*;
use crate::codegen::{
    scope, CodeBuf, CodegenError, emit_bytes, encode_0, encode_1, encode_2, encode_3, encode_2s,
    encode_w, enc_s, loopinfo, looptype, mrb_locals,
};
use crate::irep::mrb_irep;
use crate::pool::{PoolLit, pool_lits, lit_of, has_match, first_match, first_index};
use crate::opcode::{
    OP_MOVE, OP_NOP, OP_ADD, OP_ADDI, OP_SUBI, OP_RETURN, OP_LOADI__1, OP_LOADI_0, OP_LOADI_7,
    OP_LOADI, spec_decode_insn, mrb_insn_data,
};
use crate::peephole::{is_load_const_op, is_load_operand_op};

verus! {

/// A compiled body as a value.
pub struct IrepModel {
    pub nlocals: u16,
    pub nregs: u16,
    pub flags: u8,
    pub iseq: Seq<u8>,
    pub lines: Option<Seq<u16>>,
    pub pool: Seq<PoolLit>,
    pub syms: Seq<u32>,
    pub reps: Seq<IrepModel>,
    pub lv: Option<Seq<mrb_locals>>,
}

/// The value of a compiled body.
pub open spec fn irep_model(ir: mrb_irep) -> IrepModel
    decreases ir,
{
    IrepModel {
        nlocals: ir.nlocals,
        nregs: ir.nregs,
        flags: ir.flags,
        iseq: ir.iseq@,
        lines: match ir.lines {
            Some(v) => Some(v@),
            None => None,
        },
        pool: pool_lits(ir.pool@),
        syms: ir.syms@,
        reps: Seq::new(
            ir.reps@.len(),
            |j: int|
                if 0 <= j < ir.reps@.len() {
                    irep_model(ir.reps@[j])
                } else {
                    arbitrary()
                },
        ),
        lv: match ir.lv {
            Some(v) => Some(v@),
            None => None,
        },
    }
}

/// The state of a code generation scope as a value.
pub struct Cg {
    pub buf: CodeBuf,
    pub pc: u16,
    pub lastpc: u16,
    pub lastlabel: u16,
    pub lineno: u16,
    pub sp: u16,
    pub nregs: u16,
    pub nlocals: u16,
    pub no_optimize: bool,
    pub on_eval: bool,
    pub filename_sym: u32,
    pub filename_index: u16,
    pub rlev: i32,
    pub ensure_level: i32,
    pub lv: Seq<u32>,
    pub up: Seq<Seq<u32>>,
    pub mscope: bool,
    pub ainfo: u16,
    pub up_methods: Seq<Option<u16>>,
    pub irep_lv: Seq<mrb_locals>,
    pub pool: Seq<PoolLit>,
    pub syms: Seq<u32>,
    pub reps: Seq<IrepModel>,
    pub loops: Seq<loopinfo>,
}

/// The value of the scope `s`.
pub open spec fn cg(s: &scope) -> Cg {
    Cg {
        buf: s.buf(),
        pc: s.pc,
        lastpc: s.lastpc,
        lastlabel: s.lastlabel,
        lineno: s.lineno,
        sp: s.sp,
        nregs: s.nregs,
        nlocals: s.nlocals,
        no_optimize: s.no_optimize,
        on_eval: s.on_eval,
        filename_sym: s.filename_sym,
        filename_index: s.filename_index,
        rlev: s.rlev,
        ensure_level: s.ensure_level,
        lv: s.lv@,
        up: s.up@.map_values(|v: Vec<u32>| v@),
        mscope: s.mscope,
        ainfo: s.ainfo,
        up_methods: s.up_methods@,
        irep_lv: s.irep_lv@,
        pool: pool_lits(s.pool@),
        syms: s.syms@,
        reps: s.reps@.map_values(|ir: mrb_irep| irep_model(ir)),
        loops: s.loops@,
    }
}

/// The outcome of a step: the new state, or why it failed.
pub type Step = Result<Cg, CodegenError>;

/// `r` and the state `m` after an operation are what `spec` says.
pub open spec fn res_is(r: Result<(), CodegenError>, m: Cg, spec: Step) -> bool {
    match spec {
        Ok(m2) => r is Ok && m == m2,
        Err(e) => r == Err::<(), CodegenError>(e),
    }
}

/// `r` and the state `m` after an operation that returns a value are what
/// `spec` says.
pub open spec fn res_is_v<T>(r: Result<T, CodegenError>, m: Cg, spec: Result<(Cg, T), CodegenError>) -> bool {
    match spec {
        Ok((m2, v)) => r == Ok::<T, CodegenError>(v) && m == m2,
        Err(e) => r == Err::<T, CodegenError>(e),
    }
}

/// Runs `f` on the state after `r`, or keeps the failure.
pub open spec fn then(r: Step, f: spec_fn(Cg) -> Step) -> Step {
    match r {
        Ok(m) => f(m),
        Err(e) => Err(e),
    }
}

/// Runs `f` on the state and value after `r`, or keeps the failure.
pub open spec fn then_v<T>(r: Result<(Cg, T), CodegenError>, f: spec_fn(Cg, T) -> Step) -> Step {
    match r {
        Ok((m, v)) => f(m, v),
        Err(e) => Err(e),
    }
}

/// Writing `bytes` at `start`; `pc` moves past them.
pub open spec fn cg_emit_at(m: Cg, start: int, bytes: Seq<u8>) -> Step {
    match emit_bytes(m.buf, start, bytes, m.lineno) {
        None => Err(CodegenError::TooBigCodeBlock),
        Some(b) => Ok(Cg { buf: b, pc: (start + bytes.len()) as u16, ..m }),
    }
}

/// Emitting the instruction `bytes` at the current position.
pub open spec fn cg_op(m: Cg, bytes: Seq<u8>) -> Step {
    cg_emit_at(Cg { lastpc: m.pc, ..m }, m.pc as int, bytes)
}

pub open spec fn cg_op0(m: Cg, i: u8) -> Step {
    cg_op(m, encode_0(i))
}

pub open spec fn cg_op1(m: Cg, i: u8, a: u16) -> Step {
    cg_op(m, encode_1(i, a))
}

pub open spec fn cg_op2(m: Cg, i: u8, a: u16, b: u16) -> Step {
    cg_op(m, encode_2(i, a, b))
}

pub open spec fn cg_op3(m: Cg, i: u8, a: u16, b: u16, c: u8) -> Step {
    cg_op(m, encode_3(i, a, b, c))
}

pub open spec fn cg_op2s(m: Cg, i: u8, a: u16, b: u16) -> Step {
    cg_op(m, encode_2s(i, a, b))
}

pub open spec fn cg_opw(m: Cg, i: u8, a: u32) -> Step {
    cg_op(m, encode_w(i, a))
}

/// A jump to `target`, and the position of its operand.
pub open spec fn cg_jmp(m: Cg, i: u8, target: u16) -> Result<(Cg, u16), CodegenError> {
    match cg_op(m, seq![i] + enc_s(target)) {
        Ok(m2) => Ok((m2, (m.pc + 1) as u16)),
        Err(e) => Err(e),
    }
}

/// The state after `r`, forgetting the value.
pub open spec fn unv(r: Result<(Cg, u16), CodegenError>) -> Step {
    match r {
        Ok((m, v)) => Ok(m),
        Err(e) => Err(e),
    }
}

/// Emitting code that raises a `LocalJumpError` with message `msg`.
pub open spec fn cg_raise(m: Cg, msg: Seq<u8>) -> Step {
    then_v(cg_lit(m, PoolLit::Str(msg)), |m1: Cg, k: u16| cg_op1(m1, crate::opcode::OP_ERR, k))
}

/// The last instruction emitted, `OP_NOP` when there is none.
pub open spec fn cg_last(m: Cg) -> mrb_insn_data {
    if m.pc == m.lastpc {
        mrb_insn_data { insn: OP_NOP, a: 0, b: 0, c: 0 }
    } else {
        spec_decode_insn(m.buf.code, m.lastpc as int)
    }
}

/// Peephole rewriting is off.
pub open spec fn cg_no_peephole(m: Cg) -> bool {
    m.no_optimize || m.lastlabel == m.pc || m.pc == 0 || m.pc == m.lastpc
}

/// A conditional jump on register `a` to `target`, and the position of its
/// operand; when the value is not needed and the last instruction moved a
/// register into `a`, the move is replaced by a jump on its source.
pub open spec fn cg_jmp2(m: Cg, i: u8, a: u16, target: u16, val: bool) -> Result<(Cg, u16), CodegenError> {
    let fold = !cg_no_peephole(m) && !val && cg_last(m).insn == OP_MOVE && cg_last(m).a == a;
    let start: int = if fold { m.lastpc as int } else { m.pc as int };
    let reg = if fold { cg_last(m).b } else { a };
    match cg_emit_at(Cg { lastpc: start as u16, ..m }, start, encode_2s(i, reg, target)) {
        Ok(m2) => Ok((m2, (start + encode_1(i, reg).len()) as u16)),
        Err(e) => Err(e),
    }
}

/// Points the jump whose operand is at `pos` to the current position.
pub open spec fn cg_dispatch(m: Cg, pos: u16) -> Step {
    match emit_bytes(m.buf, pos as int, enc_s(m.pc), m.lineno) {
        None => Err(CodegenError::TooBigCodeBlock),
        Some(b) => Ok(Cg { buf: b, lastlabel: m.pc, ..m }),
    }
}

/// A label at the current position.
pub open spec fn cg_label(m: Cg) -> Cg {
    Cg { lastlabel: m.pc, ..m }
}

/// Reserving `n` registers.
pub open spec fn cg_push(m: Cg, n: u16) -> Step {
    if m.sp + n >= 0xffff {
        Err(CodegenError::TooComplexExpression)
    } else {
        let sp = (m.sp + n) as u16;
        Ok(Cg { sp, nregs: if sp > m.nregs { sp } else { m.nregs }, ..m })
    }
}

/// Releasing `n` registers.
pub open spec fn cg_pop(m: Cg, n: u16) -> Step {
    if m.sp < n {
        Err(CodegenError::StackPointerUnderflow)
    } else {
        Ok(Cg { sp: (m.sp - n) as u16, ..m })
    }
}

/// The index of symbol `x` in the symbol table, adding it when absent.
pub open spec fn cg_sym(m: Cg, x: u32) -> Result<(Cg, u16), CodegenError> {
    if m.syms.len() >= 65535 {
        Err(CodegenError::TooManySymbols)
    } else if m.syms.contains(x) {
        Ok((m, (choose|k: int| first_index(m.syms, x, k)) as u16))
    } else {
        Ok((Cg { syms: m.syms.push(x), ..m }, m.syms.len() as u16))
    }
}

/// The index of the literal `l` in the pool, adding it when no entry stands
/// for it.
pub open spec fn cg_lit(m: Cg, l: PoolLit) -> Result<(Cg, u16), CodegenError> {
    if m.pool.len() >= 65535 {
        Err(CodegenError::TooManyLiterals)
    } else if has_match(m.pool, l) {
        Ok((m, (choose|k: int| first_match(m.pool, l, k)) as u16))
    } else {
        Ok((Cg { pool: m.pool.push(l), ..m }, m.pool.len() as u16))
    }
}

/// `dst <- src`, with the peephole rewrites of `gen_move`.
pub open spec fn cg_move(m: Cg, dst: u16, src: u16, nopeep: bool) -> Step {
    let last = cg_last(m);
    if !cg_no_peephole(m) && last.insn == OP_MOVE && (dst == src || (last.b == dst && last.a == src)) {
        Ok(m)
    } else if !cg_no_peephole(m) && (is_load_const_op(last.insn) || is_load_operand_op(last.insn))
        && !nopeep && last.a == src && last.a >= m.nlocals {
        let bytes = if is_load_const_op(last.insn) {
            encode_1(last.insn, dst)
        } else {
            encode_2(last.insn, dst, last.b)
        };
        cg_emit_at(m, m.lastpc as int, bytes)
    } else {
        let mv = encode_2(OP_MOVE, dst, src);
        if m.on_eval {
            match cg_op(m, mv + encode_0(OP_NOP)) {
                Ok(m2) => Ok(Cg { lastpc: (m.pc + mv.len()) as u16, ..m2 }),
                Err(e) => Err(e),
            }
        } else {
            cg_op(m, mv)
        }
    }
}

/// A return-like instruction `op` on `src`, with the rewrites of `gen_return`.
pub open spec fn cg_return(m: Cg, op: u8, src: u16) -> Step {
    let last = cg_last(m);
    if cg_no_peephole(m) {
        cg_op1(m, op, src)
    } else if last.insn == OP_MOVE && src == last.a {
        cg_emit_at(m, m.lastpc as int, encode_1(op, last.b))
    } else if last.insn != OP_RETURN {
        cg_op1(m, op, src)
    } else {
        Ok(m)
    }
}

/// The immediate operand an addition or subtraction `op` can absorb from
/// the small integer just loaded, with the possibly flipped operator.
pub open spec fn cg_immediate(m: Cg, op: u8) -> Option<(u8, u16)> {
    let last = cg_last(m);
    if cg_no_peephole(m) {
        None
    } else if last.insn == OP_LOADI__1 {
        Some((if op == OP_ADD { crate::opcode::OP_SUB } else { OP_ADD }, 1u16))
    } else if OP_LOADI_0 <= last.insn && last.insn <= OP_LOADI_7 {
        Some((op, (last.insn - OP_LOADI_0) as u16))
    } else if last.insn == OP_LOADI {
        Some((op, last.b))
    } else {
        None
    }
}

/// Folding into an immediate form keeps the value added: the immediate
/// operator applied to the immediate adds what `op` applied to the integer
/// just loaded would have added.
pub proof fn lemma_immediate_keeps_value(m: Cg, op: u8)
    requires
        op == OP_ADD || op == crate::opcode::OP_SUB,
    ensures
        cg_immediate(m, op) matches Some((op2, b)) ==> {
            &&& op2 == OP_ADD || op2 == crate::opcode::OP_SUB
            &&& crate::peephole::loaded_integer(cg_last(m)) matches Some(v)
                && crate::peephole::signed_amount(op2, b as int) == crate::peephole::signed_amount(op, v)
        },
{
}

/// The addition or subtraction `op` on `dst`, folding a small constant just
/// loaded into `OP_ADDI`/`OP_SUBI`.
pub open spec fn cg_addsub(m: Cg, op: u8, dst: u16) -> Step {
    match cg_immediate(m, op) {
        Some((op2, b)) if b < 128 => cg_emit_at(
            m,
            m.lastpc as int,
            encode_2(if op2 == OP_ADD { OP_ADDI } else { OP_SUBI }, dst, b),
        ),
        _ => cg_op1(m, op, dst),
    }
}

/// Entering a loop of kind `t`.
pub open spec fn cg_loop_push(m: Cg, t: looptype) -> Cg {
    Cg {
        loops: m.loops.push(
            loopinfo {
                type_0: t,
                pc0: 0,
                pc1: 0,
                pc2: 0,
                pc3: 0,
                acc: m.sp as i32,
                ensure_level: m.ensure_level,
            },
        ),
        ..m
    }
}

/// Leaving the innermost loop, which no `break` jumps out of: `nil` as its
/// value when `val`.
pub open spec fn cg_loop_pop(m: Cg, val: bool) -> Step {
    then(
        if val {
            cg_op1(m, crate::opcode::OP_LOADNIL, m.sp)
        } else {
            Ok(m)
        },
        |m1: Cg|
            if val {
                cg_push(Cg { loops: m1.loops.drop_last(), ..m1 }, 1)
            } else {
                Ok(Cg { loops: m1.loops.drop_last(), ..m1 })
            },
    )
}

/// The local variable table of a body whose locals are `lv`.
pub open spec fn lv_table(lv: Seq<u32>) -> Seq<mrb_locals> {
    Seq::new(
        lv.len(),
        |k: int|
            mrb_locals {
                name: lv[k],
                r: if lv[k] == 0 {
                    0
                } else {
                    ((choose|j: int| first_index(lv, lv[k], j)) + 1) as u16
                },
            },
    )
}

/// A new scope for a body nested in `m` with locals `lv`.
pub open spec fn cg_scope_new(m: Cg, lv: Seq<u32>) -> Cg {
    let has_lines = m.filename_sym != 0;
    Cg {
        buf: CodeBuf {
            code: Seq::new(1024, |j: int| 0u8),
            lines: if has_lines {
                Some(Seq::new(1024, |j: int| 0u16))
            } else {
                None
            },
            icapa: 1024,
        },
        pc: 0,
        lastpc: 0,
        lastlabel: 0,
        lineno: m.lineno,
        sp: (lv.len() + 1) as u16,
        nregs: 0,
        nlocals: (lv.len() + 1) as u16,
        no_optimize: m.no_optimize,
        on_eval: m.on_eval,
        filename_sym: m.filename_sym,
        filename_index: m.filename_index,
        rlev: (m.rlev + 1) as i32,
        ensure_level: 0,
        lv,
        up: seq![m.lv] + m.up,
        mscope: false,
        ainfo: 0,
        up_methods: seq![if m.mscope { Some(m.ainfo) } else { None }] + m.up_methods,
        irep_lv: lv_table(lv),
        pool: Seq::empty(),
        syms: Seq::empty(),
        reps: Seq::empty(),
        loops: Seq::empty(),
    }
}

/// The body compiled in `c`; fails with 1023 locals or more.
pub open spec fn cg_finish(c: Cg) -> Result<IrepModel, CodegenError> {
    if c.nlocals >= 0x3ff {
        Err(CodegenError::TooManyLocalVariables)
    } else {
        Ok(
            IrepModel {
                nlocals: c.nlocals,
                nregs: c.nregs,
                flags: 0,
                iseq: c.buf.code.subrange(0, c.pc as int),
                lines: match c.buf.lines {
                    Some(l) => Some(l.subrange(0, c.pc as int)),
                    None => None,
                },
                pool: c.pool,
                syms: c.syms,
                reps: c.reps,
                lv: if c.lv.len() > 0 {
                    Some(c.irep_lv)
                } else {
                    None
                },
            },
        )
    }
}

} // verus!
