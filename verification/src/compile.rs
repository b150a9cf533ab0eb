//! What the single steps of compiling a syntax tree do to the state of
//! code generation, stated as functions on [`Cg`] values: the instructions
//! emitted for literals, variables, assignments and calls (with the
//! peephole rewrites), the literals and symbols added, the registers used,
//! and when a step fails.

use vstd::prelude::*;
use crate::codegen::{CodegenError, looptype};
use crate::model::{
    Cg, Step, then, then_v, unv, cg_op0, cg_op1, cg_op2, cg_op3, cg_jmp, cg_push, cg_pop, cg_sym,
    cg_lit, cg_move, cg_addsub, cg_raise,
};
use crate::pool::{PoolLit, first_index};
use crate::readint::spec_readint;
use crate::args::{spec_aspec, counts_fit};
use crate::walk::{Node, LambdaDef, OperatorSyms, params_spec};
use crate::opcode::{
    OP_NOP, OP_LOADL, OP_LOADI, OP_LOADINEG, OP_LOADI__1, OP_LOADI_0, OP_LOADSYM, OP_LOADNIL,
    OP_LOADSELF, OP_LOADT, OP_LOADF, OP_GETGV, OP_SETGV, OP_GETIV, OP_SETIV, OP_GETCV, OP_SETCV,
    OP_GETCONST, OP_SETCONST, OP_GETUPVAR, OP_SETUPVAR, OP_JMP, OP_SENDV, OP_SENDVB, OP_SEND,
    OP_SENDB, OP_ADD, OP_SUB, OP_MUL, OP_DIV, OP_EQ, OP_LT, OP_LE, OP_GT, OP_GE, OP_STRING,
    OP_EPOP, OP_UNDEF, OP_HASH, OP_HASHADD, OP_BLKPUSH, OP_ARGARY, OP_OCLASS, OP_GETMCNST, OP_ALIAS,
};

verus! {

/// Reserving a register for the value when `val`.
pub open spec fn push_if(m: Cg, val: bool) -> Step {
    if val {
        cg_push(m, 1)
    } else {
        Ok(m)
    }
}

/// The 1-based position of `id` among `lv`, 0 when absent.
pub open spec fn local_pos(lv: Seq<u32>, id: u32) -> int {
    if lv.contains(id) {
        (choose|k: int| first_index(lv, id, k)) + 1
    } else {
        0
    }
}

/// The innermost enclosing body that has `id` as a local (counted outwards
/// from 0), and its register there.
pub open spec fn upvar_of(up: Seq<Seq<u32>>, id: u32) -> Option<(int, int)> {
    if exists|j: int| 0 <= j < up.len() && up[j].contains(id) {
        let lev = choose|lev: int|
            0 <= lev < up.len() && up[lev].contains(id) && forall|j: int|
                0 <= j < lev ==> !(#[trigger] up[j]).contains(id);
        Some((lev, local_pos(up[lev], id)))
    } else {
        None
    }
}

/// The innermost enclosing method body: how many bodies out (0 for the
/// scope itself) and its argument summary.
pub open spec fn method_of(m: Cg) -> Option<(int, u16)> {
    if m.mscope {
        Some((0, m.ainfo))
    } else if exists|j: int| 0 <= j < m.up_methods.len() && m.up_methods[j] is Some {
        let j = choose|j: int|
            0 <= j < m.up_methods.len() && m.up_methods[j] is Some && forall|i: int|
                0 <= i < j ==> m.up_methods[i] is None;
        Some((j + 1, m.up_methods[j]->0))
    } else {
        None
    }
}

/// The operand of `OP_ARGARY`/`OP_BLKPUSH` that finds the enclosing method
/// body: its argument summary (when `with_ainfo`) above four bits of its
/// level; with no method body, one level beyond the outermost body.
pub open spec fn method_operand_of(m: Cg, with_ainfo: bool) -> u16 {
    let (lv, a): (u32, u16) = match method_of(m) {
        Some((l, a)) => ((l % 16) as u32, a),
        None => ((((m.up_methods.len() % 16) + 1) % 16) as u32, 0u16),
    };
    let ai: u32 = if with_ainfo {
        a as u32
    } else {
        0
    };
    ((ai << 4u32) | lv) as u16
}

/// The instruction of the operator `mid` applied to one argument: 1 for
/// `+`, 2 for `-` (both through `gen_addsub`), else its opcode; 0 for any
/// other method.
pub open spec fn op_insn(mid: u32, ops: OperatorSyms) -> u8 {
    if mid == ops.add {
        1
    } else if mid == ops.sub {
        2
    } else if mid == ops.mul {
        OP_MUL
    } else if mid == ops.div {
        OP_DIV
    } else if mid == ops.lt {
        OP_LT
    } else if mid == ops.le {
        OP_LE
    } else if mid == ops.gt {
        OP_GT
    } else if mid == ops.ge {
        OP_GE
    } else if mid == ops.eq {
        OP_EQ
    } else {
        0
    }
}

/// Loading a constant with the one-operand instruction `i` when the value
/// is needed.
pub open spec fn cg_load_const(m: Cg, i: u8, val: bool) -> Step {
    if val {
        then(cg_op1(m, i, m.sp), |m1: Cg| cg_push(m1, 1))
    } else {
        Ok(m)
    }
}

/// Loading the literal `l` with instruction `i` and its pool index.
pub open spec fn cg_load_literal(m: Cg, i: u8, l: PoolLit) -> Step {
    then_v(cg_lit(m, l), |m1: Cg, off: u16| cg_op2(m1, i, m1.sp, off))
}

/// Loading an integer literal with the shortest instruction.
pub open spec fn cg_load_int(m: Cg, digits: Seq<u8>, base: i32, fbits: u64) -> Step {
    if base < 1 || base > 36 {
        Err(CodegenError::MalformedReadintInput)
    } else {
        match spec_readint(digits, base as int, false) {
            Err(_) => Err(CodegenError::MalformedReadintInput),
            Ok(None) => cg_load_literal(m, OP_LOADL, PoolLit::Float(fbits)),
            Ok(Some(v)) => {
                let i = v as i64;
                if i == -1 {
                    cg_op1(m, OP_LOADI__1, m.sp)
                } else if i < 0 {
                    if i < -65535 {
                        cg_load_literal(m, OP_LOADL, PoolLit::Int(i))
                    } else {
                        cg_op2(m, OP_LOADINEG, m.sp, (-i) as u16)
                    }
                } else if i < 8 {
                    cg_op1(m, (OP_LOADI_0 + i) as u8, m.sp)
                } else if i <= 0xffff {
                    cg_op2(m, OP_LOADI, m.sp, i as u16)
                } else {
                    cg_load_literal(m, OP_LOADL, PoolLit::Int(i))
                }
            },
        }
    }
}

/// Reading the named variable of kind `op`.
pub open spec fn cg_get_named(m: Cg, op: u8, name: u32, val: bool) -> Step {
    then_v(
        cg_sym(m, name),
        |m1: Cg, idx: u16| then(cg_op2(m1, op, m1.sp, idx), |m2: Cg| push_if(m2, val)),
    )
}

/// Reading the local variable `name` of this body or an enclosing one.
pub open spec fn cg_get_local(m: Cg, name: u32) -> Step {
    let idx = local_pos(m.lv, name);
    let sp = m.sp;
    then(
        if idx > 0 {
            then(
                cg_move(m, sp, idx as u16, true),
                |m1: Cg|
                    if m1.on_eval {
                        cg_op0(m1, OP_NOP)
                    } else {
                        Ok(m1)
                    },
            )
        } else {
            match upvar_of(m.up, name) {
                Some((lev, i)) => cg_op3(m, OP_GETUPVAR, sp, i as u16, lev as u8),
                None => Ok(m),
            }
        },
        |m2: Cg| cg_push(m2, 1),
    )
}

/// Storing register `sp` into `lhs` (variables only).
pub open spec fn cg_assignment(m: Cg, lhs: Node, sp: u16, val: bool) -> Step {
    then(
        match lhs {
            Node::GVar(n) => then_v(cg_sym(m, n), |m1: Cg, idx: u16| cg_op2(m1, OP_SETGV, sp, idx)),
            Node::IVar(n) => then_v(cg_sym(m, n), |m1: Cg, idx: u16| cg_op2(m1, OP_SETIV, sp, idx)),
            Node::CVar(n) => then_v(cg_sym(m, n), |m1: Cg, idx: u16| cg_op2(m1, OP_SETCV, sp, idx)),
            Node::Const(n) => then_v(
                cg_sym(m, n),
                |m1: Cg, idx: u16| cg_op2(m1, OP_SETCONST, sp, idx),
            ),
            Node::LVar(n) => {
                let idx = local_pos(m.lv, n);
                if idx > 0 {
                    if idx != sp {
                        then(
                            cg_move(m, idx as u16, sp, val),
                            |m1: Cg|
                                if val && m1.on_eval {
                                    cg_op0(m1, OP_NOP)
                                } else {
                                    Ok(m1)
                                },
                        )
                    } else {
                        Ok(m)
                    }
                } else {
                    match upvar_of(m.up, n) {
                        Some((lev, i)) => cg_op3(m, OP_SETUPVAR, sp, i as u16, lev as u8),
                        None => Ok(m),
                    }
                }
            },
            _ => Ok(m),
        },
        |m2: Cg| push_if(m2, val),
    )
}

/// The call of `mid` with `n` arguments (an array of them when `sendv`),
/// the receiver in the top register.
pub open spec fn cg_send(m: Cg, mid: u32, n: i32, sendv: bool, has_blk: bool, ops: OperatorSyms) -> Step {
    let sp = m.sp;
    let op: u8 = if sendv || has_blk || n != 1 {
        0
    } else {
        op_insn(mid, ops)
    };
    if op == 1 {
        cg_addsub(m, OP_ADD, sp)
    } else if op == 2 {
        cg_addsub(m, OP_SUB, sp)
    } else if op != 0 {
        cg_op1(m, op, sp)
    } else {
        then_v(
            cg_sym(m, mid),
            |m1: Cg, idx: u16|
                if sendv {
                    cg_op2(m1, if has_blk { OP_SENDVB } else { OP_SENDV }, sp, idx)
                } else {
                    cg_op3(m1, if has_blk { OP_SENDB } else { OP_SEND }, sp, idx, n as u8)
                },
        )
    }
}

/// Gathering `len` key and value pairs into the hash.
pub open spec fn cg_flush_hash(m: Cg, len: u16, update: bool, skip_empty: bool) -> Step {
    then(
        cg_pop(m, (2 * len) as u16),
        |m1: Cg|
            then(
                if !update {
                    cg_op2(m1, OP_HASH, m1.sp, len)
                } else {
                    then(
                        cg_pop(m1, 1),
                        |m2: Cg|
                            if len > 0 || !skip_empty {
                                cg_op2(m2, OP_HASHADD, m2.sp, len)
                            } else {
                                Ok(m2)
                            },
                    )
                },
                |m3: Cg| cg_push(m3, 1),
            ),
    )
}

/// `undef` of the names from `k` on.
pub open spec fn cg_undef_from(m: Cg, names: Seq<u32>, k: int) -> Step
    decreases names.len() - k,
{
    if k >= names.len() || k < 0 {
        Ok(m)
    } else {
        then_v(
            cg_sym(m, names[k]),
            |m1: Cg, x: u16| then(cg_op1(m1, OP_UNDEF, x), |m2: Cg| cg_undef_from(m2, names, k + 1)),
        )
    }
}

/// Leaving the `ensure` clauses entered inside the innermost loop.
pub open spec fn cg_pop_ensures(m: Cg) -> Step {
    let lp = m.loops.last();
    if m.ensure_level > lp.ensure_level {
        cg_op1(m, OP_EPOP, (m.ensure_level - lp.ensure_level) as u16)
    } else {
        Ok(m)
    }
}

/// `"unexpected next"`
pub open spec fn unexpected_next() -> Seq<u8> {
    seq![117u8, 110u8, 101u8, 120u8, 112u8, 101u8, 99u8, 116u8, 101u8, 100u8, 32u8, 110u8, 101u8, 120u8, 116u8]
}

/// `"unexpected redo"`
pub open spec fn unexpected_redo() -> Seq<u8> {
    seq![117u8, 110u8, 101u8, 120u8, 112u8, 101u8, 99u8, 116u8, 101u8, 100u8, 32u8, 114u8, 101u8, 100u8, 111u8]
}

/// `redo`.
pub open spec fn cg_redo(m: Cg, val: bool) -> Step {
    then(
        if m.loops.len() == 0 || m.loops.last().type_0 == looptype::LOOP_BEGIN
            || m.loops.last().type_0 == looptype::LOOP_RESCUE {
            cg_raise(m, unexpected_redo())
        } else {
            then(cg_pop_ensures(m), |m1: Cg| unv(cg_jmp(m1, OP_JMP, m1.loops.last().pc2 as u16)))
        },
        |m2: Cg| push_if(m2, val),
    )
}

/// The argument specification of a body, or why it does not fit.
pub open spec fn def_aspec(d: LambdaDef) -> Result<u32, CodegenError> {
    match d.params {
        None => Ok(0),
        Some(p) => if p.optional@.len() <= 0x1f && counts_fit(params_spec(p)) {
            Ok(spec_aspec(params_spec(p)))
        } else {
            Err(CodegenError::TooManyFormalArguments)
        },
    }
}

/// Compiling `t` when it has no subexpression: a literal, a variable read,
/// `redo`, `::Name`, `alias` or `undef`; `None` for the other kinds.
pub open spec fn cg_leaf(m: Cg, t: Node, val: bool) -> Option<Step> {
    match t {
        Node::SelfValue => Some(cg_load_const(m, OP_LOADSELF, val)),
        Node::Nil => Some(cg_load_const(m, OP_LOADNIL, val)),
        Node::True => Some(cg_load_const(m, OP_LOADT, val)),
        Node::False => Some(cg_load_const(m, OP_LOADF, val)),
        Node::Int(digits, base, fbits) => Some(
            if val {
                then(cg_load_int(m, digits@, base, fbits), |m1: Cg| cg_push(m1, 1))
            } else {
                Ok(m)
            },
        ),
        Node::Float(bits) => Some(
            if val {
                then(cg_load_literal(m, OP_LOADL, PoolLit::Float(bits)), |m1: Cg| cg_push(m1, 1))
            } else {
                Ok(m)
            },
        ),
        Node::Str(text) => Some(
            if val {
                then(cg_load_literal(m, OP_STRING, PoolLit::Str(text@)), |m1: Cg| cg_push(m1, 1))
            } else {
                Ok(m)
            },
        ),
        Node::Sym(sym) => Some(
            if val {
                then_v(
                    cg_sym(m, sym),
                    |m1: Cg, idx: u16| then(cg_op2(m1, OP_LOADSYM, m1.sp, idx), |m2: Cg| cg_push(m2, 1)),
                )
            } else {
                Ok(m)
            },
        ),
        Node::LVar(name) => Some(
            if val {
                cg_get_local(m, name)
            } else {
                Ok(m)
            },
        ),
        Node::GVar(name) => Some(cg_get_named(m, OP_GETGV, name, val)),
        Node::IVar(name) => Some(cg_get_named(m, OP_GETIV, name, val)),
        Node::CVar(name) => Some(cg_get_named(m, OP_GETCV, name, val)),
        Node::Const(name) => Some(cg_get_named(m, OP_GETCONST, name, val)),
        Node::Redo => Some(cg_redo(m, val)),
        Node::Colon3(name) => Some(
            then_v(
                cg_sym(m, name),
                |m1: Cg, sym: u16|
                    then(
                        cg_op1(m1, OP_OCLASS, m1.sp),
                        |m2: Cg| then(cg_op2(m2, OP_GETMCNST, m1.sp, sym), |m3: Cg| push_if(m3, val)),
                    ),
            ),
        ),
        Node::Alias(a, b) => Some(
            then_v(
                cg_sym(m, a),
                |m1: Cg, x: u16|
                    then_v(
                        cg_sym(m1, b),
                        |m2: Cg, y: u16|
                            then(cg_op2(m2, OP_ALIAS, x, y), |m3: Cg| cg_load_const(m3, OP_LOADNIL, val)),
                    ),
            ),
        ),
        Node::Undef(names) => Some(
            then(cg_undef_from(m, names@, 0), |m1: Cg| cg_load_const(m1, OP_LOADNIL, val)),
        ),
        _ => None,
    }
}

/// [`cg_leaf`] one level deeper than `m`, the depth of `m` restored after it.
pub open spec fn cg_leaf_at(m: Cg, t: Node, val: bool) -> Option<Step> {
    match cg_leaf(Cg { rlev: (m.rlev + 1) as i32, ..m }, t, val) {
        Some(st) => Some(then(st, |m2: Cg| Ok(Cg { rlev: m.rlev, ..m2 }))),
        None => None,
    }
}

} // verus!
