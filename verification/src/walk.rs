//! The syntax-tree walker: compiles expressions into the current scope and
//! nested method or block bodies into scopes of their own.
//!
//! Every expression compiled "for its value" leaves exactly one new register
//! on the stack; one compiled for its effect leaves the stack as it found it.

use vstd::prelude::*;
use crate::codegen::{scope, CodegenError, PoolValue, looptype};
use crate::opcode::{
    OP_NOP, OP_LOADL, OP_LOADI, OP_LOADINEG, OP_LOADI__1, OP_LOADI_0, OP_LOADSYM, OP_LOADNIL,
    OP_LOADSELF, OP_LOADT, OP_LOADF, OP_GETGV, OP_SETGV, OP_GETIV, OP_SETIV, OP_GETCV, OP_SETCV,
    OP_GETCONST, OP_SETCONST, OP_GETUPVAR, OP_SETUPVAR, OP_JMP, OP_JMPIF, OP_JMPNOT, OP_JMPNIL,
    OP_SENDV, OP_SENDVB, OP_SEND, OP_SENDB, OP_ENTER, OP_RETURN, OP_RETURN_BLK, OP_ADD, OP_SUB,
    OP_MUL, OP_DIV, OP_EQ, OP_LT, OP_LE, OP_GT, OP_GE, OP_ARRAY, OP_ARYPUSH, OP_STRING, OP_LAMBDA,
    OP_BLOCK, OP_RANGE_INC, OP_RANGE_EXC, OP_EPOP, OP_STRCAT, OP_TCLASS,
    OP_METHOD, OP_DEF, OP_ALIAS, OP_UNDEF, OP_HASH, OP_HASHADD,
    OP_BLKPUSH, OP_INTERN, OP_GETMCNST, OP_OCLASS, OP_CLASS, OP_MODULE, OP_SCLASS, OP_EXEC,
    OP_ARGARY, OP_SUPER, OP_ONERR, OP_POPERR, OP_EXCEPT, OP_ADDI, OP_SUBI, OP_ERR, mrb_insn_data,
    spec_plain_format, InsnFormat,
};
use crate::peephole::{spec_last_insn, loaded_integer};
use crate::pool::{PoolLit, pool_lits};
use crate::readint::spec_readint;
use crate::steps::{
    walked, advanced, stable, jump_before, w_op0, w_op1, w_op2, w_op3, w_opW, w_jmp, w_jmp2, w_dispatch, w_label,
    w_move, w_return, w_addsub, w_push, w_pop, w_sym, w_lit, w_jmp_to, w_raise,
    w_op2S,
};
use crate::args::{ArgSpec, bit, spec_aspec, counts_fit, enter_aspec};
use crate::eval::spec_irep_argc;
use crate::irep::{scope_new, scope_finish, scope_add_irep, copy_syms};
use crate::pool::lv_idx;
use crate::loops::{loop_push, loop_pop};
use crate::readint::readint_mrb_int;
use crate::model::{cg, Cg, res_is, then};
use crate::compile::{
    cg_load_literal, cg_load_int, cg_get_named, cg_get_local, cg_assignment, cg_send, cg_flush_hash,
    cg_undef_from, cg_pop_ensures, cg_redo, cg_load_const, op_insn, method_operand_of, def_aspec,
    push_if, cg_leaf, cg_leaf_at,
};

verus! {

/// An expression of the parsed program.  Symbols are the interned `u32`
/// ids of the VM; literal text is kept as bytes.
pub enum Node {
    /// A sequence of expressions; its value is the last one's.
    Begin(Vec<Node>),
    /// Condition, then-branch, else-branch.
    If(Box<Node>, Option<Box<Node>>, Option<Box<Node>>),
    And(Box<Node>, Box<Node>),
    Or(Box<Node>, Box<Node>),
    /// Condition and body.
    While(Box<Node>, Box<Node>),
    /// Condition and body.
    Until(Box<Node>, Box<Node>),
    SelfValue,
    Nil,
    True,
    False,
    /// Digits, base, and the literal as the bit pattern of a double (used
    /// when the literal does not fit in 64 bits).
    Int(Vec<u8>, i32, u64),
    /// A float literal as the bit pattern of a double.
    Float(u64),
    Str(Vec<u8>),
    Sym(u32),
    LVar(u32),
    GVar(u32),
    IVar(u32),
    CVar(u32),
    Const(u32),
    /// Target and value.
    Asgn(Box<Node>, Box<Node>),
    /// `target op= value`, with the symbol of the operator (`||` and `&&`
    /// included).
    OpAsgn(Box<Node>, u32, Box<Node>),
    /// Receiver, method, arguments, block.
    Call(Box<Node>, u32, Vec<Node>, Option<Box<Node>>),
    /// `recv&.m(..)`: the call is skipped when the receiver is `nil`.
    SafeCall(Box<Node>, u32, Vec<Node>, Option<Box<Node>>),
    Array(Vec<Node>),
    /// A hash literal: its key and value pairs.
    Hash(Vec<(Node, Node)>),
    /// Inclusive range.
    Dot2(Box<Node>, Box<Node>),
    /// Exclusive range.
    Dot3(Box<Node>, Box<Node>),
    Return(Option<Box<Node>>),
    /// `yield` with its arguments.
    Yield(Vec<Node>),
    /// `super(args) &blk`.
    Super(Vec<Node>, Option<Box<Node>>),
    /// `super` without arguments (passing the method's own), with a block.
    ZSuper(Option<Box<Node>>),
    /// `next`, with its value.
    Next(Option<Box<Node>>),
    Redo,
    /// A string with interpolated parts, concatenated.
    DStr(Vec<Node>),
    /// A symbol with interpolated parts.
    DSym(Vec<Node>),
    /// `-x`.
    Negate(Box<Node>),
    /// `base::Name`.
    Colon2(Box<Node>, u32),
    /// `::Name`.
    Colon3(u32),
    Lambda(Box<LambdaDef>),
    Block(Box<LambdaDef>),
    /// `def name ... end`.
    Def(u32, Box<LambdaDef>),
    /// `alias new old`.
    Alias(u32, u32),
    /// `undef a, b, ...`.
    Undef(Vec<u32>),
    /// `class Base::Name < Super; body; end`.
    Class(ClassBase, u32, Option<Box<Node>>, Box<ScopeBody>),
    /// `module Base::Name; body; end`.
    Module(ClassBase, u32, Box<ScopeBody>),
    /// `class << obj; body; end`.
    SClass(Box<Node>, Box<ScopeBody>),
}

/// Where a class or module is defined.
pub enum ClassBase {
    /// In the current lexical scope.
    Here,
    /// At the top level (`::Name`).
    Toplevel,
    /// Under the value of an expression (`Base::Name`).
    Under(Box<Node>),
}

/// The body of a class, module or singleton class: its local variables and
/// its code.
pub struct ScopeBody {
    pub locals: Vec<u32>,
    pub body: Node,
}

/// An optional argument and the expression of its default value.
pub struct OptArg {
    pub name: u32,
    pub default: Node,
}

/// The formal arguments of a body: required ones, optional ones with their
/// defaults, a rest argument, required ones after it, a block argument.
pub struct Params {
    pub mandatory: u32,
    pub optional: Vec<OptArg>,
    pub rest: bool,
    pub post: u32,
    pub block: bool,
}

/// A method or block body: its local variables (arguments first), its
/// formal arguments when it has any, and its code.
pub struct LambdaDef {
    pub locals: Vec<u32>,
    pub params: Option<Params>,
    pub body: Node,
}

/// The symbols of the operators that have instructions of their own,
/// as interned by the VM.
pub struct OperatorSyms {
    /// `call`, the method a `yield` sends to the block.
    pub call: u32,
    /// `-@`, unary minus.
    pub uminus: u32,
    /// `||` and `&&`, as the operators of `||=` and `&&=`.
    pub oror: u32,
    pub andand: u32,
    pub add: u32,
    pub sub: u32,
    pub mul: u32,
    pub div: u32,
    pub lt: u32,
    pub le: u32,
    pub gt: u32,
    pub ge: u32,
    pub eq: u32,
}

/// The instruction that ends a call of `mid` on the receiver in register
/// `sp`, with `n` arguments (one array of them when `sendv`) and a block
/// when `has_blk`: an operator applied to one argument without a block gets
/// its own instruction on `sp` (`+` and `-` possibly folded with a small
/// constant into `OP_ADDI`/`OP_SUBI`), any other call is an `OP_SEND`
/// (`OP_SENDB` with a block, `OP_SENDV`/`OP_SENDVB` for an array of
/// arguments) naming `mid`.
pub open spec fn ends_call(
    fin: &scope,
    sp: u16,
    mid: u32,
    n: i32,
    sendv: bool,
    has_blk: bool,
    ops: OperatorSyms,
) -> bool {
    let last = spec_last_insn(fin);
    let op: u8 = if sendv || has_blk || n != 1 {
        0
    } else {
        op_insn(mid, ops)
    };
    if op == 1 {
        last.a == sp && (last.insn == OP_ADD || last.insn == OP_ADDI || last.insn == OP_SUBI)
    } else if op == 2 {
        last.a == sp && (last.insn == OP_SUB || last.insn == OP_ADDI || last.insn == OP_SUBI)
    } else if op != 0 {
        last == mrb_insn_data { insn: op, a: sp, b: 0, c: 0 }
    } else if sendv {
        last.insn == (if has_blk { OP_SENDVB } else { OP_SENDV }) && last.a == sp && last.c == 0
            && names(fin, last.b, mid)
    } else {
        last.insn == (if has_blk { OP_SENDB } else { OP_SEND }) && last.a == sp && last.c == n as u8
            && names(fin, last.b, mid)
    }
}

/// The literal at index `b` of the literal pool of `s` is `lit`.
pub open spec fn holds(s: &scope, b: u16, lit: PoolLit) -> bool {
    (b as int) < s.pool@.len() && pool_lits(s.pool@)[b as int] == lit
}

/// The instruction `last` loads into register `sp` the integer `v`: as an
/// immediate (`OP_LOADI_n`, `OP_LOADI`, `OP_LOADINEG`, `OP_LOADI__1`) when
/// `v` lies between -65535 and 65535, otherwise as an `OP_LOADL` of a pool
/// entry holding `v`.
pub open spec fn loads_integer(fin: &scope, last: mrb_insn_data, sp: u16, v: int) -> bool {
    &&& last.a == sp
    &&& if -65535 <= v <= 0xffff {
        loaded_integer(last) == Some(v)
    } else {
        last.insn == OP_LOADL && holds(fin, last.b, PoolLit::Int(v as i64))
    }
}

/// The instruction that stores register `sp` into the target `lhs`, for
/// the targets that have one: `OP_SETGV`, `OP_SETIV`, `OP_SETCV` and
/// `OP_SETCONST`, naming the variable.
pub open spec fn stores(fin: &scope, lhs: Node, sp: u16) -> bool {
    let last = spec_last_insn(fin);
    match lhs {
        Node::GVar(name) => last.insn == OP_SETGV && last.a == sp && last.c == 0 && names(fin, last.b, name),
        Node::IVar(name) => last.insn == OP_SETIV && last.a == sp && last.c == 0 && names(fin, last.b, name),
        Node::CVar(name) => last.insn == OP_SETCV && last.a == sp && last.c == 0 && names(fin, last.b, name),
        Node::Const(name) => last.insn == OP_SETCONST && last.a == sp && last.c == 0 && names(
            fin,
            last.b,
            name,
        ),
        _ => true,
    }
}

/// How `-t` is finished into register `sp`: a number literal is loaded
/// negated (an integer as [`loads_integer`] says, a float, or an integer
/// too large for 64 bits, as an `OP_LOADL` of the float with its sign bit
/// flipped); anything else is sent `-@` without arguments.
pub open spec fn negates(fin: &scope, t: Node, sp: u16, ops: OperatorSyms) -> bool {
    let last = spec_last_insn(fin);
    match t {
        Node::Float(bits) => last.insn == OP_LOADL && last.a == sp && holds(
            fin,
            last.b,
            PoolLit::Float(bits ^ 0x8000000000000000u64),
        ),
        Node::Int(digits, base, fbits) => match spec_readint(digits@, base as int, true) {
            Ok(Some(v)) => loads_integer(fin, last, sp, v),
            _ => last.insn == OP_LOADL && last.a == sp && holds(
                fin,
                last.b,
                PoolLit::Float(fbits ^ 0x8000000000000000u64),
            ),
        },
        _ => last.insn == OP_SEND && last.a == sp && last.c == 0 && names(fin, last.b, ops.uminus),
    }
}

/// How `next` ends: outside any loop with an `OP_ERR` raising "unexpected
/// next"; in a `while`/`until` loop with an `OP_JMP` back to the loop's
/// start.
pub open spec fn next_ends(before: &scope, fin: &scope) -> bool {
    let last = spec_last_insn(fin);
    &&& before.loops@.len() == 0 ==> last.insn == OP_ERR && (last.a as int) < fin.pool@.len()
        && pool_lits(fin.pool@)[last.a as int] == PoolLit::Str(crate::compile::unexpected_next())
    &&& before.loops@.len() > 0 && before.loops@.last().type_0 == looptype::LOOP_NORMAL ==> last
        == mrb_insn_data { insn: OP_JMP, a: before.loops@.last().pc0 as u16, b: 0, c: 0 }
}

/// The symbol at index `b` of the symbol table of `s` is `name`.
pub open spec fn names(s: &scope, b: u16, name: u32) -> bool {
    (b as int) < s.syms@.len() && s.syms@[b as int] == name
}

/// How the value of `t` is finished, into the register `sp` that was the
/// top of the stack before, for the kinds of expression that end with one
/// fixed instruction (`n` is the number of nested bodies before, `fin` the
/// scope after):
/// - `self`, `nil`, `true`, `false` with `OP_LOADSELF`, `OP_LOADNIL`,
///   `OP_LOADT`, `OP_LOADF`;
/// - an integer literal with an instruction that loads its value (see
///   [`loads_integer`]), or, when it does not fit in 64 bits, an `OP_LOADL`
///   of its value as a float;
/// - a float or string literal with `OP_LOADL` or `OP_STRING` of a pool
///   entry holding it;
/// - a symbol with `OP_LOADSYM` naming it, a global, instance or class
///   variable or a constant with `OP_GETGV`, `OP_GETIV`, `OP_GETCV` or
///   `OP_GETCONST` naming it;
/// - `a..b` with `OP_RANGE_INC`, `a...b` with `OP_RANGE_EXC`;
/// - an interpolated symbol with `OP_INTERN`; an interpolated string of two
///   parts or more with `OP_STRCAT` (`nil` for none);
/// - a lambda or a block with `OP_LAMBDA` or `OP_BLOCK` on the nested body
///   made for it;
/// - `A::B` and `::B` with `OP_GETMCNST` naming `B`;
/// - `def m` with `OP_LOADSYM` naming `m`;
/// - an array literal of fewer than 127 items with `OP_ARRAY` of that many;
/// - a hash literal of fewer than 255 pairs with `OP_HASH` of that many;
/// - `yield` with `OP_SEND` of `call` and the argument count (127 for an
///   array of them);
/// - an assignment to a global, instance or class variable or a constant
///   with the instruction that stores the value (see [`stores`]), and so an
///   operator assignment other than `||=` and `&&=`;
/// - a negation as [`negates`] says;
/// - `return` without a value with `OP_RETURN_BLK` inside a block (or
///   loop) and `OP_RETURN` elsewhere;
/// - `super` with `OP_SUPER` of its argument count (127 for an array of
///   them, and for `super` without arguments, which passes the method's
///   own);
/// - a method call (without `&.`) as [`ends_call`] says.
pub open spec fn builds_value(t: Node, sp: u16, n: int, ops: OperatorSyms, fin: &scope) -> bool {
    let last = spec_last_insn(fin);
    match t {
        Node::SelfValue => last == mrb_insn_data { insn: OP_LOADSELF, a: sp, b: 0, c: 0 },
        Node::Nil => last == mrb_insn_data { insn: OP_LOADNIL, a: sp, b: 0, c: 0 },
        Node::True => last == mrb_insn_data { insn: OP_LOADT, a: sp, b: 0, c: 0 },
        Node::False => last == mrb_insn_data { insn: OP_LOADF, a: sp, b: 0, c: 0 },
        Node::Int(digits, base, fbits) => match spec_readint(digits@, base as int, false) {
            Ok(Some(v)) => loads_integer(fin, last, sp, v),
            _ => last.insn == OP_LOADL && last.a == sp && holds(fin, last.b, PoolLit::Float(fbits)),
        },
        Node::Float(bits) => last.insn == OP_LOADL && last.a == sp && last.c == 0 && holds(
            fin,
            last.b,
            PoolLit::Float(bits),
        ),
        Node::Str(text) => last.insn == OP_STRING && last.a == sp && last.c == 0 && holds(
            fin,
            last.b,
            PoolLit::Str(text@),
        ),
        Node::Sym(sym) => last.insn == OP_LOADSYM && last.a == sp && last.c == 0 && names(
            fin,
            last.b,
            sym,
        ),
        Node::GVar(name) => last.insn == OP_GETGV && last.a == sp && last.c == 0 && names(fin, last.b, name),
        Node::IVar(name) => last.insn == OP_GETIV && last.a == sp && last.c == 0 && names(fin, last.b, name),
        Node::CVar(name) => last.insn == OP_GETCV && last.a == sp && last.c == 0 && names(fin, last.b, name),
        Node::Const(name) => last.insn == OP_GETCONST && last.a == sp && last.c == 0 && names(
            fin,
            last.b,
            name,
        ),
        Node::Dot2(..) => last == mrb_insn_data { insn: OP_RANGE_INC, a: sp, b: 0, c: 0 },
        Node::Dot3(..) => last == mrb_insn_data { insn: OP_RANGE_EXC, a: sp, b: 0, c: 0 },
        Node::DSym(..) => last == mrb_insn_data { insn: OP_INTERN, a: sp, b: 0, c: 0 },
        Node::Lambda(..) => last == mrb_insn_data { insn: OP_LAMBDA, a: sp, b: n as u16, c: 0 },
        Node::Block(..) => last == mrb_insn_data { insn: OP_BLOCK, a: sp, b: n as u16, c: 0 },
        Node::Colon2(_, name) => last.insn == OP_GETMCNST && last.a == sp && last.c == 0 && names(
            fin,
            last.b,
            name,
        ),
        Node::Colon3(name) => last.insn == OP_GETMCNST && last.a == sp && last.c == 0 && names(
            fin,
            last.b,
            name,
        ),
        Node::Def(name, _) => last.insn == OP_LOADSYM && last.a == sp && last.c == 0 && names(
            fin,
            last.b,
            name,
        ),
        Node::Array(items) => items@.len() < 127 ==> last == mrb_insn_data {
            insn: OP_ARRAY,
            a: sp,
            b: items@.len() as u16,
            c: 0,
        },
        Node::Hash(pairs) => pairs@.len() < 255 ==> last == mrb_insn_data {
            insn: OP_HASH,
            a: sp,
            b: pairs@.len() as u16,
            c: 0,
        },
        Node::Asgn(lhs, _) => stores(fin, *lhs, sp),
        Node::OpAsgn(lhs, op, _) => op != ops.oror && op != ops.andand ==> stores(fin, *lhs, sp),
        Node::Negate(x) => negates(fin, *x, sp, ops),
        Node::DStr(parts) => {
            &&& parts@.len() == 0 ==> last == mrb_insn_data { insn: OP_LOADNIL, a: sp, b: 0, c: 0 }
            &&& parts@.len() >= 2 ==> last == mrb_insn_data { insn: OP_STRCAT, a: sp, b: 0, c: 0 }
        },
        Node::Return(v) => v is None ==> last.insn == (if fin.loops@.len() > 0 {
            OP_RETURN_BLK
        } else {
            OP_RETURN
        }),
        Node::Super(args, _) => last == mrb_insn_data {
            insn: OP_SUPER,
            a: sp,
            b: if args@.len() < 127 {
                args@.len() as u16
            } else {
                127u16
            },
            c: 0,
        },
        Node::ZSuper(_) => last == mrb_insn_data { insn: OP_SUPER, a: sp, b: 127, c: 0 },
        Node::Call(_, mid, args, blk) => ends_call(
            fin,
            sp,
            mid,
            send_argc(args@.len()),
            send_array(args@.len()),
            blk is Some,
            ops,
        ),
        Node::Yield(args) => last.insn == OP_SEND && last.a == sp && names(fin, last.b, ops.call)
            && last.c == (if args@.len() < 127 { args@.len() as u8 } else { 127u8 }),
        _ => true,
    }
}

/// The conditional jump that decides `t`: `OP_JMPNOT` for `a && b` (a
/// false left side skips the right one), `OP_JMPIF` for `a || b`,
/// `OP_JMPIF` for `while` (back to the body while the condition holds),
/// `OP_JMPNOT` for `until`, `OP_JMPNOT` for an `if` whose condition is
/// not decided while compiling (a false condition skips the then-branch),
/// and `OP_JMPNIL` for `recv&.m` (a `nil` receiver skips the call).
pub open spec fn branch_insn(t: Node) -> Option<u8> {
    match t {
        Node::If(c, _, _) => if literal_condition(*c) {
            None
        } else {
            Some(OP_JMPNOT)
        },
        Node::And(..) => Some(OP_JMPNOT),
        Node::Or(..) => Some(OP_JMPIF),
        Node::While(..) => Some(OP_JMPIF),
        Node::Until(..) => Some(OP_JMPNOT),
        Node::SafeCall(..) => Some(OP_JMPNIL),
        _ => None,
    }
}

/// A condition that `if` decides while compiling: `true`, a number or a
/// string takes the then-branch, `false` and `nil` the else-branch.
pub open spec fn literal_condition(c: Node) -> bool {
    c is True || c is Int || c is Str || c is False || c is Nil
}

/// The conditional jump of `lhs op= rhs` for the operators that skip the
/// assignment: `OP_JMPIF` for `||=` (a true value keeps `lhs`), `OP_JMPNOT`
/// for `&&=`.
pub open spec fn op_asgn_jump(op: u32, ops: OperatorSyms) -> Option<u8> {
    if op == ops.oror {
        Some(OP_JMPIF)
    } else if op == ops.andand {
        Some(OP_JMPNOT)
    } else {
        None
    }
}

/// The code of `fin` holds the jump `j` past the stable position of `before`,
/// that is, among the instructions emitted since.
pub open spec fn emitted_jump(before: &scope, fin: &scope, j: u8) -> bool {
    exists|pos: int| stable(before) < pos && #[trigger] jump_before(fin.iseq@, pos, j)
}

/// The last instruction emitted in `s` is `i` on register `a`.
pub open spec fn ends_with(s: &scope, i: u8, a: u16) -> bool {
    spec_last_insn(s) == mrb_insn_data { insn: i, a: a, b: 0, c: 0 }
}

/// One register for a value, none for an effect.
pub open spec fn vbit(val: bool) -> int {
    if val {
        1
    } else {
        0
    }
}

/// The argument specification of `p`.
pub open spec fn params_spec(p: Params) -> ArgSpec {
    ArgSpec {
        ma: p.mandatory,
        oa: p.optional@.len() as u32,
        ra: p.rest,
        pa: p.post,
        ka: 0,
        kd: false,
        ba: p.block,
    }
}

/// Every count of `p` fits in the five bits `OP_ENTER` gives it.
pub open spec fn params_fit(p: Params) -> bool {
    p.optional@.len() <= 0x1f && counts_fit(params_spec(p))
}

/// The argument count of a body: its positional arguments (required,
/// optional, rest, required after the rest) plus one for the block; 1 for a
/// body without formal arguments.
pub open spec fn def_argc(d: LambdaDef) -> int {
    match d.params {
        None => 1,
        Some(p) => p.mandatory + p.optional@.len() + bit(p.rest) + p.post + 1,
    }
}

/// The formal arguments of a body fit in `OP_ENTER`.
pub open spec fn def_fits(d: LambdaDef) -> bool {
    match d.params {
        None => true,
        Some(p) => params_fit(p),
    }
}

/// The 1-based position of `id` among `lv`, 0 when it is not there.
pub fn local_index(lv: &Vec<u32>, id: u32) -> (r: usize)
    ensures
        lv@.contains(id) ==> crate::pool::first_index(lv@, id, r - 1),
        !lv@.contains(id) ==> r == 0,
        r == crate::compile::local_pos(lv@, id),
{
    let r = local_index_scan(lv, id);
    proof {
        lemma_local_pos(lv@, id, r as int);
    }
    r
}

/// The position `r` described by `first_index` is the one `local_pos` picks.
pub proof fn lemma_local_pos(lv: Seq<u32>, id: u32, r: int)
    requires
        lv.contains(id) ==> crate::pool::first_index(lv, id, r - 1),
        !lv.contains(id) ==> r == 0,
    ensures
        r == crate::compile::local_pos(lv, id),
{
    if lv.contains(id) {
        let k = choose|k: int| crate::pool::first_index(lv, id, k);
        assert(crate::pool::first_index(lv, id, r - 1));
        assert(k == r - 1) by {
            if k < r - 1 {
                assert(lv[k] == id);
            } else if k > r - 1 {
                assert(lv[r - 1] == id);
            }
        }
    }
}

fn local_index_scan(lv: &Vec<u32>, id: u32) -> (r: usize)
    ensures
        lv@.contains(id) ==> crate::pool::first_index(lv@, id, r - 1),
        !lv@.contains(id) ==> r == 0,
{
    let mut n: usize = 0;
    while n < lv.len()
        invariant
            n <= lv@.len(),
            forall|j: int| 0 <= j < n ==> lv@[j] != id,
        decreases lv@.len() - n,
    {
        if lv[n] == id {
            return n + 1;
        }
        n = n + 1;
    }
    0
}

/// The enclosing body (counted outwards from 0) that has `id` as a local,
/// and its register there.
pub fn find_upvar(up: &Vec<Vec<u32>>, id: u32) -> (r: Option<(usize, usize)>)
    ensures
        r matches Some((lev, idx)) ==> lev < up@.len() && crate::pool::first_index(up@[lev as int]@, id, idx - 1)
            && forall|j: int| 0 <= j < lev ==> !(#[trigger] up@[j])@.contains(id),
        r is None ==> forall|j: int| 0 <= j < up@.len() ==> !(#[trigger] up@[j])@.contains(id),
        match r {
            Some((lev, idx)) => crate::compile::upvar_of(up@.map_values(|v: Vec<u32>| v@), id) == Some(
                (lev as int, idx as int),
            ),
            None => crate::compile::upvar_of(up@.map_values(|v: Vec<u32>| v@), id) is None,
        },
{
    let r = find_upvar_scan(up, id);
    proof {
        let u = up@.map_values(|v: Vec<u32>| v@);
        match r {
            Some((lev, idx)) => {
                assert(u[lev as int] == up@[lev as int]@);
                assert(u[lev as int].contains(id));
                let l = choose|l: int|
                    0 <= l < u.len() && u[l].contains(id) && forall|j: int|
                        0 <= j < l ==> !(#[trigger] u[j]).contains(id);
                assert(l == lev) by {
                    if l < lev {
                        assert(u[l] == up@[l]@);
                    } else if l > lev {
                        assert(!u[lev as int].contains(id));
                    }
                }
                lemma_local_pos(u[lev as int], id, idx as int);
            },
            None => {
                assert forall|j: int| 0 <= j < u.len() implies !u[j].contains(id) by {
                    assert(u[j] == up@[j]@);
                }
            },
        }
    }
    r
}

fn find_upvar_scan(up: &Vec<Vec<u32>>, id: u32) -> (r: Option<(usize, usize)>)
    ensures
        r matches Some((lev, idx)) ==> lev < up@.len() && crate::pool::first_index(up@[lev as int]@, id, idx - 1)
            && forall|j: int| 0 <= j < lev ==> !(#[trigger] up@[j])@.contains(id),
        r is None ==> forall|j: int| 0 <= j < up@.len() ==> !(#[trigger] up@[j])@.contains(id),
{
    let mut lev: usize = 0;
    while lev < up.len()
        invariant
            lev <= up@.len(),
            forall|j: int| 0 <= j < lev ==> !(#[trigger] up@[j])@.contains(id),
        decreases up@.len() - lev,
    {
        let idx = local_index(&up[lev], id);
        if idx > 0 {
            return Some((lev, idx));
        }
        lev = lev + 1;
    }
    None
}

/// Compiles `tree` into `s`, for its value when `val` is set.  On success
/// the stack holds one more register exactly when `val` is set, and the
/// nesting depth is what it was; at depth 1024 or more the expression is
/// too complex.
pub fn codegen(s: &mut scope, tree: &Node, val: bool, ops: &OperatorSyms) -> (r: Result<
    (),
    CodegenError,
>)
    requires
        old(s).wf(),
        old(s).lv@.len() < 65535,
    ensures
        old(s).rlev >= 1024 ==> r == Err::<(), CodegenError>(CodegenError::TooComplexExpression),
        old(s).rlev < 1024 ==> (cg_leaf_at(cg(old(s)), *tree, val) matches Some(st) ==> res_is(
            r,
            cg(final(s)),
            st,
        )),
        r is Ok ==> walked(old(s), final(s)) && advanced(old(s), final(s)) && final(s).sp == old(
            s,
        ).sp + vbit(val),
        r is Ok && val ==> builds_value(*tree, old(s).sp, old(s).reps@.len() as int, *ops, final(s)),
        r is Ok ==> (branch_insn(*tree) matches Some(j) ==> emitted_jump(old(s), final(s), j)),
        r is Ok ==> (opens_insn(*tree) matches Some(i) ==> emitted_op(old(s), final(s), i)),
        r is Ok && tree is Next ==> next_ends(old(s), final(s)),
        r is Ok ==> (*tree matches Node::OpAsgn(_, op, _) ==> (op_asgn_jump(op, *ops) matches Some(j)
            ==> emitted_jump(old(s), final(s), j))),
    decreases i32::MAX - old(s).rlev, 0int,
{
    if s.rlev >= 1024 {
        return Err(CodegenError::TooComplexExpression);
    }
    let rlev = s.rlev;
    s.rlev = rlev + 1;
    let r = codegen_node(s, tree, val, ops);
    if r.is_ok() {
        s.rlev = rlev;
    }
    r
}

/// Compiles an expression that may be absent (absent means `nil`).
fn codegen_opt(s: &mut scope, tree: &Option<Box<Node>>, val: bool, ops: &OperatorSyms) -> (r: Result<
    (),
    CodegenError,
>)
    requires
        old(s).wf(),
        old(s).lv@.len() < 65535,
    ensures
        r is Ok ==> walked(old(s), final(s)) && advanced(old(s), final(s)) && final(s).sp == old(
            s,
        ).sp + vbit(val),
    decreases i32::MAX - old(s).rlev, 1int,
{
    match tree {
        Some(t) => codegen(s, &**t, val, ops),
        None => {
            if val {
                let sp = s.sp;
                w_op1(s, OP_LOADNIL, sp)?;
                w_push(s, 1)?;
            }
            Ok(())
        },
    }
}

/// Loads the value `v` into the top register: the instruction `i` with the
/// pool index of `v`.
fn load_literal(s: &mut scope, i: u8, v: &PoolValue) -> (r: Result<(), CodegenError>)
    requires
        old(s).wf(),
    ensures
        res_is(r, cg(final(s)), cg_load_literal(cg(old(s)), i, crate::pool::lit_of(*v))),
        r is Ok ==> walked(old(s), final(s)) && advanced(old(s), final(s)) && final(s).sp == old(
            s,
        ).sp,
        r is Ok && spec_plain_format(i) == InsnFormat::BB ==> spec_last_insn(final(s)).insn == i
            && spec_last_insn(final(s)).a == old(s).sp && spec_last_insn(final(s)).c == 0 && holds(
            final(s),
            spec_last_insn(final(s)).b,
            crate::pool::lit_of(*v),
        ),
{
    let off = w_lit(s, v)?;
    let ghost s1 = *s;
    let sp = s.sp;
    let r = w_op2(s, i, sp, off);
    proof {
        if r is Ok {
            assert(cg(s).pool == cg(&s1).pool);
            assert(s.pool@.len() == pool_lits(s.pool@).len());
            assert(s1.pool@.len() == pool_lits(s1.pool@).len());
        }
    }
    r
}

/// Loads the integer literal `digits` in `base` (as `fbits` when it does not
/// fit in 64 bits) into the top register, with the shortest instruction.
fn load_int(s: &mut scope, digits: &Vec<u8>, base: i32, fbits: u64) -> (r: Result<(), CodegenError>)
    requires
        old(s).wf(),
    ensures
        res_is(r, cg(final(s)), cg_load_int(cg(old(s)), digits@, base, fbits)),
        r is Ok ==> walked(old(s), final(s)) && advanced(old(s), final(s)) && final(s).sp == old(
            s,
        ).sp,
        r is Ok ==> match spec_readint(digits@, base as int, false) {
            Ok(Some(v)) => loads_integer(final(s), spec_last_insn(final(s)), old(s).sp, v),
            _ => spec_last_insn(final(s)).insn == OP_LOADL && spec_last_insn(final(s)).a == old(
                s,
            ).sp && holds(final(s), spec_last_insn(final(s)).b, PoolLit::Float(fbits)),
        },
{
    if base < 1 || base > 36 {
        return Err(CodegenError::MalformedReadintInput);
    }
    let (i, overflow) = readint_mrb_int(digits.as_slice(), base, false)?;
    let sp = s.sp;
    proof {
        crate::readint::lemma_readint_fits(digits@, base as int, false);
    }
    assert(!overflow ==> spec_readint(digits@, base as int, false) == Ok::<Option<int>, ()>(
        Some(i as int),
    ));
    if overflow {
        load_literal(s, OP_LOADL, &PoolValue::Float(fbits))
    } else if i == -1 {
        let r = w_op1(s, OP_LOADI__1, sp);
        assert(r is Ok ==> loaded_integer(spec_last_insn(s)) == Some(-1int));
        r
    } else if i < 0 {
        if i < -65535 {
            load_literal(s, OP_LOADL, &PoolValue::Int(i))
        } else {
            let b = (-i) as u16;
            assert(b == -i);
            let r = w_op2(s, OP_LOADINEG, sp, b);
            assert(r is Ok ==> loaded_integer(spec_last_insn(s)) == Some(i as int));
            r
        }
    } else if i < 8 {
        let op = OP_LOADI_0 + i as u8;
        assert(OP_LOADI_0 <= op <= crate::opcode::OP_LOADI_7 && op - OP_LOADI_0 == i);
        let r = w_op1(s, op, sp);
        assert(r is Ok ==> loaded_integer(spec_last_insn(s)) == Some(i as int));
        r
    } else if i <= 0xffff {
        let r = w_op2(s, OP_LOADI, sp, i as u16);
        assert(r is Ok ==> loaded_integer(spec_last_insn(s)) == Some(i as int));
        r
    } else {
        load_literal(s, OP_LOADL, &PoolValue::Int(i))
    }
}

/// Reads the variable `name` of kind `op` (`OP_GETGV`, `OP_GETIV`, ...) into
/// the top register; the read is emitted even when the value is not used.
fn get_named(s: &mut scope, op: u8, name: u32, val: bool) -> (r: Result<(), CodegenError>)
    requires
        old(s).wf(),
    ensures
        res_is(r, cg(final(s)), cg_get_named(cg(old(s)), op, name, val)),
        r is Ok ==> walked(old(s), final(s)) && advanced(old(s), final(s)) && final(s).sp == old(
            s,
        ).sp + vbit(val),
        r is Ok && spec_plain_format(op) == InsnFormat::BB ==> spec_last_insn(final(s)).insn == op
            && spec_last_insn(final(s)).a == old(s).sp && spec_last_insn(final(s)).c == 0 && names(
            final(s),
            spec_last_insn(final(s)).b,
            name,
        ),
{
    let idx = w_sym(s, name)?;
    let sp = s.sp;
    w_op2(s, op, sp, idx)?;
    if val {
        w_push(s, 1)?;
    }
    Ok(())
}

/// Reads the local variable `name` (of this body or an enclosing one) into
/// the top register.
fn get_local(s: &mut scope, name: u32) -> (r: Result<(), CodegenError>)
    requires
        old(s).wf(),
        old(s).lv@.len() < 65535,
    ensures
        res_is(r, cg(final(s)), cg_get_local(cg(old(s)), name)),
        r is Ok ==> walked(old(s), final(s)) && advanced(old(s), final(s)) && final(s).sp == old(
            s,
        ).sp + 1,
{
    let idx = lv_idx(s, name);
    proof {
        lemma_local_pos(s.lv@, name, idx as int);
    }
    let sp = s.sp;
    if idx > 0 {
        w_move(s, sp, idx as u16, true)?;
        if s.on_eval {
            w_op0(s, OP_NOP)?;
        }
    } else {
        match find_upvar(&s.up, name) {
            Some((lev, i)) => {
                w_op3(s, OP_GETUPVAR, sp, i as u16, lev as u8)?;
            },
            None => {},
        }
    }
    w_push(s, 1)
}

/// Stores register `sp` into the target `lhs`; afterwards reserves a
/// register for the value when `val` is set.
#[verifier::rlimit(50)]
#[verifier::spinoff_prover]
fn gen_assignment(s: &mut scope, lhs: &Node, sp: u16, val: bool) -> (r: Result<(), CodegenError>)
    requires
        old(s).wf(),
        old(s).lv@.len() < 65535,
    ensures
        res_is(r, cg(final(s)), cg_assignment(cg(old(s)), *lhs, sp, val)),
        r is Ok ==> walked(old(s), final(s)) && advanced(old(s), final(s)) && final(s).sp == old(
            s,
        ).sp + vbit(val),
        r is Ok ==> stores(final(s), *lhs, sp),
{
    match lhs {
        Node::GVar(name) => {
            let idx = w_sym(s, *name)?;
            w_op2(s, OP_SETGV, sp, idx)?;
        },
        Node::IVar(name) => {
            let idx = w_sym(s, *name)?;
            w_op2(s, OP_SETIV, sp, idx)?;
        },
        Node::CVar(name) => {
            let idx = w_sym(s, *name)?;
            w_op2(s, OP_SETCV, sp, idx)?;
        },
        Node::Const(name) => {
            let idx = w_sym(s, *name)?;
            w_op2(s, OP_SETCONST, sp, idx)?;
        },
        Node::LVar(name) => {
            let idx = lv_idx(s, *name);
            proof {
                lemma_local_pos(s.lv@, *name, idx as int);
            }
            if idx > 0 {
                if idx != sp as i32 {
                    w_move(s, idx as u16, sp, val)?;
                    if val && s.on_eval {
                        w_op0(s, OP_NOP)?;
                    }
                }
            } else {
                match find_upvar(&s.up, *name) {
                    Some((lev, i)) => {
                        w_op3(s, OP_SETUPVAR, sp, i as u16, lev as u8)?;
                    },
                    None => {},
                }
            }
        },
        _ => {},
    }
    if val {
        w_push(s, 1)?;
    }
    Ok(())
}

/// Compiles call arguments, each for `val`, and returns how many there
/// are.  From the argument that would make `extra` plus their number reach
/// 126 on, they are gathered into one array instead (in the register of the
/// first argument, which is then not counted) and -1 is returned.
#[verifier::rlimit(50)]
#[verifier::spinoff_prover]
fn gen_values(s: &mut scope, args: &Vec<Node>, val: bool, extra: u16, ops: &OperatorSyms) -> (r: Result<
    i32,
    CodegenError,
>)
    requires
        old(s).wf(),
        old(s).lv@.len() < 65535,
        extra <= 1,
    ensures
        r matches Ok(n) ==> walked(old(s), final(s)) && advanced(old(s), final(s)) && {
            ||| args@.len() + extra < 127 && n == args@.len() && final(s).sp == old(s).sp + if val {
                n
            } else {
                0
            }
            ||| args@.len() + extra >= 127 && n == -1 && final(s).sp == old(s).sp
        },
    decreases i32::MAX - old(s).rlev, 1int,
{
    let ghost s0 = *s;
    let mut n: usize = 0;
    while n < args.len()
        invariant
            s.wf(),
            s.lv@.len() < 65535,
            s.rlev == s0.rlev,
            walked(&s0, s),
            advanced(&s0, s),
            n <= args@.len(),
            n + extra <= 126,
            s.sp == s0.sp + if val {
                n as int
            } else {
                0
            },
            extra <= 1,
            s.rlev == old(s).rlev,
            s0 == *old(s),
        decreases args@.len() - n,
    {
        if n + extra as usize >= 126 {
            if val {
                let cnt = n as u16;
                w_pop(s, cnt)?;
                let sp = s.sp;
                w_op2(s, OP_ARRAY, sp, cnt)?;
                let mut k = n;
                while k < args.len()
                    invariant
                        s0 == *old(s),
                        s.wf(),
                        s.lv@.len() < 65535,
                        s.rlev == s0.rlev,
                        walked(&s0, s),
                        advanced(&s0, s),
                        n <= k <= args@.len(),
                        n + extra >= 126,
                        s.sp == s0.sp,
                        s.rlev == old(s).rlev,
                    decreases args@.len() - k,
                {
                    w_push(s, 1)?;
                    codegen(s, &args[k], true, ops)?;
                    w_pop(s, 2)?;
                    let sp = s.sp;
                    w_op1(s, OP_ARYPUSH, sp)?;
                    k = k + 1;
                }
            } else {
                let mut k = n;
                while k < args.len()
                    invariant
                        s.wf(),
                        s.lv@.len() < 65535,
                        s.rlev == s0.rlev,
                        walked(&s0, s),
                        advanced(&s0, s),
                        s0 == *old(s),
                        n <= k <= args@.len(),
                        n < args@.len(),
                        n + extra >= 126,
                        s.sp == s0.sp,
                        s.rlev == old(s).rlev,
                    decreases args@.len() - k,
                {
                    codegen(s, &args[k], false, ops)?;
                    k = k + 1;
                }
            }
            return Ok(-1);
        }
        codegen(s, &args[n], val, ops)?;
        n = n + 1;
    }
    Ok(n as i32)
}

/// The instruction of the operator `mid` applied to one argument, when it
/// has one: 1 for `+`, 2 for `-`, else the opcode; 0 for other methods.
fn operator_insn(mid: u32, ops: &OperatorSyms) -> (r: u8)
    ensures
        r == op_insn(mid, *ops),
{
    if mid == ops.add {
        1
    } else if mid == ops.sub {
        2
    } else if mid == ops.mul {
        OP_MUL
    } else if mid == ops.div {
        OP_DIV
    } else if mid == ops.lt {
        OP_LT
    } else if mid == ops.le {
        OP_LE
    } else if mid == ops.gt {
        OP_GT
    } else if mid == ops.ge {
        OP_GE
    } else if mid == ops.eq {
        OP_EQ
    } else {
        0
    }
}

/// Emits the call of `mid` on the receiver in the top register with `n`
/// arguments above it (one array of them when `sendv`), passing a block
/// when `has_blk`.
fn gen_send(s: &mut scope, mid: u32, n: i32, sendv: bool, has_blk: bool, ops: &OperatorSyms) -> (r:
    Result<(), CodegenError>)
    requires
        old(s).wf(),
        0 <= n <= 127,
    ensures
        res_is(r, cg(final(s)), cg_send(cg(old(s)), mid, n, sendv, has_blk, *ops)),
        r is Ok ==> walked(old(s), final(s)) && advanced(old(s), final(s)) && final(s).sp == old(
            s,
        ).sp,
        r is Ok ==> ends_call(final(s), old(s).sp, mid, n, sendv, has_blk, *ops),
{
    let sp = s.sp;
    let op = if sendv || has_blk || n != 1 {
        0
    } else {
        operator_insn(mid, ops)
    };
    if op == 1 {
        w_addsub(s, OP_ADD, sp)
    } else if op == 2 {
        w_addsub(s, OP_SUB, sp)
    } else if op != 0 {
        w_op1(s, op, sp)
    } else {
        let idx = w_sym(s, mid)?;
        if sendv {
            w_op2(s, if has_blk { OP_SENDVB } else { OP_SENDV }, sp, idx)
        } else {
            w_op3(s, if has_blk { OP_SENDB } else { OP_SEND }, sp, idx, n as u8)
        }
    }
}

/// With the receiver in the top register: compiles the arguments `args`
/// and the block `blk`, then the call of `mid`; the receiver's register is
/// released.
fn gen_call_args(s: &mut scope, mid: u32, args: &Vec<Node>, blk: &Option<Box<Node>>, ops: &OperatorSyms) -> (r:
    Result<(), CodegenError>)
    requires
        old(s).wf(),
        old(s).lv@.len() < 65535,
        old(s).sp >= 1,
    ensures
        r is Ok ==> walked(old(s), final(s)) && advanced(old(s), final(s)) && final(s).sp == old(
            s,
        ).sp - 1,
        r is Ok ==> exists|m: Cg|
            #![trigger cg_send(m, mid, send_argc(args@.len()), send_array(args@.len()), blk is Some, *ops)]
            m.sp == old(s).sp - 1 && cg_send(m, mid, send_argc(args@.len()), send_array(args@.len()), blk is Some, *ops)
                == Ok::<Cg, CodegenError>(cg(final(s))),
        r is Ok ==> ends_call(
            final(s),
            (old(s).sp - 1) as u16,
            mid,
            send_argc(args@.len()),
            send_array(args@.len()),
            blk is Some,
            *ops,
        ),
    decreases i32::MAX - old(s).rlev, 2int,
{
    let ghost s1 = *s;
    let mut n: i32 = gen_values(s, args, true, 0, ops)?;
    let mut sendv = false;
    if n < 0 {
        sendv = true;
        n = 1;
        w_push(s, 1)?;
    }
    assert(s.sp == s1.sp + n);
    let has_blk = blk.is_some();
    if has_blk {
        codegen_opt(s, blk, true, ops)?;
        w_pop(s, 1)?;
    }
    w_push(s, 1)?;
    w_pop(s, 1)?;
    w_pop(s, (n + 1) as u16)?;
    let ghost m = cg(s);
    assert(m.sp == s1.sp - 1);
    let r = gen_send(s, mid, n, sendv, has_blk, ops);
    proof {
        if r is Ok {
            assert(cg_send(m, mid, send_argc(args@.len()), send_array(args@.len()), blk is Some, *ops)
                == Ok::<Cg, CodegenError>(cg(s)));
        }
    }
    r
}

/// Whether a call with `len` arguments passes them as one array.
pub open spec fn send_array(len: nat) -> bool {
    len >= 127
}

/// The count of arguments that a call with `len` arguments passes to its
/// instruction: 1 (the array of them) from 127 arguments on.
pub open spec fn send_argc(len: nat) -> i32 {
    if len < 127 {
        len as i32
    } else {
        1
    }
}

/// Compiles the call of `mid` on `recv` with `args` and the block `blk`;
/// with `safe` the call is skipped when the receiver is `nil`.  Operators
/// applied to one argument without a block get their own instructions.
#[verifier::rlimit(50)]
#[verifier::spinoff_prover]
pub fn gen_call(
    s: &mut scope,
    recv: &Node,
    mid: u32,
    args: &Vec<Node>,
    blk: &Option<Box<Node>>,
    val: bool,
    safe: bool,
    ops: &OperatorSyms,
) -> (r: Result<(), CodegenError>)
    requires
        old(s).wf(),
        old(s).lv@.len() < 65535,
    ensures
        r is Ok ==> walked(old(s), final(s)) && advanced(old(s), final(s)) && final(s).sp == old(
            s,
        ).sp + vbit(val),
        r is Ok && !safe ==> exists|m: Cg, m2: Cg|
            #![trigger cg_send(m, mid, send_argc(args@.len()), send_array(args@.len()), blk is Some, *ops), push_if(m2, val)]
            m.sp == old(s).sp && cg_send(m, mid, send_argc(args@.len()), send_array(args@.len()), blk is Some, *ops)
                == Ok::<Cg, CodegenError>(m2) && push_if(m2, val) == Ok::<Cg, CodegenError>(cg(final(s))),
        r is Ok && safe ==> emitted_jump(old(s), final(s), OP_JMPNIL),
        r is Ok && !safe ==> ends_call(
            final(s),
            old(s).sp,
            mid,
            send_argc(args@.len()),
            send_array(args@.len()),
            blk is Some,
            *ops,
        ),
    decreases i32::MAX - old(s).rlev, 3int,
{
    let ghost s0 = *s;
    codegen(s, recv, true, ops)?;
    if safe {
        let sp = s.sp;
        w_move(s, sp, sp - 1, true)?;
        let sp = s.sp;
        let skip = w_jmp2(s, OP_JMPNIL, sp, 0, val)?;
        let ghost s1 = *s;
        gen_call_args(s, mid, args, blk, ops)?;
        let ghost s2 = *s;
        w_dispatch(s, skip)?;
        proof {
            lemma_kept_trans(&s0, &s1, &s2, stable(&s0), stable(&s1));
            lemma_kept_trans(&s0, &s2, s, stable(&s0), skip as int);
            lemma_jump_stays(&s1, &s2, skip as int, OP_JMPNIL, stable(&s1));
            lemma_jump_stays(&s2, s, skip as int, OP_JMPNIL, skip as int);
        }
        let ghost s3 = *s;
        if val {
            w_push(s, 1)?;
        }
        proof {
            if val {
                lemma_jump_stays(&s3, s, skip as int, OP_JMPNIL, stable(&s3));
            }
            assert(jump_before(s.iseq@, skip as int, OP_JMPNIL));
        }
        return Ok(());
    } else {
        gen_call_args(s, mid, args, blk, ops)?;
    }
    let ghost m2 = cg(s);
    if val {
        w_push(s, 1)?;
    }
    proof {
        if !safe {
            let m = choose|m: Cg|
                m.sp == s0.sp && cg_send(m, mid, send_argc(args@.len()), send_array(args@.len()), blk is Some, *ops)
                    == Ok::<Cg, CodegenError>(m2);
            assert(push_if(m2, val) == Ok::<Cg, CodegenError>(cg(s)));
        }
    }
    Ok(())
}

/// A sequence of expressions: all but the last for their effect.
fn gen_seq(s: &mut scope, items: &Vec<Node>, val: bool, ops: &OperatorSyms) -> (r: Result<
    (),
    CodegenError,
>)
    requires
        old(s).wf(),
        old(s).lv@.len() < 65535,
    ensures
        r is Ok ==> walked(old(s), final(s)) && advanced(old(s), final(s)) && final(s).sp == old(
            s,
        ).sp + vbit(val),
    decreases i32::MAX - old(s).rlev, 1int,
{
    let ghost s0 = *s;
    if val && items.len() == 0 {
        let sp = s.sp;
        w_op1(s, OP_LOADNIL, sp)?;
        w_push(s, 1)?;
        return Ok(());
    }
    let mut k: usize = 0;
    while k < items.len()
        invariant
            s.wf(),
            s.lv@.len() < 65535,
            s.rlev == old(s).rlev,
            walked(&s0, s),
            advanced(&s0, s),
            k <= items@.len(),
            items@.len() > 0 || !val,
            s0 == *old(s),
            s.sp == s0.sp + if k == items@.len() && k > 0 {
                vbit(val)
            } else {
                0
            },
        decreases items@.len() - k,
    {
        let v = if k + 1 < items.len() {
            false
        } else {
            val
        };
        codegen(s, &items[k], v, ops)?;
        k = k + 1;
    }
    Ok(())
}

/// `if cond then else`: the condition jumps over the then-branch.  A
/// condition that is a literal decides at compile time: `true`, numbers and
/// strings take the then-branch, `false` and `nil` the else-branch.
#[verifier::rlimit(50)]
#[verifier::spinoff_prover]
fn gen_if(
    s: &mut scope,
    cond: &Node,
    then_part: &Option<Box<Node>>,
    else_part: &Option<Box<Node>>,
    val: bool,
    ops: &OperatorSyms,
) -> (r: Result<(), CodegenError>)
    requires
        old(s).wf(),
        old(s).lv@.len() < 65535,
    ensures
        r is Ok ==> walked(old(s), final(s)) && advanced(old(s), final(s)) && final(s).sp == old(
            s,
        ).sp + vbit(val),
        r is Ok && !literal_condition(*cond) ==> emitted_jump(old(s), final(s), OP_JMPNOT),
    decreases i32::MAX - old(s).rlev, 2int,
{
    match cond {
        Node::True | Node::Int(..) | Node::Str(..) => {
            return codegen_opt(s, then_part, val, ops);
        },
        Node::False | Node::Nil => {
            return codegen_opt(s, else_part, val, ops);
        },
        _ => {},
    }
    codegen(s, cond, true, ops)?;
    w_pop(s, 1)?;
    let sp = s.sp;
    let pos1 = w_jmp2(s, OP_JMPNOT, sp, 0, val)?;
    let ghost p = pos1 as int;
    let ghost s1 = *s;
    codegen_opt(s, then_part, val, ops)?;
    let ghost s2 = *s;
    proof { lemma_jump_stays(&s1, &s2, p, OP_JMPNOT, stable(&s1)); }
    if else_part.is_some() {
        if val {
            w_pop(s, 1)?;
        }
        let ghost s3 = *s;
        proof { lemma_jump_stays(&s2, &s3, p, OP_JMPNOT, if val { stable(&s2) } else { p }); }
        let pos2 = w_jmp(s, OP_JMP)?;
        let ghost s4 = *s;
        proof { lemma_jump_stays(&s3, &s4, p, OP_JMPNOT, stable(&s3)); }
        w_dispatch(s, pos1)?;
        let ghost s5 = *s;
        proof { lemma_jump_stays(&s4, &s5, p, OP_JMPNOT, p); }
        codegen_opt(s, else_part, val, ops)?;
        let ghost s6 = *s;
        proof { lemma_jump_stays(&s5, &s6, p, OP_JMPNOT, stable(&s5)); }
        w_dispatch(s, pos2)?;
        proof { lemma_jump_stays(&s6, s, p, OP_JMPNOT, pos2 as int); }
    } else if val {
        w_pop(s, 1)?;
        let ghost s3 = *s;
        proof { lemma_jump_stays(&s2, &s3, p, OP_JMPNOT, stable(&s2)); }
        let pos2 = w_jmp(s, OP_JMP)?;
        let ghost s4 = *s;
        proof { lemma_jump_stays(&s3, &s4, p, OP_JMPNOT, stable(&s3)); }
        w_dispatch(s, pos1)?;
        let ghost s5 = *s;
        proof { lemma_jump_stays(&s4, &s5, p, OP_JMPNOT, p); }
        let sp = s.sp;
        w_op1(s, OP_LOADNIL, sp)?;
        let ghost s6 = *s;
        proof { lemma_jump_stays(&s5, &s6, p, OP_JMPNOT, stable(&s5)); }
        w_dispatch(s, pos2)?;
        let ghost s7 = *s;
        proof { lemma_jump_stays(&s6, &s7, p, OP_JMPNOT, pos2 as int); }
        w_push(s, 1)?;
        proof { lemma_jump_stays(&s7, s, p, OP_JMPNOT, stable(&s7)); }
    } else {
        w_dispatch(s, pos1)?;
        proof { lemma_jump_stays(&s2, s, p, OP_JMPNOT, p); }
    }
    Ok(())
}

/// `a && b` (with `OP_JMPNOT`) or `a || b` (with `OP_JMPIF`): `b` is
/// skipped when `a` decides.
fn gen_andor(s: &mut scope, a: &Node, b: &Node, jmp: u8, val: bool, ops: &OperatorSyms) -> (r:
    Result<(), CodegenError>)
    requires
        old(s).wf(),
        old(s).lv@.len() < 65535,
        jmp == OP_JMPIF || jmp == OP_JMPNOT,
    ensures
        r is Ok ==> walked(old(s), final(s)) && advanced(old(s), final(s)) && final(s).sp == old(
            s,
        ).sp + vbit(val),
        r is Ok ==> exists|pos: int|
            stable(old(s)) < pos && #[trigger] jump_before(final(s).iseq@, pos, jmp),
    decreases i32::MAX - old(s).rlev, 1int,
{
    codegen(s, a, true, ops)?;
    w_pop(s, 1)?;
    let sp = s.sp;
    let pos = w_jmp2(s, jmp, sp, 0, val)?;
    let ghost s1 = *s;
    codegen(s, b, val, ops)?;
    let ghost s2 = *s;
    w_dispatch(s, pos)?;
    proof {
        let p = pos as int;
        assert(jump_before(s1.iseq@, p, jmp));
        assert forall|k: int| 2 <= k <= 4 && p - k >= 0 implies #[trigger] s.iseq@[p - k] == s1.iseq@[p - k] by {
            assert(s2.iseq@[p - k] == s1.iseq@[p - k]);
        }
        assert(jump_before(s.iseq@, p, jmp));
    }
    Ok(())
}

/// `while cond; body; end` (`jmp` is `OP_JMPIF`) or `until` (`OP_JMPNOT`):
/// a jump to the condition, the body, the condition, and a conditional jump
/// back to the body; the loop's value is `nil`.
#[verifier::rlimit(50)]
#[verifier::spinoff_prover]
fn gen_loop(s: &mut scope, cond: &Node, body: &Node, jmp: u8, val: bool, ops: &OperatorSyms) -> (r:
    Result<(), CodegenError>)
    requires
        old(s).wf(),
        old(s).lv@.len() < 65535,
        jmp == OP_JMPIF || jmp == OP_JMPNOT,
    ensures
        r is Ok ==> walked(old(s), final(s)) && advanced(old(s), final(s)) && final(s).sp == old(
            s,
        ).sp + vbit(val),
        r is Ok ==> exists|pos: int|
            stable(old(s)) < pos && #[trigger] jump_before(final(s).iseq@, pos, jmp),
    decreases i32::MAX - old(s).rlev, 1int,
{
    let ghost s0 = *s;
    let li = loop_push(s, looptype::LOOP_NORMAL);
    let pc0 = w_label(s);
    let pc1 = w_jmp(s, OP_JMP)?;
    let pc2 = w_label(s);
    let mut lp = s.loops[li];
    lp.pc0 = pc0 as i32;
    lp.pc1 = pc1 as i32;
    lp.pc2 = pc2 as i32;
    s.loops.set(li, lp);
    let ghost s1 = *s;
    assert(s1.loops@ == s0.loops@.push(lp));
    assert(stable(&s1) >= stable(&s0) && crate::steps::kept_below(&s0, &s1, stable(&s0)));
    codegen(s, body, false, ops)?;
    let ghost s2 = *s;
    w_dispatch(s, pc1)?;
    let ghost s3 = *s;
    proof { lemma_kept_trans(&s0, &s2, &s3, stable(&s0), pc1 as int); }
    codegen(s, cond, true, ops)?;
    w_pop(s, 1)?;
    let sp = s.sp;
    let back = w_jmp2(s, jmp, sp, pc2, false)?;
    let ghost s4 = *s;
    assert(s4.loops@.last().pc3 == 0);
    loop_pop(s, if val { 1 } else { 0 })?;
    proof {
        assert(s.loops@ =~= s0.loops@);
        if val {
            crate::codegen::lemma_emit_bytes_content(s4.buf(), s4.pc as int,
                crate::codegen::encode_1(OP_LOADNIL, s4.sp), s4.lineno);
        }
        lemma_kept_trans(&s0, &s4, s, stable(&s0), stable(&s4));
        let p = back as int;
        assert(jump_before(s4.iseq@, p, jmp));
        assert forall|k: int| 2 <= k <= 4 && p - k >= 0 implies #[trigger] s.iseq@[p - k] == s4.iseq@[p - k] by {
        }
        assert(jump_before(s.iseq@, p, jmp));
    }
    Ok(())
}

/// The current value of a constant or class variable that may not be
/// defined yet: an exception while reading it gives `false` instead.
#[verifier::rlimit(50)]
#[verifier::spinoff_prover]
fn gen_guarded_read(s: &mut scope, lhs: &Node, ops: &OperatorSyms) -> (r: Result<(), CodegenError>)
    requires
        old(s).wf(),
        old(s).lv@.len() < 65535,
    ensures
        r is Ok ==> walked(old(s), final(s)) && advanced(old(s), final(s)) && final(s).sp == old(
            s,
        ).sp + 1,
    decreases i32::MAX - old(s).rlev, 1int,
{
    let ghost s0 = *s;
    let onerr = w_jmp(s, OP_ONERR)?;
    let li = loop_push(s, looptype::LOOP_BEGIN);
    let mut lp = s.loops[li];
    lp.pc1 = onerr as i32;
    s.loops.set(li, lp);
    let ghost s1 = *s;
    let exc = s.sp;
    codegen(s, lhs, true, ops)?;
    let mut lp = s.loops[li];
    lp.type_0 = looptype::LOOP_RESCUE;
    s.loops.set(li, lp);
    let ghost s2 = *s;
    w_op1(s, OP_POPERR, 1)?;
    let noexc = w_jmp(s, OP_JMP)?;
    let ghost s3 = *s;
    w_dispatch(s, onerr)?;
    let ghost s4 = *s;
    proof { lemma_kept_trans(&s0, &s3, &s4, stable(&s0), onerr as int); }
    w_op1(s, OP_EXCEPT, exc)?;
    w_op1(s, OP_LOADF, exc)?;
    let ghost s5 = *s;
    w_dispatch(s, noexc)?;
    let ghost s6 = *s;
    proof { lemma_kept_trans(&s0, &s5, &s6, stable(&s0), noexc as int); }
    assert(s.loops@.last().pc3 == 0);
    loop_pop(s, 0)?;
    proof {
        assert(s.loops@ =~= s0.loops@);
    }
    Ok(())
}

/// `lhs op= rhs` for a variable `lhs`: with `||` or `&&`, `rhs` is only
/// computed and assigned when the current value is false (`||`) or true
/// (`&&`); otherwise the operator is applied to the current value and `rhs`
/// and the result assigned.
#[verifier::rlimit(50)]
#[verifier::spinoff_prover]
fn gen_op_asgn(s: &mut scope, lhs: &Node, op: u32, rhs: &Node, val: bool, ops: &OperatorSyms) -> (r:
    Result<(), CodegenError>)
    requires
        old(s).wf(),
        old(s).lv@.len() < 65535,
    ensures
        r is Ok ==> walked(old(s), final(s)) && advanced(old(s), final(s)) && final(s).sp == old(
            s,
        ).sp + vbit(val),
        r is Ok && op != ops.oror && op != ops.andand ==> stores(final(s), *lhs, old(s).sp),
        r is Ok ==> (op_asgn_jump(op, *ops) matches Some(j) ==> emitted_jump(old(s), final(s), j)),
    decreases i32::MAX - old(s).rlev, 2int,
{
    let ghost s0 = *s;
    let guarded = op == ops.oror && match lhs {
        Node::Const(_) | Node::CVar(_) => true,
        _ => false,
    };
    if guarded {
        gen_guarded_read(s, lhs, ops)?;
    } else {
        codegen(s, lhs, true, ops)?;
    }
    if op == ops.oror || op == ops.andand {
        w_pop(s, 1)?;
        let sp = s.sp;
        let jmp = if op == ops.oror { OP_JMPIF } else { OP_JMPNOT };
        let pos = w_jmp2(s, jmp, sp, 0, val)?;
        let ghost p = pos as int;
        let ghost s1 = *s;
        codegen(s, rhs, true, ops)?;
        let ghost sa = *s;
        proof { lemma_jump_stays(&s1, &sa, p, jmp, stable(&s1)); }
        w_pop(s, 1)?;
        let ghost sb = *s;
        proof { lemma_jump_stays(&sa, &sb, p, jmp, stable(&sa)); }
        let sp = s.sp;
        gen_assignment(s, lhs, sp, val)?;
        let ghost s2 = *s;
        proof { lemma_jump_stays(&sb, &s2, p, jmp, stable(&sb)); }
        w_dispatch(s, pos)?;
        proof {
            lemma_kept_trans(&s0, &s2, s, stable(&s0), pos as int);
            lemma_jump_stays(&s2, s, p, jmp, p);
        }
    } else {
        codegen(s, rhs, true, ops)?;
        w_push(s, 1)?;
        w_pop(s, 3)?;
        let sp = s.sp;
        let i = if op == ops.eq { 0 } else { operator_insn(op, ops) };
        if i == 1 {
            w_addsub(s, OP_ADD, sp)?;
        } else if i == 2 {
            w_addsub(s, OP_SUB, sp)?;
        } else if i != 0 {
            w_op1(s, i, sp)?;
        } else {
            let idx = w_sym(s, op)?;
            w_op3(s, OP_SEND, sp, idx, 1)?;
        }
        gen_assignment(s, lhs, sp, val)?;
    }
    Ok(())
}

/// `lhs = rhs`.
fn gen_asgn(s: &mut scope, lhs: &Node, rhs: &Node, val: bool, ops: &OperatorSyms) -> (r: Result<
    (),
    CodegenError,
>)
    requires
        old(s).wf(),
        old(s).lv@.len() < 65535,
    ensures
        r is Ok ==> walked(old(s), final(s)) && advanced(old(s), final(s)) && final(s).sp == old(
            s,
        ).sp + vbit(val),
        r is Ok ==> stores(final(s), *lhs, old(s).sp),
    decreases i32::MAX - old(s).rlev, 1int,
{
    codegen(s, rhs, true, ops)?;
    w_pop(s, 1)?;
    let sp = s.sp;
    gen_assignment(s, lhs, sp, val)
}

/// An array literal.
fn gen_array(s: &mut scope, items: &Vec<Node>, val: bool, ops: &OperatorSyms) -> (r: Result<
    (),
    CodegenError,
>)
    requires
        old(s).wf(),
        old(s).lv@.len() < 65535,
    ensures
        r is Ok ==> walked(old(s), final(s)) && advanced(old(s), final(s)) && final(s).sp == old(
            s,
        ).sp + vbit(val),
        r is Ok && val && items@.len() < 127 ==> spec_last_insn(final(s)) == (mrb_insn_data {
            insn: OP_ARRAY,
            a: old(s).sp,
            b: items@.len() as u16,
            c: 0,
        }),
    decreases i32::MAX - old(s).rlev, 2int,
{
    let n = gen_values(s, items, val, 0, ops)?;
    if n >= 0 {
        if val {
            w_pop(s, n as u16)?;
            let sp = s.sp;
            w_op2(s, OP_ARRAY, sp, n as u16)?;
            w_push(s, 1)?;
        }
    } else if val {
        w_push(s, 1)?;
    }
    Ok(())
}

/// Builds the hash from the `len` key and value pairs on the stack: a new
/// hash (`OP_HASH`), or, when one was already started below them
/// (`update`), added to it (`OP_HASHADD`, omitted when there are no pairs
/// and `skip_empty`).
fn flush_hash(s: &mut scope, len: u16, update: bool, skip_empty: bool) -> (r: Result<(), CodegenError>)
    requires
        old(s).wf(),
        len <= 255,
        old(s).sp >= 2 * len + if update { 1int } else { 0int },
    ensures
        res_is(r, cg(final(s)), cg_flush_hash(cg(old(s)), len, update, skip_empty)),
        r is Ok ==> walked(old(s), final(s)) && advanced(old(s), final(s)) && final(s).sp == old(
            s,
        ).sp - 2 * len - (if update { 1int } else { 0int }) + 1,
        r is Ok && !update ==> spec_last_insn(final(s)) == (mrb_insn_data {
            insn: OP_HASH,
            a: (old(s).sp - 2 * len) as u16,
            b: len,
            c: 0,
        }),
{
    w_pop(s, 2 * len)?;
    if !update {
        let sp = s.sp;
        w_op2(s, OP_HASH, sp, len)?;
    } else {
        w_pop(s, 1)?;
        if len > 0 || !skip_empty {
            let sp = s.sp;
            w_op2(s, OP_HASHADD, sp, len)?;
        }
    }
    w_push(s, 1)
}

/// A hash literal: the keys and values are pushed in pairs, and every 255
/// pairs they are gathered into the hash.
fn gen_hash(s: &mut scope, pairs: &Vec<(Node, Node)>, val: bool, ops: &OperatorSyms) -> (r: Result<
    (),
    CodegenError,
>)
    requires
        old(s).wf(),
        old(s).lv@.len() < 65535,
    ensures
        r is Ok ==> walked(old(s), final(s)) && advanced(old(s), final(s)) && final(s).sp == old(
            s,
        ).sp + vbit(val),
        r is Ok && val && pairs@.len() < 255 ==> spec_last_insn(final(s)) == (mrb_insn_data {
            insn: OP_HASH,
            a: old(s).sp,
            b: pairs@.len() as u16,
            c: 0,
        }),
    decreases i32::MAX - old(s).rlev, 1int,
{
    let ghost s0 = *s;
    let mut len: usize = 0;
    let mut update = false;
    let mut k: usize = 0;
    while k < pairs.len()
        invariant
            s0 == *old(s),
            s.wf(),
            s.lv@.len() < 65535,
            s.rlev == old(s).rlev,
            walked(&s0, s),
            advanced(&s0, s),
            k <= pairs@.len(),
            len <= k,
            val ==> len < 255,
            !update ==> len == k,
            update ==> k >= 255,
            s.sp == s0.sp + if val {
                2 * len + if update { 1int } else { 0int }
            } else {
                0int
            },
        decreases pairs@.len() - k,
    {
        codegen(s, &pairs[k].0, val, ops)?;
        codegen(s, &pairs[k].1, val, ops)?;
        len = len + 1;
        k = k + 1;
        if val && len == 255 {
            flush_hash(s, len as u16, update, false)?;
            update = true;
            len = 0;
        }
    }
    if val {
        flush_hash(s, len as u16, update, true)?;
    }
    Ok(())
}

/// `return v`: from a block with `OP_RETURN_BLK`, else with `OP_RETURN`.
fn gen_return_node(s: &mut scope, v: &Option<Box<Node>>, val: bool, ops: &OperatorSyms) -> (r:
    Result<(), CodegenError>)
    requires
        old(s).wf(),
        old(s).lv@.len() < 65535,
    ensures
        r is Ok ==> walked(old(s), final(s)) && advanced(old(s), final(s)) && final(s).sp == old(
            s,
        ).sp + vbit(val),
        r is Ok && v is None ==> spec_last_insn(final(s)).insn == (if old(s).loops@.len() > 0 {
            OP_RETURN_BLK
        } else {
            OP_RETURN
        }),
    decreases i32::MAX - old(s).rlev, 1int,
{
    match v {
        Some(t) => {
            codegen(s, &**t, true, ops)?;
            w_pop(s, 1)?;
        },
        None => {
            let sp = s.sp;
            w_op1(s, OP_LOADNIL, sp)?;
        },
    }
    let sp = s.sp;
    if s.loops.len() > 0 {
        w_return(s, OP_RETURN_BLK, sp)?;
    } else {
        w_return(s, OP_RETURN, sp)?;
    }
    if val {
        w_push(s, 1)?;
    }
    Ok(())
}

/// Compiles a literal or a variable read.
#[verifier::rlimit(50)]
#[verifier::spinoff_prover]
fn gen_leaf(s: &mut scope, tree: &Node, val: bool, ops: &OperatorSyms) -> (r: Result<(), CodegenError>)
    requires
        old(s).wf(),
        old(s).lv@.len() < 65535,
        value_leaf(*tree),
    ensures
        r is Ok ==> walked(old(s), final(s)) && advanced(old(s), final(s)) && final(s).sp == old(
            s,
        ).sp + vbit(val),
        cg_leaf(cg(old(s)), *tree, val) matches Some(st) ==> res_is(r, cg(final(s)), st),
        r is Ok && val ==> builds_value(*tree, old(s).sp, old(s).reps@.len() as int, *ops, final(s)),
{
    match tree {
        Node::SelfValue => load_const(s, OP_LOADSELF, val),
        Node::Nil => load_const(s, OP_LOADNIL, val),
        Node::True => load_const(s, OP_LOADT, val),
        Node::False => load_const(s, OP_LOADF, val),
        Node::Int(digits, base, fbits) => {
            if val {
                load_int(s, digits, *base, *fbits)?;
                w_push(s, 1)?;
            }
            Ok(())
        },
        Node::Float(bits) => {
            if val {
                load_literal(s, OP_LOADL, &PoolValue::Float(*bits))?;
                w_push(s, 1)?;
            }
            Ok(())
        },
        Node::Str(text) => {
            if val {
                let v = PoolValue::Str(copy_bytes(text));
                load_literal(s, OP_STRING, &v)?;
                w_push(s, 1)?;
            }
            Ok(())
        },
        Node::Sym(sym) => {
            if val {
                let idx = w_sym(s, *sym)?;
                let sp = s.sp;
                w_op2(s, OP_LOADSYM, sp, idx)?;
                w_push(s, 1)?;
            }
            Ok(())
        },
        Node::LVar(name) => {
            if val {
                get_local(s, *name)?;
            }
            Ok(())
        },
        Node::GVar(name) => get_named(s, OP_GETGV, *name, val),
        Node::IVar(name) => get_named(s, OP_GETIV, *name, val),
        Node::CVar(name) => get_named(s, OP_GETCV, *name, val),
        Node::Const(name) => get_named(s, OP_GETCONST, *name, val),
        _ => Ok(()),
    }
}

/// A literal or a variable read.
pub open spec fn value_leaf(t: Node) -> bool {
    t is SelfValue || t is Nil || t is True || t is False || t is Int || t is Float || t is Str
        || t is Sym || t is LVar || t is GVar || t is IVar || t is CVar || t is Const
}

/// Compiles `tree` once the nesting depth has been counted.
#[verifier::rlimit(50)]
#[verifier::spinoff_prover]
fn codegen_node(s: &mut scope, tree: &Node, val: bool, ops: &OperatorSyms) -> (r: Result<
    (),
    CodegenError,
>)
    requires
        old(s).wf(),
        old(s).lv@.len() < 65535,
    ensures
        r is Ok ==> walked(old(s), final(s)) && advanced(old(s), final(s)) && final(s).sp == old(
            s,
        ).sp + vbit(val),
        cg_leaf(cg(old(s)), *tree, val) matches Some(st) ==> res_is(r, cg(final(s)), st),
        r is Ok && val ==> builds_value(*tree, old(s).sp, old(s).reps@.len() as int, *ops, final(s)),
        r is Ok ==> (branch_insn(*tree) matches Some(j) ==> emitted_jump(old(s), final(s), j)),
        r is Ok ==> (opens_insn(*tree) matches Some(i) ==> emitted_op(old(s), final(s), i)),
        r is Ok && tree is Next ==> next_ends(old(s), final(s)),
        r is Ok ==> (*tree matches Node::OpAsgn(_, op, _) ==> (op_asgn_jump(op, *ops) matches Some(j)
            ==> emitted_jump(old(s), final(s), j))),
    decreases i32::MAX - old(s).rlev, 4int,
{
    match tree {
        Node::Begin(items) => gen_seq(s, items, val, ops),
        Node::If(cond, then_part, else_part) => gen_if(s, &**cond, then_part, else_part, val, ops),
        Node::And(a, b) => gen_andor(s, &**a, &**b, OP_JMPNOT, val, ops),
        Node::Or(a, b) => gen_andor(s, &**a, &**b, OP_JMPIF, val, ops),
        Node::While(cond, body) => gen_loop(s, &**cond, &**body, OP_JMPIF, val, ops),
        Node::Until(cond, body) => gen_loop(s, &**cond, &**body, OP_JMPNOT, val, ops),
        Node::SelfValue | Node::Nil | Node::True | Node::False | Node::Int(..) | Node::Float(..)
        | Node::Str(..) | Node::Sym(..) | Node::LVar(..) | Node::GVar(..) | Node::IVar(..)
        | Node::CVar(..) | Node::Const(..) => gen_leaf(s, tree, val, ops),
        Node::Asgn(lhs, rhs) => gen_asgn(s, &**lhs, &**rhs, val, ops),
        Node::OpAsgn(lhs, op, rhs) => gen_op_asgn(s, &**lhs, *op, &**rhs, val, ops),
        Node::Call(recv, mid, args, blk) => gen_call(s, &**recv, *mid, args, blk, val, false, ops),
        Node::SafeCall(recv, mid, args, blk) => gen_call(s, &**recv, *mid, args, blk, val, true, ops),
        Node::Array(items) => gen_array(s, items, val, ops),
        Node::Hash(pairs) => gen_hash(s, pairs, val, ops),
        Node::Dot2(a, b) => gen_range(s, &**a, &**b, OP_RANGE_INC, val, ops),
        Node::Dot3(a, b) => gen_range(s, &**a, &**b, OP_RANGE_EXC, val, ops),
        Node::Return(v) => gen_return_node(s, v, val, ops),
        Node::Next(v) => gen_next(s, v, val, ops),
        Node::Yield(args) => gen_yield(s, args, val, ops),
        Node::Super(args, blk) => gen_super(s, args, blk, val, ops),
        Node::ZSuper(blk) => gen_zsuper(s, blk, val, ops),
        Node::Redo => gen_redo(s, val),
        Node::DStr(parts) => gen_dstr(s, parts, val, ops),
        Node::DSym(parts) => {
            gen_dstr(s, parts, val, ops)?;
            if val {
                w_pop(s, 1)?;
                let sp = s.sp;
                w_op1(s, OP_INTERN, sp)?;
                w_push(s, 1)?;
            }
            Ok(())
        },
        Node::Negate(t) => gen_negate(s, &**t, val, ops),
        Node::Colon2(base, name) => {
            let sym = w_sym(s, *name)?;
            codegen(s, &**base, true, ops)?;
            w_pop(s, 1)?;
            let sp = s.sp;
            w_op2(s, OP_GETMCNST, sp, sym)?;
            if val {
                w_push(s, 1)?;
            }
            Ok(())
        },
        Node::Colon3(name) => {
            let sym = w_sym(s, *name)?;
            let sp = s.sp;
            w_op1(s, OP_OCLASS, sp)?;
            w_op2(s, OP_GETMCNST, sp, sym)?;
            if val {
                w_push(s, 1)?;
            }
            Ok(())
        },
        Node::Lambda(def) => gen_closure(s, &**def, OP_LAMBDA, val, ops),
        Node::Block(def) => gen_closure(s, &**def, OP_BLOCK, val, ops),
        Node::Def(name, def) => gen_def(s, *name, &**def, val, ops),
        Node::Alias(a, b) => {
            let x = w_sym(s, *a)?;
            let y = w_sym(s, *b)?;
            w_op2(s, OP_ALIAS, x, y)?;
            load_const(s, OP_LOADNIL, val)
        },
        Node::Undef(names) => gen_undef(s, names, val),
        Node::Class(base, name, sup, body) => gen_class(s, base, name, sup, body, val, ops),
        Node::Module(base, name, body) => gen_module(s, base, name, body, val, ops),
        Node::SClass(obj, body) => gen_sclass(s, obj, body, val, ops),
    }
}

/// The instruction that opens the class of `t`: `OP_CLASS` for a class,
/// `OP_MODULE` for a module, `OP_SCLASS` for a singleton class.
pub open spec fn opens_insn(t: Node) -> Option<u8> {
    match t {
        Node::Class(..) => Some(OP_CLASS),
        Node::Module(..) => Some(OP_MODULE),
        Node::SClass(..) => Some(OP_SCLASS),
        _ => None,
    }
}

/// The code of `fin` holds an instruction with opcode `i` that starts past
/// the stable position of `before`, that is, one emitted since.
pub open spec fn emitted_op(before: &scope, fin: &scope, i: u8) -> bool {
    exists|p: int|
        stable(before) <= p && #[trigger] crate::opcode::spec_insn_opcode(fin.iseq@, p) == i
}

/// An instruction that cannot be folded into what follows, emitted last in
/// `m` (after `o`), is still in the code of every scope that `m` advanced to.
proof fn lemma_op_stays(o: &scope, m: &scope, f: &scope, i: u8)
    requires
        m.wf(),
        f.wf(),
        f.iseq@.len() >= m.iseq@.len(),
        m.pc != m.lastpc,
        m.lastpc >= stable(o),
        m.lastpc + 2 <= m.pc,
        spec_last_insn(m).insn == i,
        !crate::steps::foldable(i),
        advanced(m, f),
    ensures
        emitted_op(o, f, i),
{
    let p = m.lastpc as int;
    assert(stable(m) == m.pc);
    assert(p + 1 < m.iseq@.len());
    assert(f.iseq@[p] == m.iseq@[p]);
    assert(f.iseq@[p + 1] == m.iseq@[p + 1]);
    assert(crate::opcode::byte_at(f.iseq@, p) == crate::opcode::byte_at(m.iseq@, p));
    assert(crate::opcode::byte_at(f.iseq@, p + 1) == crate::opcode::byte_at(m.iseq@, p + 1));
    assert(crate::opcode::spec_insn_opcode(m.iseq@, p) == spec_last_insn(m).insn);
    assert(crate::opcode::spec_insn_opcode(f.iseq@, p) == i);
}

/// `class Name < Super; body; end`: `OP_CLASS` opens the class under its
/// base, then the body runs.
#[verifier::rlimit(50)]
#[verifier::spinoff_prover]
fn gen_class(
    s: &mut scope,
    base: &ClassBase,
    name: &u32,
    sup: &Option<Box<Node>>,
    body: &Box<ScopeBody>,
    val: bool,
    ops: &OperatorSyms,
) -> (r: Result<(), CodegenError>)
    requires
        old(s).wf(),
        old(s).lv@.len() < 65535,
    ensures
        r is Ok ==> walked(old(s), final(s)) && advanced(old(s), final(s)) && final(s).sp == old(
            s,
        ).sp + vbit(val),
        r is Ok ==> emitted_op(old(s), final(s), OP_CLASS),
    decreases i32::MAX - old(s).rlev, 3int,
{
    let ghost s0 = *s;
    gen_class_base(s, base, ops)?;
    codegen_opt(s, sup, true, ops)?;
    w_pop(s, 2)?;
    let idx = w_sym(s, *name)?;
    let sp = s.sp;
    let ghost pre = *s;
    assert(stable(&pre) >= stable(&s0));
    w_op2(s, OP_CLASS, sp, idx)?;
    let ghost m = *s;
    assert(m.lastpc == pre.pc && m.pc >= pre.pc + 2);
    let r = gen_class_body(s, &**body, val, ops);
    proof {
        if r is Ok {
            lemma_op_stays(&s0, &m, s, OP_CLASS);
        }
    }
    r
}

/// `module Name; body; end`: `OP_MODULE` opens the module under its base,
/// then the body runs.
#[verifier::rlimit(50)]
#[verifier::spinoff_prover]
fn gen_module(
    s: &mut scope,
    base: &ClassBase,
    name: &u32,
    body: &Box<ScopeBody>,
    val: bool,
    ops: &OperatorSyms,
) -> (r: Result<(), CodegenError>)
    requires
        old(s).wf(),
        old(s).lv@.len() < 65535,
    ensures
        r is Ok ==> walked(old(s), final(s)) && advanced(old(s), final(s)) && final(s).sp == old(
            s,
        ).sp + vbit(val),
        r is Ok ==> emitted_op(old(s), final(s), OP_MODULE),
    decreases i32::MAX - old(s).rlev, 3int,
{
    let ghost s0 = *s;
    gen_class_base(s, base, ops)?;
    w_pop(s, 1)?;
    let idx = w_sym(s, *name)?;
    let sp = s.sp;
    let ghost pre = *s;
    assert(stable(&pre) >= stable(&s0));
    w_op2(s, OP_MODULE, sp, idx)?;
    let ghost m = *s;
    assert(m.lastpc == pre.pc && m.pc >= pre.pc + 2);
    let r = gen_class_body(s, &**body, val, ops);
    proof {
        if r is Ok {
            lemma_op_stays(&s0, &m, s, OP_MODULE);
        }
    }
    r
}

/// `class << obj; body; end`: `OP_SCLASS` opens the singleton class of
/// `obj`, then the body runs.
#[verifier::rlimit(50)]
#[verifier::spinoff_prover]
fn gen_sclass(s: &mut scope, obj: &Box<Node>, body: &Box<ScopeBody>, val: bool, ops: &OperatorSyms) -> (r:
    Result<(), CodegenError>)
    requires
        old(s).wf(),
        old(s).lv@.len() < 65535,
    ensures
        r is Ok ==> walked(old(s), final(s)) && advanced(old(s), final(s)) && final(s).sp == old(
            s,
        ).sp + vbit(val),
        r is Ok ==> emitted_op(old(s), final(s), OP_SCLASS),
    decreases i32::MAX - old(s).rlev, 3int,
{
    let ghost s0 = *s;
    codegen(s, &**obj, true, ops)?;
    w_pop(s, 1)?;
    let sp = s.sp;
    let ghost pre = *s;
    assert(stable(&pre) >= stable(&s0));
    w_op1(s, OP_SCLASS, sp)?;
    let ghost m = *s;
    assert(m.lastpc == pre.pc && m.pc >= pre.pc + 2);
    let r = gen_class_body(s, &**body, val, ops);
    proof {
        if r is Ok {
            lemma_op_stays(&s0, &m, s, OP_SCLASS);
        }
    }
    r
}

/// `def name`: the body becomes a method body, defined on the target class;
/// the value is the method's name.
#[verifier::rlimit(50)]
#[verifier::spinoff_prover]
fn gen_def(s: &mut scope, name: u32, def: &LambdaDef, val: bool, ops: &OperatorSyms) -> (r: Result<
    (),
    CodegenError,
>)
    requires
        old(s).wf(),
        old(s).lv@.len() < 65535,
    ensures
        r is Ok ==> walked(old(s), final(s)) && advanced(old(s), final(s)) && final(s).sp == old(
            s,
        ).sp + vbit(val),
        r is Ok && val ==> spec_last_insn(final(s)).insn == OP_LOADSYM && spec_last_insn(final(s)).a
            == old(s).sp && spec_last_insn(final(s)).c == 0 && names(final(s), spec_last_insn(final(s)).b, name),
    decreases i32::MAX - old(s).rlev, 2int,
{
    let ghost s0 = *s;
    let sym = w_sym(s, name)?;
    let idx = lambda_body(s, def, false, ops)?;
    let sp = s.sp;
    w_op1(s, OP_TCLASS, sp)?;
    w_push(s, 1)?;
    let sp = s.sp;
    w_op2(s, OP_METHOD, sp, idx)?;
    w_push(s, 1)?;
    w_pop(s, 2)?;
    let sp = s.sp;
    assert(sp == s0.sp);
    assert(names(s, sym, name));
    w_op2(s, OP_DEF, sp, sym)?;
    if val {
        w_op2(s, OP_LOADSYM, sp, sym)?;
        assert(names(s, sym, name));
        w_push(s, 1)?;
    }
    Ok(())
}

/// `undef a, b, ...`: one `OP_UNDEF` per name.
fn gen_undef(s: &mut scope, names: &Vec<u32>, val: bool) -> (r: Result<(), CodegenError>)
    requires
        old(s).wf(),
    ensures
        res_is(r, cg(final(s)), then(cg_undef_from(cg(old(s)), names@, 0), |m1: Cg| cg_load_const(m1, OP_LOADNIL, val))),
        r is Ok ==> walked(old(s), final(s)) && advanced(old(s), final(s)) && final(s).sp == old(
            s,
        ).sp + vbit(val),
{
    let ghost s0 = *s;
    let mut k: usize = 0;
    while k < names.len()
        invariant
            s.wf(),
            walked(&s0, s),
            advanced(&s0, s),
            k <= names@.len(),
            s.sp == s0.sp,
            s0 == *old(s),
            cg_undef_from(cg(&s0), names@, 0) == cg_undef_from(cg(s), names@, k as int),
        decreases names@.len() - k,
    {
        let x = w_sym(s, names[k])?;
        w_op1(s, OP_UNDEF, x)?;
        k = k + 1;
    }
    load_const(s, OP_LOADNIL, val)
}

/// The method body enclosing `s`: how many bodies out it lies (0 for `s`
/// itself) and its argument summary; `None` when no enclosing body is a
/// method body.
pub fn find_method(s: &scope) -> (r: Option<(usize, u16)>)
    ensures
        s.mscope ==> r == Some((0usize, s.ainfo)),
        !s.mscope ==> match r {
            Some((lv, a)) => 1 <= lv <= s.up_methods@.len() && s.up_methods@[lv - 1] == Some(a)
                && forall|i: int| 0 <= i < lv - 1 ==> s.up_methods@[i] is None,
            None => forall|i: int| 0 <= i < s.up_methods@.len() ==> s.up_methods@[i] is None,
        },
{
    if s.mscope {
        return Some((0, s.ainfo));
    }
    let mut j: usize = 0;
    while j < s.up_methods.len()
        invariant
            !s.mscope,
            j <= s.up_methods@.len(),
            forall|i: int| 0 <= i < j ==> s.up_methods@[i] is None,
        decreases s.up_methods@.len() - j,
    {
        match s.up_methods[j] {
            Some(a) => {
                return Some((j + 1, a));
            },
            None => {},
        }
        j = j + 1;
    }
    None
}

/// The `OP_ARGARY`/`OP_BLKPUSH` operand locating the enclosing method body:
/// its argument summary (when `with_ainfo`) above four bits of its level.
fn method_operand(s: &scope, with_ainfo: bool) -> (r: u16)
    ensures
        r == method_operand_of(cg(s), with_ainfo),
{
    let found = find_method(s);
    proof {
        let m = cg(s);
        if !s.mscope {
            match found {
                Some((l, a)) => {
                    let j = choose|j: int|
                        0 <= j < m.up_methods.len() && m.up_methods[j] is Some && forall|i: int|
                            0 <= i < j ==> m.up_methods[i] is None;
                    assert(m.up_methods[l - 1] is Some);
                    assert(j == l - 1) by {
                        if j < l - 1 {
                            assert(s.up_methods@[j] is None);
                        } else if j > l - 1 {
                            assert(m.up_methods[l - 1] is None);
                        }
                    }
                },
                None => {},
            }
        }
    }
    let (lv, a): (u32, u16) = match found {
        Some((l, a)) => ((l % 16) as u32, a),
        None => ((((s.up_methods.len() % 16) + 1) % 16) as u32, 0),
    };
    let ai: u32 = if with_ainfo {
        a as u32
    } else {
        0
    };
    ((ai << 4u32) | lv) as u16
}

/// `super(args) &blk`: the arguments of the method are fetched, then the
/// call goes to the superclass with the given arguments.
#[verifier::rlimit(50)]
#[verifier::spinoff_prover]
fn gen_super(s: &mut scope, args: &Vec<Node>, blk: &Option<Box<Node>>, val: bool, ops: &OperatorSyms) -> (r:
    Result<(), CodegenError>)
    requires
        old(s).wf(),
        old(s).lv@.len() < 65535,
    ensures
        r is Ok ==> walked(old(s), final(s)) && advanced(old(s), final(s)) && final(s).sp == old(
            s,
        ).sp + vbit(val),
        r is Ok ==> spec_last_insn(final(s)) == (mrb_insn_data {
            insn: OP_SUPER,
            a: old(s).sp,
            b: if args@.len() < 127 {
                args@.len() as u16
            } else {
                127u16
            },
            c: 0,
        }),
    decreases i32::MAX - old(s).rlev, 2int,
{
    let ghost s0 = *s;
    w_push(s, 1)?;
    let operand = method_operand(s, false);
    let sp = s.sp;
    w_op2S(s, OP_ARGARY, sp, operand)?;
    w_push(s, 1)?;
    w_push(s, 1)?;
    w_pop(s, 2)?;
    let mut n: i32 = gen_values(s, args, true, 0, ops)?;
    let mut sendv = false;
    if n < 0 {
        sendv = true;
        n = 1;
        w_push(s, 1)?;
    }
    assert(s.sp == s0.sp + 1 + n);
    match blk {
        Some(b) => {
            codegen(s, &**b, true, ops)?;
            w_pop(s, 1)?;
        },
        None => {
            let sp = s.sp;
            w_op1(s, OP_LOADNIL, sp)?;
            w_push(s, 1)?;
            w_pop(s, 1)?;
        },
    }
    w_pop(s, (n + 1) as u16)?;
    if sendv {
        n = 127;
    }
    let sp = s.sp;
    w_op2(s, OP_SUPER, sp, n as u16)?;
    if val {
        w_push(s, 1)?;
    }
    Ok(())
}

/// `super` without arguments: the method's own arguments (found through
/// the enclosing method body) are passed on.
fn gen_zsuper(s: &mut scope, blk: &Option<Box<Node>>, val: bool, ops: &OperatorSyms) -> (r: Result<
    (),
    CodegenError,
>)
    requires
        old(s).wf(),
        old(s).lv@.len() < 65535,
    ensures
        r is Ok ==> walked(old(s), final(s)) && advanced(old(s), final(s)) && final(s).sp == old(
            s,
        ).sp + vbit(val),
        r is Ok ==> spec_last_insn(final(s)) == (mrb_insn_data {
            insn: OP_SUPER,
            a: old(s).sp,
            b: 127,
            c: 0,
        }),
    decreases i32::MAX - old(s).rlev, 2int,
{
    w_push(s, 1)?;
    let operand = method_operand(s, true);
    let sp = s.sp;
    w_op2S(s, OP_ARGARY, sp, operand)?;
    w_push(s, 2)?;
    w_pop(s, 1)?;
    match blk {
        Some(b) => {
            codegen(s, &**b, true, ops)?;
            w_pop(s, 1)?;
        },
        None => {},
    }
    w_pop(s, 2)?;
    let sp = s.sp;
    w_op2(s, OP_SUPER, sp, 127)?;
    if val {
        w_push(s, 1)?;
    }
    Ok(())
}

/// `yield args`: the block of the enclosing method body (see
/// [`find_method`]; with none, one level beyond the outermost body) is
/// pushed with `OP_BLKPUSH` and sent `call` with the arguments.
#[verifier::rlimit(50)]
#[verifier::spinoff_prover]
fn gen_yield(s: &mut scope, args: &Vec<Node>, val: bool, ops: &OperatorSyms) -> (r: Result<
    (),
    CodegenError,
>)
    requires
        old(s).wf(),
        old(s).lv@.len() < 65535,
    ensures
        r is Ok ==> walked(old(s), final(s)) && advanced(old(s), final(s)) && final(s).sp == old(
            s,
        ).sp + vbit(val),
        r is Ok ==> spec_last_insn(final(s)).insn == OP_SEND && spec_last_insn(final(s)).a == old(s).sp
            && names(final(s), spec_last_insn(final(s)).b, ops.call) && spec_last_insn(final(s)).c == (
        if args@.len() < 127 {
            args@.len() as u8
        } else {
            127u8
        }),
    decreases i32::MAX - old(s).rlev, 2int,
{
    let operand = method_operand(s, true);
    w_push(s, 1)?;
    let mut n: i32 = gen_values(s, args, true, 0, ops)?;
    let mut sendv = false;
    if n < 0 {
        sendv = true;
        n = 1;
        w_push(s, 1)?;
    }
    w_push(s, 1)?;
    w_pop(s, 1)?;
    w_pop(s, (n + 1) as u16)?;
    let sp = s.sp;
    w_op2S(s, OP_BLKPUSH, sp, operand)?;
    if sendv {
        n = 127;
    }
    let idx = w_sym(s, ops.call)?;
    w_op3(s, OP_SEND, sp, idx, n as u8)?;
    if val {
        w_push(s, 1)?;
    }
    Ok(())
}

/// `-x`: a negative number literal is loaded directly (a float with its
/// sign flipped); anything else is sent `-@`.
fn gen_negate(s: &mut scope, t: &Node, val: bool, ops: &OperatorSyms) -> (r: Result<(), CodegenError>)
    requires
        old(s).wf(),
        old(s).lv@.len() < 65535,
    ensures
        r is Ok ==> walked(old(s), final(s)) && advanced(old(s), final(s)) && final(s).sp == old(
            s,
        ).sp + vbit(val),
        r is Ok && val ==> negates(final(s), *t, old(s).sp, *ops),
    decreases i32::MAX - old(s).rlev, 1int,
{
    match t {
        Node::Float(bits) => {
            if val {
                load_literal(s, OP_LOADL, &PoolValue::Float(*bits ^ 0x8000000000000000u64))?;
                w_push(s, 1)?;
            }
            Ok(())
        },
        Node::Int(digits, base, fbits) => {
            if val {
                if *base < 1 || *base > 36 {
                    return Err(CodegenError::MalformedReadintInput);
                }
                let (i, overflow) = readint_mrb_int(digits.as_slice(), *base, true)?;
                proof {
                    crate::readint::lemma_readint_fits(digits@, *base as int, true);
                }
                assert(!overflow ==> spec_readint(digits@, *base as int, true) == Ok::<
                    Option<int>,
                    (),
                >(Some(i as int)));
                let sp = s.sp;
                if overflow {
                    load_literal(s, OP_LOADL, &PoolValue::Float(*fbits ^ 0x8000000000000000u64))?;
                } else if i == -1 {
                    w_op1(s, OP_LOADI__1, sp)?;
                    assert(loaded_integer(spec_last_insn(s)) == Some(-1int));
                } else if i >= -0xffff {
                    let b = (-i) as u16;
                    assert(b == -i);
                    w_op2(s, OP_LOADINEG, sp, b)?;
                    assert(loaded_integer(spec_last_insn(s)) == Some(i as int));
                } else {
                    load_literal(s, OP_LOADL, &PoolValue::Int(i))?;
                }
                w_push(s, 1)?;
            }
            Ok(())
        },
        _ => {
            if val {
                let sym = w_sym(s, ops.uminus)?;
                codegen(s, t, true, ops)?;
                w_pop(s, 1)?;
                let sp = s.sp;
                w_op3(s, OP_SEND, sp, sym, 0)?;
                w_push(s, 1)?;
                Ok(())
            } else {
                codegen(s, t, false, ops)
            }
        },
    }
}

/// Loads where a class or module is defined: `nil` for the current scope,
/// the top-level class, or the value of an expression.
fn gen_class_base(s: &mut scope, base: &ClassBase, ops: &OperatorSyms) -> (r: Result<(), CodegenError>)
    requires
        old(s).wf(),
        old(s).lv@.len() < 65535,
    ensures
        r is Ok ==> walked(old(s), final(s)) && advanced(old(s), final(s)) && final(s).sp == old(
            s,
        ).sp + 1,
    decreases i32::MAX - old(s).rlev, 1int,
{
    match base {
        ClassBase::Here => load_const(s, OP_LOADNIL, true),
        ClassBase::Toplevel => load_const(s, OP_OCLASS, true),
        ClassBase::Under(t) => codegen(s, &**t, true, ops),
    }
}

/// Runs the body of the class just opened in the top register: nothing
/// (`nil`) for an empty body, else the body as a nested body (`OP_EXEC`).
fn gen_class_body(s: &mut scope, body: &ScopeBody, val: bool, ops: &OperatorSyms) -> (r: Result<
    (),
    CodegenError,
>)
    requires
        old(s).wf(),
        old(s).lv@.len() < 65535,
    ensures
        r is Ok ==> walked(old(s), final(s)) && advanced(old(s), final(s)) && final(s).sp == old(
            s,
        ).sp + vbit(val),
    decreases i32::MAX - old(s).rlev, 2int,
{
    let sp = s.sp;
    let empty = match &body.body {
        Node::Begin(items) => items.len() == 0,
        _ => false,
    };
    if empty {
        w_op1(s, OP_LOADNIL, sp)?;
    } else {
        let idx = scope_body(s, body, ops)?;
        w_op2(s, OP_EXEC, sp, idx)?;
    }
    if val {
        w_push(s, 1)?;
    }
    Ok(())
}

/// Compiles a class, module or singleton class body into a nested body of
/// `s` (returning its value) and returns its index among the nested bodies.
pub fn scope_body(s: &mut scope, body: &ScopeBody, ops: &OperatorSyms) -> (r: Result<u16, CodegenError>)
    requires
        old(s).wf(),
    ensures
        r matches Ok(idx) ==> {
            &&& idx == old(s).reps@.len()
            &&& final(s).reps@.len() == old(s).reps@.len() + 1
            &&& walked(old(s), final(s))
            &&& advanced(old(s), final(s))
            &&& final(s).sp == old(s).sp
        },
    decreases i32::MAX - old(s).rlev, 1int,
{
    if body.locals.len() >= 0x3fe {
        return Err(CodegenError::TooManyLocalVariables);
    }
    if s.reps.len() >= 65535 {
        return Err(CodegenError::TooManyNestedBodies);
    }
    if s.rlev >= 1024 {
        return Err(CodegenError::TooComplexExpression);
    }
    let mut c = scope_new(s, copy_syms(&body.locals));
    codegen(&mut c, &body.body, true, ops)?;
    let sp = c.sp - 1;
    w_return(&mut c, OP_RETURN, sp)?;
    let irep = scope_finish(c)?;
    let idx = s.reps.len() as u16;
    scope_add_irep(s, irep);
    Ok(idx)
}

/// `"unexpected next"`
fn unexpected_next() -> (v: Vec<u8>)
    ensures
        v@ == crate::compile::unexpected_next(),
{
    vec![117u8, 110u8, 101u8, 120u8, 112u8, 101u8, 99u8, 116u8, 101u8, 100u8, 32u8, 110u8, 101u8, 120u8, 116u8]
}

/// `"unexpected redo"`
fn unexpected_redo() -> (v: Vec<u8>)
    ensures
        v@ == crate::compile::unexpected_redo(),
{
    vec![117u8, 110u8, 101u8, 120u8, 112u8, 101u8, 99u8, 116u8, 101u8, 100u8, 32u8, 114u8, 101u8, 100u8, 111u8]
}

/// Leaves the `ensure` clauses entered inside the innermost loop.
fn pop_ensures(s: &mut scope) -> (r: Result<(), CodegenError>)
    requires
        old(s).wf(),
        old(s).loops@.len() > 0,
    ensures
        res_is(r, cg(final(s)), cg_pop_ensures(cg(old(s)))),
        r is Ok ==> walked(old(s), final(s)) && advanced(old(s), final(s)) && final(s).sp == old(
            s,
        ).sp,
{
    let lp = s.loops[s.loops.len() - 1];
    if s.ensure_level > lp.ensure_level {
        let d = (s.ensure_level as i64 - lp.ensure_level as i64) as u16;
        w_op1(s, OP_EPOP, d)?;
    }
    Ok(())
}

/// `next v`: in a `while`/`until` loop, jumps back to the condition (after
/// computing `v` for its effects); in a block, returns `v` (or `nil`) from
/// it; outside any loop, raises "unexpected next".
fn gen_next(s: &mut scope, v: &Option<Box<Node>>, val: bool, ops: &OperatorSyms) -> (r: Result<
    (),
    CodegenError,
>)
    requires
        old(s).wf(),
        old(s).lv@.len() < 65535,
    ensures
        r is Ok ==> walked(old(s), final(s)) && advanced(old(s), final(s)) && final(s).sp == old(
            s,
        ).sp + vbit(val),
        r is Ok ==> next_ends(old(s), final(s)),
    decreases i32::MAX - old(s).rlev, 2int,
{
    if s.loops.len() == 0 {
        w_raise(s, &unexpected_next())?;
    } else if s.loops[s.loops.len() - 1].type_0 == looptype::LOOP_NORMAL {
        pop_ensures(s)?;
        match v {
            Some(t) => codegen(s, &**t, false, ops)?,
            None => {},
        }
        let pc0 = s.loops[s.loops.len() - 1].pc0 as u16;
        w_jmp_to(s, OP_JMP, pc0)?;
    } else {
        codegen_opt(s, v, true, ops)?;
        w_pop(s, 1)?;
        let sp = s.sp;
        w_return(s, OP_RETURN, sp)?;
    }
    if val {
        w_push(s, 1)?;
    }
    Ok(())
}

/// `redo`: jumps back to the start of the loop body; raises "unexpected
/// redo" outside a loop or in a `begin`/`rescue` region.
fn gen_redo(s: &mut scope, val: bool) -> (r: Result<(), CodegenError>)
    requires
        old(s).wf(),
    ensures
        res_is(r, cg(final(s)), cg_redo(cg(old(s)), val)),
        r is Ok ==> walked(old(s), final(s)) && advanced(old(s), final(s)) && final(s).sp == old(
            s,
        ).sp + vbit(val),
{
    if s.loops.len() == 0 || s.loops[s.loops.len() - 1].type_0 == looptype::LOOP_BEGIN
        || s.loops[s.loops.len() - 1].type_0 == looptype::LOOP_RESCUE {
        w_raise(s, &unexpected_redo())?;
    } else {
        pop_ensures(s)?;
        let pc2 = s.loops[s.loops.len() - 1].pc2 as u16;
        w_jmp_to(s, OP_JMP, pc2)?;
    }
    if val {
        w_push(s, 1)?;
    }
    Ok(())
}

/// A string with interpolated parts: the parts are concatenated into the
/// first one; for its effect only the parts that are not plain text are
/// computed.
fn gen_dstr(s: &mut scope, parts: &Vec<Node>, val: bool, ops: &OperatorSyms) -> (r: Result<
    (),
    CodegenError,
>)
    requires
        old(s).wf(),
        old(s).lv@.len() < 65535,
    ensures
        r is Ok ==> walked(old(s), final(s)) && advanced(old(s), final(s)) && final(s).sp == old(
            s,
        ).sp + vbit(val),
        r is Ok && val && parts@.len() == 0 ==> ends_with(final(s), OP_LOADNIL, old(s).sp),
        r is Ok && val && parts@.len() >= 2 ==> ends_with(final(s), OP_STRCAT, old(s).sp),
    decreases i32::MAX - old(s).rlev, 1int,
{
    let ghost s0 = *s;
    if val {
        if parts.len() == 0 {
            let sp = s.sp;
            w_op1(s, OP_LOADNIL, sp)?;
            w_push(s, 1)?;
            return Ok(());
        }
        codegen(s, &parts[0], true, ops)?;
        let mut k: usize = 1;
        while k < parts.len()
            invariant
                s.wf(),
                s.lv@.len() < 65535,
                s.rlev == old(s).rlev,
                walked(&s0, s),
                advanced(&s0, s),
                1 <= k <= parts@.len(),
                s.sp == s0.sp + 1,
                s0 == *old(s),
                k >= 2 ==> ends_with(s, OP_STRCAT, s0.sp),
            decreases parts@.len() - k,
        {
            codegen(s, &parts[k], true, ops)?;
            w_pop(s, 2)?;
            let sp = s.sp;
            w_op1(s, OP_STRCAT, sp)?;
            w_push(s, 1)?;
            k = k + 1;
        }
    } else {
        let mut k: usize = 0;
        while k < parts.len()
            invariant
                s.wf(),
                s.lv@.len() < 65535,
                s.rlev == old(s).rlev,
                walked(&s0, s),
                advanced(&s0, s),
                k <= parts@.len(),
                s.sp == s0.sp,
                s0 == *old(s),
            decreases parts@.len() - k,
        {
            match &parts[k] {
                Node::Str(_) => {},
                p => codegen(s, p, false, ops)?,
            }
            k = k + 1;
        }
    }
    Ok(())
}

/// Loads a constant with the one-operand instruction `i` when the value is
/// needed; emits nothing otherwise.
fn load_const(s: &mut scope, i: u8, val: bool) -> (r: Result<(), CodegenError>)
    requires
        old(s).wf(),
    ensures
        res_is(r, cg(final(s)), cg_load_const(cg(old(s)), i, val)),
        r is Ok ==> walked(old(s), final(s)) && advanced(old(s), final(s)) && final(s).sp == old(
            s,
        ).sp + vbit(val),
        r is Ok && val && spec_plain_format(i) == InsnFormat::B ==> spec_last_insn(final(s)) == (
        mrb_insn_data { insn: i, a: old(s).sp, b: 0, c: 0 }),
{
    if val {
        let sp = s.sp;
        w_op1(s, i, sp)?;
        w_push(s, 1)?;
    }
    Ok(())
}

/// A range from `a` to `b` built by the instruction `i`.
fn gen_range(s: &mut scope, a: &Node, b: &Node, i: u8, val: bool, ops: &OperatorSyms) -> (r: Result<
    (),
    CodegenError,
>)
    requires
        old(s).wf(),
        old(s).lv@.len() < 65535,
        i == OP_RANGE_INC || i == OP_RANGE_EXC,
    ensures
        r is Ok ==> walked(old(s), final(s)) && advanced(old(s), final(s)) && final(s).sp == old(
            s,
        ).sp + vbit(val),
        r is Ok && val ==> ends_with(final(s), i, old(s).sp),
    decreases i32::MAX - old(s).rlev, 1int,
{
    codegen(s, a, val, ops)?;
    codegen(s, b, val, ops)?;
    if val {
        w_pop(s, 2)?;
        let sp = s.sp;
        w_op1(s, i, sp)?;
        w_push(s, 1)?;
    }
    Ok(())
}

/// A lambda or block literal: its body becomes a nested body, and `i`
/// makes the closure from it when the value is needed.
fn gen_closure(s: &mut scope, def: &LambdaDef, i: u8, val: bool, ops: &OperatorSyms) -> (r: Result<
    (),
    CodegenError,
>)
    requires
        old(s).wf(),
        old(s).lv@.len() < 65535,
        i == OP_LAMBDA || i == OP_BLOCK,
    ensures
        r is Ok ==> walked(old(s), final(s)) && advanced(old(s), final(s)) && final(s).sp == old(
            s,
        ).sp + vbit(val),
        r is Ok && val ==> spec_last_insn(final(s)) == (mrb_insn_data {
            insn: i,
            a: old(s).sp,
            b: old(s).reps@.len() as u16,
            c: 0,
        }),
    decreases i32::MAX - old(s).rlev, 2int,
{
    if val {
        let idx = lambda_body(s, def, true, ops)?;
        let sp = s.sp;
        w_op2(s, i, sp, idx)?;
        w_push(s, 1)?;
    }
    Ok(())
}

fn copy_bytes(b: &Vec<u8>) -> (r: Vec<u8>)
    ensures
        r@ == b@,
{
    let mut v: Vec<u8> = Vec::new();
    let mut k: usize = 0;
    while k < b.len()
        invariant
            k <= b@.len(),
            v@ == b@.subrange(0, k as int),
        decreases b@.len() - k,
    {
        v.push(b[k]);
        k = k + 1;
        proof {
            assert(v@ =~= b@.subrange(0, k as int));
        }
    }
    proof {
        assert(v@ =~= b@);
    }
    v
}

/// The argument count of a body depends only on its first instruction.
proof fn lemma_argc_prefix(code: Seq<u8>, e: Seq<u8>)
    requires
        e.len() == 4,
        code.len() >= 4,
        forall|k: int| 0 <= k < 4 ==> code[k] == e[k],
    ensures
        spec_irep_argc(code) == spec_irep_argc(e),
{
    assert(code[0] == e[0] && code[1] == e[1] && code[2] == e[2] && code[3] == e[3]);
}

/// Bytes kept below `x` from `a` to `b`, and below `y >= x` from `b` to
/// `c`, are kept below `x` from `a` to `c`.
/// A jump whose bytes lie below a position that a step keeps is still there
/// after the step.
proof fn lemma_jump_stays(a: &scope, b: &scope, p: int, j: u8, t: int)
    requires
        jump_before(a.iseq@, p, j),
        p <= a.iseq@.len(),
        crate::steps::kept_below(a, b, t),
        p <= t,
    ensures
        jump_before(b.iseq@, p, j),
{
    if 2 <= p {
        assert(b.iseq@[p - 2] == a.iseq@[p - 2]);
    }
    if 4 <= p {
        assert(b.iseq@[p - 4] == a.iseq@[p - 4]);
        assert(b.iseq@[p - 3] == a.iseq@[p - 3]);
    }
}

proof fn lemma_kept_trans(a: &scope, b: &scope, c: &scope, x: int, y: int)
    requires
        crate::steps::kept_below(a, b, x),
        crate::steps::kept_below(b, c, y),
        y >= x,
        b.iseq@.len() >= a.iseq@.len(),
    ensures
        crate::steps::kept_below(a, c, x),
{
    assert forall|k: int| 0 <= k < x && k < a.iseq@.len() implies #[trigger] c.iseq@[k] == a.iseq@[k] by {
        assert(b.iseq@[k] == a.iseq@[k]);
        assert(c.iseq@[k] == b.iseq@[k]);
    }
}

/// The entry of a body with formal arguments `p` (specification `aspec`):
/// `OP_ENTER`, then a jump table with one entry per optional argument
/// (the VM enters it after the arguments that were given), then the code
/// of the default values, each stored into its argument.
#[verifier::rlimit(50)]
#[verifier::spinoff_prover]
fn gen_params(c: &mut scope, p: &Params, aspec: u32, ops: &OperatorSyms) -> (r: Result<
    (),
    CodegenError,
>)
    requires
        old(c).wf(),
        old(c).lv@.len() < 65535,
        p.optional@.len() <= 0x1f,
    ensures
        r is Ok ==> walked(old(c), final(c)) && advanced(old(c), final(c)) && final(c).sp == old(
            c,
        ).sp,
        r is Ok ==> final(c).iseq@.subrange(old(c).pc as int, old(c).pc + 4)
            == crate::codegen::encode_w(OP_ENTER, aspec) && stable(final(c)) >= old(c).pc + 4,
    decreases i32::MAX - old(c).rlev, 1int,
{
    let ghost c0 = *c;
    w_opW(c, OP_ENTER, aspec)?;
    let pos = w_label(c);
    let ghost c1 = *c;
    assert(c1.iseq@.subrange(c0.pc as int, c0.pc + 4) == crate::codegen::encode_w(OP_ENTER, aspec));
    assert(stable(&c1) == pos && pos == c0.pc + 4);
    let oa = p.optional.len();
    let mut i: usize = 0;
    while i < oa
        invariant
            c0 == *old(c),
            c.wf(),
            c.lv@.len() < 65535,
            c.rlev == old(c).rlev,
            walked(&c1, c),
            advanced(&c1, c),
            c.sp == c1.sp,
            c.pc == pos + 3 * i,
            i <= oa,
            oa <= 0x1f,
        decreases oa - i,
    {
        w_label(c);
        w_jmp(c, OP_JMP)?;
        i = i + 1;
    }
    if oa > 0 {
        let ghost ca = *c;
        w_jmp(c, OP_JMP)?;
        proof { lemma_kept_trans(&c1, &ca, c, pos as int, stable(&ca)); }
    }
    let mut i: usize = 0;
    while i < oa
        invariant
            c0 == *old(c),
            c.wf(),
            c.lv@.len() < 65535,
            c.rlev == old(c).rlev,
            walked(&c1, c),
            stable(c) >= stable(&c1),
            stable(&c1) == pos,
            c1.wf(),
            crate::steps::kept_below(&c1, c, pos as int),
            c.sp == c1.sp,
            i <= oa,
            oa == p.optional@.len(),
            oa > 0 ==> pos + 3 * oa + 3 <= c.icapa,
        decreases oa - i,
    {
        let ghost ca = *c;
        w_dispatch(c, (pos as usize + i * 3 + 1) as u16)?;
        let ghost cb = *c;
        proof { lemma_kept_trans(&c1, &ca, &cb, pos as int, (pos + i * 3 + 1) as int); }
        codegen(c, &p.optional[i].default, true, ops)?;
        let ghost cc = *c;
        proof { lemma_kept_trans(&c1, &cb, &cc, pos as int, stable(&cb)); }
        w_pop(c, 1)?;
        let ghost cd = *c;
        proof { lemma_kept_trans(&c1, &cc, &cd, pos as int, stable(&cc)); }
        let idx = lv_idx(c, p.optional[i].name);
        proof {
            lemma_local_pos(c.lv@, p.optional@[i as int].name, idx as int);
        }
        let sp = c.sp;
        w_move(c, idx as u16, sp, false)?;
        proof { lemma_kept_trans(&c1, &cd, c, pos as int, stable(&cd)); }
        i = i + 1;
    }
    if oa > 0 {
        let ghost ca = *c;
        w_dispatch(c, (pos as usize + oa * 3 + 1) as u16)?;
        proof { lemma_kept_trans(&c1, &ca, c, pos as int, (pos + oa * 3 + 1) as int); }
    }
    proof {
        assert(c.iseq@.subrange(c0.pc as int, c0.pc + 4) =~= c1.iseq@.subrange(c0.pc as int, c0.pc + 4));
    }
    Ok(())
}

/// Compiles the body `def` (a block when `blk` is set) into a nested body
/// of `s` and returns its index among the nested bodies.  Fails with
/// "too many formal arguments" when a count of the formal arguments does
/// not fit in `OP_ENTER`.
#[verifier::rlimit(50)]
#[verifier::spinoff_prover]
pub fn lambda_body(s: &mut scope, def: &LambdaDef, blk: bool, ops: &OperatorSyms) -> (r: Result<
    u16,
    CodegenError,
>)
    requires
        old(s).wf(),
    ensures
        !def_fits(*def) ==> r == Err::<u16, CodegenError>(CodegenError::TooManyFormalArguments),
        r matches Ok(idx) ==> {
            &&& idx == old(s).reps@.len()
            &&& final(s).reps@.len() == old(s).reps@.len() + 1
            &&& walked(old(s), final(s))
            &&& advanced(old(s), final(s))
            &&& final(s).sp == old(s).sp
            &&& spec_irep_argc(final(s).reps@[idx as int].iseq@) == def_argc(*def)
            &&& def_aspec(*def) is Ok
            &&& final(s).reps@[idx as int].iseq@.len() >= 4
            &&& final(s).reps@[idx as int].iseq@.subrange(0, 4) == crate::codegen::encode_w(
                OP_ENTER,
                def_aspec(*def)->Ok_0,
            )
        },
    decreases i32::MAX - old(s).rlev, 1int,
{
    let mut aspec: u32 = 0;
    match &def.params {
        None => {},
        Some(p) => {
            if p.optional.len() > 0x1f {
                return Err(CodegenError::TooManyFormalArguments);
            }
            let a = ArgSpec {
                ma: p.mandatory,
                oa: p.optional.len() as u32,
                ra: p.rest,
                pa: p.post,
                ka: 0,
                kd: false,
                ba: p.block,
            };
            assert(a == params_spec(*p));
            aspec = enter_aspec(&a)?;
        },
    }
    assert(def_fits(*def));
    if def.locals.len() >= 0x3fe {
        return Err(CodegenError::TooManyLocalVariables);
    }
    if s.reps.len() >= 65535 {
        return Err(CodegenError::TooManyNestedBodies);
    }
    if s.rlev >= 1024 {
        return Err(CodegenError::TooComplexExpression);
    }
    let mut c = scope_new(s, copy_syms(&def.locals));
    c.mscope = !blk;
    match &def.params {
        None => {},
        Some(p) => {
            let ra: u32 = if p.rest { 1 } else { 0 };
            let oa = p.optional.len() as u32;
            c.ainfo = ((((p.mandatory + oa) & 0x3f) << 7u32) | (ra << 6u32) | ((p.post & 0x1f)
                << 1u32)) as u16;
        },
    }
    if blk {
        let li = loop_push(&mut c, looptype::LOOP_BLOCK);
        let l = w_label(&mut c);
        let mut lp = c.loops[li];
        lp.pc0 = l as i32;
        c.loops.set(li, lp);
    }
    let ghost c1 = c;
    assert(c1.pc == 0);
    match &def.params {
        None => {
            w_opW(&mut c, OP_ENTER, 0)?;
            proof {
                assert(c.iseq@.subrange(0, 4)[0] == OP_ENTER);
                assert(crate::peephole::spec_last_insn(&c).insn == OP_ENTER);
            }
        },
        Some(p) => {
            gen_params(&mut c, p, aspec, ops)?;
        },
    }
    let ghost ca = c;
    assert(ca.iseq@.subrange(0, 4) == crate::codegen::encode_w(OP_ENTER, aspec) && stable(&ca) >= 4);
    codegen(&mut c, &def.body, true, ops)?;
    let ghost cb = c;
    w_pop(&mut c, 1)?;
    let ghost cc = c;
    proof { lemma_kept_trans(&ca, &cb, &cc, stable(&ca), stable(&cb)); }
    if c.pc > 0 {
        let sp = c.sp;
        w_return(&mut c, OP_RETURN, sp)?;
        proof { lemma_kept_trans(&ca, &cc, &c, stable(&ca), stable(&cc)); }
    }
    let ghost cd = c;
    if blk {
        assert(c.loops@.last().pc3 == 0);
        loop_pop(&mut c, 0)?;
        assert(c.iseq@ == cd.iseq@);
    }
    proof {
        let e = crate::codegen::encode_w(OP_ENTER, aspec);
        assert forall|k: int| 0 <= k < 4 implies c.iseq@[k] == e[k] by {
            assert(ca.iseq@.subrange(0, 4)[k] == e[k]);
        }
    }
    let ghost cf = c;
    let irep = scope_finish(c)?;
    let idx = s.reps.len() as u16;
    scope_add_irep(s, irep);
    proof {
        let e = crate::codegen::encode_w(OP_ENTER, aspec);
        assert(def_aspec(*def) == Ok::<u32, CodegenError>(aspec));
        assert(irep.iseq@.subrange(0, 4) =~= e);
        lemma_argc_prefix(irep.iseq@, e);
        if def.params is Some {
            crate::args::lemma_enter_argc(params_spec(def.params->0));
        } else {
            let z = ArgSpec { ma: 0, oa: 0, ra: false, pa: 0, ka: 0, kd: false, ba: false };
            crate::args::lemma_enter_argc(z);
            assert(((0u32 & 0x1fu32) << 18u32) | ((0u32 & 0x1fu32) << 13u32) | (0u32 << 12u32) | ((
            0u32 & 0x1fu32) << 7u32) | ((0u32 & 0x1fu32) << 2u32) | (0u32 << 1u32) | 0u32 == 0u32)
                by (bit_vector);
            assert(spec_aspec(z) == 0);
        }
    }
    Ok(idx)
}

} // verus!
