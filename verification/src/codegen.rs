//! The per-method code generation scope and the bytecode emitter.
//!
//! A scope owns the instruction buffer of the method being compiled.  The
//! buffer starts with room for 1024 bytes and doubles on demand up to 64 KiB;
//! once it has reached 64 KiB no further byte can be written ("too big code
//! block").  When the compiled source has a file name, a parallel table
//! records the source line of every instruction byte.

use vstd::prelude::*;
use crate::opcode::{OP_EXT1, OP_EXT2, OP_EXT3, read_s};

verus! {

/// Why code generation stopped.
#[derive(Clone, Copy, Debug, PartialEq, Eq, Structural)]
pub enum CodegenError {
    TooBigCodeBlock,
    TooComplexExpression,
    StackPointerUnderflow,
    MalformedReadintInput,
    TooManyLocalVariables,
    TooManyFormalArguments,
    TooManySymbols,
    TooManyLiterals,
    TooManyNestedBodies,
}

/// The kind of construct a loop record belongs to.
#[derive(Clone, Copy, Debug, PartialEq, Eq, Structural)]
#[allow(non_camel_case_types)]
pub enum looptype {
    LOOP_NORMAL,
    LOOP_BLOCK,
    LOOP_FOR,
    LOOP_BEGIN,
    LOOP_RESCUE,
}

/// Book-keeping for one enclosing loop (or `begin`/`rescue` region).
#[derive(Clone, Copy, Debug, PartialEq, Eq, Structural)]
#[allow(non_camel_case_types)]
pub struct loopinfo {
    pub type_0: looptype,
    pub pc0: i32,
    pub pc1: i32,
    pub pc2: i32,
    pub pc3: i32,
    pub acc: i32,
    pub ensure_level: i32,
}

/// A literal kept in the constant pool of a method.
#[derive(Clone, Debug, PartialEq, Eq)]
pub enum PoolValue {
    Int(i64),
    /// A float, kept as its IEEE-754 double bit pattern.
    Float(u64),
    Str(Vec<u8>),
}

/// A local variable of a method: its symbol and the register holding it.
#[allow(non_camel_case_types)]
#[derive(Clone, Copy, Debug, PartialEq, Eq, Structural)]
pub struct mrb_locals {
    pub name: u32,
    pub r: u16,
}

/// The state of code generation for one method body.
#[allow(non_camel_case_types)]
pub struct scope {
    /// Instruction buffer; its length is the current capacity.
    pub iseq: Vec<u8>,
    /// Whether a line table is kept (the source has a file name).
    pub has_lines: bool,
    /// Source line of every byte of `iseq`; empty when no line table is kept.
    pub lines: Vec<u16>,
    pub icapa: u32,
    pub pc: u16,
    pub lastpc: u16,
    pub lastlabel: u16,
    pub lineno: u16,
    pub sp: u16,
    pub nregs: u16,
    pub nlocals: u16,
    /// The parser asked for unoptimized code.
    pub no_optimize: bool,
    /// The code is compiled for `eval`.
    pub on_eval: bool,
    pub filename_sym: u32,
    pub filename_index: u16,
    pub rlev: i32,
    pub ensure_level: i32,
    /// Local variable symbols, in register order starting at register 1.
    pub lv: Vec<u32>,
    /// Local variable symbols of the enclosing bodies, innermost first.
    pub up: Vec<Vec<u32>>,
    /// The body is a method body (not a block or the top level).
    pub mscope: bool,
    /// The argument summary of a method body (see `lambda_body`).
    pub ainfo: u16,
    /// For each enclosing body, innermost first: its argument summary when
    /// it is a method body.
    pub up_methods: Vec<Option<u16>>,
    /// Local variable table recorded in the method's irep.
    pub irep_lv: Vec<mrb_locals>,
    /// Literal pool of the method.
    pub pool: Vec<PoolValue>,
    /// Symbol table of the method.
    pub syms: Vec<u32>,
    /// Finished nested method bodies, in creation order.
    pub reps: Vec<crate::irep::mrb_irep>,
    /// Enclosing loops, innermost last.
    pub loops: Vec<loopinfo>,
}

/// The capacities the instruction buffer goes through: 1024 doubled up to 65536.
pub open spec fn is_code_capacity(c: u32) -> bool {
    c == 1024 || c == 2048 || c == 4096 || c == 8192 || c == 16384 || c == 32768 || c == 65536
}

/// The capacity after making room for a byte at `pc`.
pub open spec fn grown_capacity(pc: int, icapa: u32) -> u32 {
    if pc >= icapa {
        if icapa * 2 > 65536 {
            65536
        } else {
            (icapa * 2) as u32
        }
    } else {
        icapa
    }
}

/// `s` extended with `fill` up to length `n`.
pub open spec fn pad<T>(s: Seq<T>, n: nat, fill: T) -> Seq<T> {
    if n > s.len() {
        s + Seq::new((n - s.len()) as nat, |k: int| fill)
    } else {
        s
    }
}

/// The abstract instruction buffer: bytes, optional line table, capacity.
pub struct CodeBuf {
    pub code: Seq<u8>,
    pub lines: Option<Seq<u16>>,
    pub icapa: u32,
}

/// The line recorded for a byte written at `pc`: the current line when it is
/// known (or at the very start), else the line of the previous byte.
pub open spec fn line_for(lines: Seq<u16>, pc: int, lineno: u16) -> u16 {
    if lineno > 0 || pc == 0 {
        lineno
    } else {
        lines[pc - 1]
    }
}

/// Writing byte `i` at `pc`; `None` when the buffer may not grow further.
pub open spec fn emit_byte(buf: CodeBuf, pc: int, i: u8, lineno: u16) -> Option<CodeBuf> {
    if pc >= 65536 || buf.icapa >= 65536 {
        None
    } else {
        let capa = grown_capacity(pc, buf.icapa);
        let code = pad(buf.code, capa as nat, 0u8).update(pc, i);
        let lines = match buf.lines {
            None => None,
            Some(l) => {
                let l2 = pad(l, capa as nat, 0u16);
                Some(l2.update(pc, line_for(l2, pc, lineno)))
            },
        };
        Some(CodeBuf { code, lines, icapa: capa })
    }
}

/// Writing `bytes` one after another from `pc` on.
pub open spec fn emit_bytes(buf: CodeBuf, pc: int, bytes: Seq<u8>, lineno: u16) -> Option<CodeBuf>
    decreases bytes.len(),
{
    if bytes.len() == 0 {
        Some(buf)
    } else {
        match emit_byte(buf, pc, bytes[0], lineno) {
            None => None,
            Some(b) => emit_bytes(b, pc + 1, bytes.drop_first(), lineno),
        }
    }
}

/// The big-endian encoding of a 16-bit operand.
pub open spec fn enc_s(x: u16) -> Seq<u8> {
    seq![(x / 256) as u8, (x % 256) as u8]
}

/// Encoding of an instruction without operands.
pub open spec fn encode_0(i: u8) -> Seq<u8> {
    seq![i]
}

/// Encoding of an instruction with one 8-bit operand, widened when needed.
pub open spec fn encode_1(i: u8, a: u16) -> Seq<u8> {
    if a > 0xff {
        seq![OP_EXT1, i] + enc_s(a)
    } else {
        seq![i, a as u8]
    }
}

/// Encoding of an instruction with two 8-bit operands, widened when needed.
pub open spec fn encode_2(i: u8, a: u16, b: u16) -> Seq<u8> {
    if a > 0xff && b > 0xff {
        seq![OP_EXT3, i] + enc_s(a) + enc_s(b)
    } else if b > 0xff {
        seq![OP_EXT2, i, a as u8] + enc_s(b)
    } else if a > 0xff {
        seq![OP_EXT1, i] + enc_s(a) + seq![b as u8]
    } else {
        seq![i, a as u8, b as u8]
    }
}

/// Encoding of an instruction with three operands (the third always 8-bit).
pub open spec fn encode_3(i: u8, a: u16, b: u16, c: u8) -> Seq<u8> {
    encode_2(i, a, b).push(c)
}

/// Encoding of an instruction with an 8-bit and a 16-bit operand.
pub open spec fn encode_2s(i: u8, a: u16, b: u16) -> Seq<u8> {
    encode_1(i, a) + enc_s(b)
}

/// Encoding of an instruction with one 24-bit operand.
pub open spec fn encode_w(i: u8, a: u32) -> Seq<u8> {
    seq![i, ((a / 65536) % 256) as u8, ((a / 256) % 256) as u8, (a % 256) as u8]
}

/// The contract of every emitting operation: on error the code block was
/// too big; otherwise `bytes` now stand at the old `pc`, `pc` moved past them
/// and nothing else but `lastpc` changed.
pub open spec fn emit_outcome(
    old_s: &scope,
    new_s: &scope,
    bytes: Seq<u8>,
    r: Result<(), CodegenError>,
) -> bool {
    match old_s.emitted(bytes) {
        None => r == Err::<(), CodegenError>(CodegenError::TooBigCodeBlock),
        Some(b) => {
            &&& r is Ok
            &&& new_s.buf() == b
            &&& new_s.pc == old_s.pc + bytes.len()
            &&& new_s.same_except_code(old_s)
            &&& new_s.wf()
        },
    }
}

/// Like [`emit_outcome`], with the emission starting at position `start`
/// instead of the current `pc` (used where an instruction is rewritten in place).
pub open spec fn emit_outcome_at(
    old_s: &scope,
    start: int,
    new_s: &scope,
    bytes: Seq<u8>,
    r: Result<(), CodegenError>,
) -> bool {
    match emit_bytes(old_s.buf(), start, bytes, old_s.lineno) {
        None => r == Err::<(), CodegenError>(CodegenError::TooBigCodeBlock),
        Some(b) => {
            &&& r is Ok
            &&& new_s.buf() == b
            &&& new_s.pc == start + bytes.len()
            &&& new_s.same_except_code(old_s)
            &&& new_s.wf()
        },
    }
}

impl scope {
    /// The abstract instruction buffer of the scope.
    pub open spec fn buf(&self) -> CodeBuf {
        CodeBuf {
            code: self.iseq@,
            lines: if self.has_lines {
                Some(self.lines@)
            } else {
                None
            },
            icapa: self.icapa,
        }
    }

    /// Well-formedness: the buffer length is its capacity, a legal one, and
    /// the positions lie inside it.
    pub open spec fn wf(&self) -> bool {
        &&& self.iseq@.len() == self.icapa
        &&& is_code_capacity(self.icapa)
        &&& (self.has_lines ==> self.lines@.len() == self.icapa)
        &&& self.pc <= self.icapa
        &&& self.lastpc <= self.pc
    }

    /// The fields that only scope creation sets agree.
    pub open spec fn same_core(&self, other: &scope) -> bool {
        &&& self.has_lines == other.has_lines
        &&& self.lineno == other.lineno
        &&& self.nlocals == other.nlocals
        &&& self.no_optimize == other.no_optimize
        &&& self.on_eval == other.on_eval
        &&& self.filename_sym == other.filename_sym
        &&& self.filename_index == other.filename_index
        &&& self.rlev == other.rlev
        &&& self.lv@ == other.lv@
        &&& self.up@ == other.up@
        &&& self.mscope == other.mscope
        &&& self.ainfo == other.ainfo
        &&& self.up_methods@ == other.up_methods@
        &&& self.irep_lv@ == other.irep_lv@
    }

    /// The literal pool, symbol table, child count and loop records agree.
    pub open spec fn same_tables(&self, other: &scope) -> bool {
        &&& self.pool@ == other.pool@
        &&& self.syms@ == other.syms@
        &&& self.reps@ == other.reps@
        &&& self.loops@ == other.loops@
        &&& self.ensure_level == other.ensure_level
    }

    /// The buffer and all positions agree.
    pub open spec fn same_code(&self, other: &scope) -> bool {
        &&& self.buf() == other.buf()
        &&& self.pc == other.pc
        &&& self.lastpc == other.lastpc
        &&& self.lastlabel == other.lastlabel
    }

    /// Everything but the buffer, the positions and the stack agrees.
    pub open spec fn same_except_stack(&self, other: &scope) -> bool {
        &&& self.same_core(other)
        &&& self.same_tables(other)
    }

    /// Everything but the buffer and the label agrees.
    pub open spec fn same_except_label(&self, other: &scope) -> bool {
        &&& self.same_core(other)
        &&& self.same_tables(other)
        &&& self.sp == other.sp
        &&& self.nregs == other.nregs
    }

    /// Everything but the buffer, `pc` and `lastpc` agrees.
    pub open spec fn same_except_code(&self, other: &scope) -> bool {
        &&& self.same_except_label(other)
        &&& self.lastlabel == other.lastlabel
    }

    /// Everything but the literal pool agrees.
    pub open spec fn same_except_pool(&self, other: &scope) -> bool {
        &&& self.same_core(other)
        &&& self.same_code(other)
        &&& self.sp == other.sp
        &&& self.nregs == other.nregs
        &&& self.syms@ == other.syms@
        &&& self.reps@ == other.reps@
        &&& self.loops@ == other.loops@
        &&& self.ensure_level == other.ensure_level
    }

    /// Everything but the symbol table agrees.
    pub open spec fn same_except_syms(&self, other: &scope) -> bool {
        &&& self.same_core(other)
        &&& self.same_code(other)
        &&& self.sp == other.sp
        &&& self.nregs == other.nregs
        &&& self.pool@ == other.pool@
        &&& self.reps@ == other.reps@
        &&& self.loops@ == other.loops@
        &&& self.ensure_level == other.ensure_level
    }

    /// Everything but the buffer agrees.
    pub open spec fn same_except_buf(&self, other: &scope) -> bool {
        &&& self.same_except_code(other)
        &&& self.pc == other.pc
        &&& self.lastpc == other.lastpc
    }

    /// The outcome of emitting the encoded instruction `bytes` at `pc`:
    /// `None` on error, else the new buffer.
    pub open spec fn emitted(&self, bytes: Seq<u8>) -> Option<CodeBuf> {
        emit_bytes(self.buf(), self.pc as int, bytes, self.lineno)
    }

}

/// Sets a label at the current position and returns it.
pub fn new_label(s: &mut scope) -> (r: i32)
    ensures
        final(s).lastlabel == old(s).pc,
        r == old(s).pc as i32,
        final(s).buf() == old(s).buf(),
        final(s).pc == old(s).pc,
        final(s).lastpc == old(s).lastpc,
        final(s).same_except_label(old(s)),
        final(s).sp == old(s).sp,
        final(s).nregs == old(s).nregs,
{
    s.lastlabel = s.pc;
    s.lastlabel as i32
}

/// Appends `extra` copies of `fill` to `v`.
fn pad_vec<T: Copy>(v: &mut Vec<T>, extra: usize, fill: T)
    ensures
        final(v)@ == old(v)@ + Seq::new(extra as nat, |j: int| fill),
{
    let mut k: usize = 0;
    while k < extra
        invariant
            k <= extra,
            v@ == old(v)@ + Seq::new(k as nat, |j: int| fill),
        decreases extra - k,
    {
        v.push(fill);
        k = k + 1;
        proof {
            assert(v@ =~= old(v)@ + Seq::new(k as nat, |j: int| fill));
        }
    }
}

proof fn lemma_capacity_facts(c: u32)
    requires
        is_code_capacity(c),
    ensures
        c < 65536 ==> c <= 32768,
        c < 65536 ==> is_code_capacity((c * 2) as u32) && c * 2 <= 65536,
{
}

/// Writes byte `i` at position `pc`, growing the buffer when `pc` is at its end.
#[allow(non_snake_case)]
pub fn emit_B(s: &mut scope, pc: u32, i: u8) -> (r: Result<(), CodegenError>)
    requires
        old(s).wf(),
        pc <= old(s).icapa,
    ensures
        match emit_byte(old(s).buf(), pc as int, i, old(s).lineno) {
            None => r == Err::<(), CodegenError>(CodegenError::TooBigCodeBlock),
            Some(b) => {
                &&& r is Ok
                &&& final(s).buf() == b
                &&& final(s).same_except_buf(old(s))
                &&& final(s).wf()
            },
        },
{
    if pc >= 65536 || s.icapa >= 65536 {
        return Err(CodegenError::TooBigCodeBlock);
    }
    proof {
        lemma_capacity_facts(s.icapa);
    }
    let ghost capa = grown_capacity(pc as int, s.icapa);
    if pc >= s.icapa {
        let newcapa: u32 = if s.icapa * 2 > 65536 { 65536 } else { s.icapa * 2 };
        let extra = (newcapa - s.icapa) as usize;
        pad_vec(&mut s.iseq, extra, 0u8);
        if s.has_lines {
            pad_vec(&mut s.lines, extra, 0u16);
        }
        s.icapa = newcapa;
    }
    let lineno = s.lineno;
    if s.has_lines {
        if lineno > 0 || pc == 0 {
            s.lines.set(pc as usize, lineno);
        } else {
            let prev = s.lines[(pc - 1) as usize];
            s.lines.set(pc as usize, prev);
        }
    }
    s.iseq.set(pc as usize, i);
    proof {
        let b = emit_byte(old(s).buf(), pc as int, i, old(s).lineno).unwrap();
        assert(s.icapa == capa);
        assert(s.iseq@ =~= b.code);
        if s.has_lines {
            assert(s.lines@ =~= b.lines.unwrap());
        }
    }
    Ok(())
}

proof fn lemma_emit_bytes_concat(buf: CodeBuf, pc: int, a: Seq<u8>, b: Seq<u8>, lineno: u16)
    ensures
        emit_bytes(buf, pc, a + b, lineno) == match emit_bytes(buf, pc, a, lineno) {
            None => None,
            Some(b1) => emit_bytes(b1, pc + a.len(), b, lineno),
        },
    decreases a.len(),
{
    if a.len() == 0 {
        assert(a + b =~= b);
    } else {
        assert((a + b)[0] == a[0]);
        assert((a + b).drop_first() =~= a.drop_first() + b);
        match emit_byte(buf, pc, a[0], lineno) {
            None => {},
            Some(b0) => {
                lemma_emit_bytes_concat(b0, pc + 1, a.drop_first(), b, lineno);
            },
        }
    }
}

proof fn lemma_emit_single(buf: CodeBuf, pc: int, i: u8, lineno: u16)
    ensures
        emit_bytes(buf, pc, seq![i], lineno) == emit_byte(buf, pc, i, lineno),
{
    assert(seq![i].drop_first() =~= Seq::<u8>::empty());
    match emit_byte(buf, pc, i, lineno) {
        None => {},
        Some(b) => {
            assert(emit_bytes(b, pc + 1, Seq::<u8>::empty(), lineno) == Some(b));
        },
    }
}

proof fn lemma_emit_bytes_room(buf: CodeBuf, pc: int, bytes: Seq<u8>, lineno: u16)
    requires
        is_code_capacity(buf.icapa),
        0 <= pc <= buf.icapa,
        emit_bytes(buf, pc, bytes, lineno) is Some,
    ensures
        pc + bytes.len() <= emit_bytes(buf, pc, bytes, lineno).unwrap().icapa,
        is_code_capacity(emit_bytes(buf, pc, bytes, lineno).unwrap().icapa),
        bytes.len() > 0 ==> buf.icapa < 65536 && pc <= 32768,
    decreases bytes.len(),
{
    lemma_capacity_facts(buf.icapa);
    if bytes.len() > 0 {
        let b0 = emit_byte(buf, pc, bytes[0], lineno).unwrap();
        lemma_emit_bytes_room(b0, pc + 1, bytes.drop_first(), lineno);
    }
}

/// After a successful emission of `a` taking `s0` to `s1`, emitting `b` from
/// `s1` is emitting `a + b` from `s0`.
proof fn lemma_emitted_concat(s0: &scope, s1: &scope, a: Seq<u8>, b: Seq<u8>)
    requires
        s0.emitted(a) == Some(s1.buf()),
        s1.pc == s0.pc + a.len(),
        s1.lineno == s0.lineno,
    ensures
        s0.emitted(a + b) == s1.emitted(b),
{
    lemma_emit_bytes_concat(s0.buf(), s0.pc as int, a, b, s0.lineno);
}

/// After an emission of `a` failed from `s0`, emitting `a + b` fails too.
proof fn lemma_emitted_concat_err(s0: &scope, a: Seq<u8>, b: Seq<u8>)
    requires
        s0.emitted(a) is None,
    ensures
        s0.emitted(a + b) is None,
{
    lemma_emit_bytes_concat(s0.buf(), s0.pc as int, a, b, s0.lineno);
}

/// Writes the 16-bit value `i` big-endian at `pc` and `pc + 1`.
#[allow(non_snake_case)]
pub fn emit_S(s: &mut scope, pc: i32, i: u16) -> (r: Result<(), CodegenError>)
    requires
        old(s).wf(),
        0 <= pc,
        pc <= old(s).icapa,
    ensures
        match emit_bytes(old(s).buf(), pc as int, enc_s(i), old(s).lineno) {
            None => r == Err::<(), CodegenError>(CodegenError::TooBigCodeBlock),
            Some(b) => {
                &&& r is Ok
                &&& final(s).buf() == b
                &&& final(s).same_except_buf(old(s))
                &&& final(s).wf()
            },
        },
{
    let hi: u8 = (i / 256) as u8;
    let lo: u8 = (i % 256) as u8;
    proof {
        lemma_emit_bytes_concat(old(s).buf(), pc as int, seq![hi], seq![lo], old(s).lineno);
        lemma_emit_single(old(s).buf(), pc as int, hi, old(s).lineno);
        assert(seq![hi] + seq![lo] =~= enc_s(i));
    }
    let r1 = emit_B(s, pc as u32, hi);
    if r1.is_err() {
        return r1;
    }
    let ghost mid = s.buf();
    proof {
        lemma_capacity_facts(old(s).icapa);
        lemma_emit_single(mid, pc + 1, lo, s.lineno);
    }
    emit_B(s, (pc + 1) as u32, lo)
}

/// Appends byte `i` at the current position.
#[allow(non_snake_case)]
pub fn gen_B(s: &mut scope, i: u8) -> (r: Result<(), CodegenError>)
    requires
        old(s).wf(),
    ensures
        emit_outcome(old(s), final(s), seq![i], r),
        r is Ok ==> final(s).lastpc == old(s).lastpc,
{
    proof {
        lemma_emit_single(s.buf(), s.pc as int, i, s.lineno);
        lemma_capacity_facts(s.icapa);
    }
    let r = emit_B(s, s.pc as u32, i);
    if r.is_err() {
        return r;
    }
    s.pc = s.pc + 1;
    Ok(())
}

/// Appends the 16-bit value `i` big-endian at the current position.
#[allow(non_snake_case)]
pub fn gen_S(s: &mut scope, i: u16) -> (r: Result<(), CodegenError>)
    requires
        old(s).wf(),
    ensures
        emit_outcome(old(s), final(s), enc_s(i), r),
        r is Ok ==> final(s).lastpc == old(s).lastpc,
{
    proof {
        lemma_capacity_facts(s.icapa);
    }
    proof {
        let hi = (i / 256) as u8;
        let lo = (i % 256) as u8;
        assert(seq![hi] + seq![lo] =~= enc_s(i));
        lemma_emit_bytes_concat(s.buf(), s.pc as int, seq![hi], seq![lo], s.lineno);
        lemma_emit_single(s.buf(), s.pc as int, hi, s.lineno);
        if s.emitted(enc_s(i)) is Some {
            lemma_emit_bytes_room(s.buf(), s.pc as int, enc_s(i), s.lineno);
        }
    }
    let r = emit_S(s, s.pc as i32, i);
    if r.is_err() {
        return r;
    }
    s.pc = s.pc + 2;
    Ok(())
}

/// Two successive emissions compose into one.
pub(crate) proof fn lemma_outcome_seq(
    s0: &scope,
    s1: &scope,
    s2: &scope,
    a: Seq<u8>,
    b: Seq<u8>,
    r2: Result<(), CodegenError>,
)
    requires
        s0.wf(),
        emit_outcome(s0, s1, a, Ok(())),
        emit_outcome(s1, s2, b, r2),
    ensures
        emit_outcome(s0, s2, a + b, r2),
{
    lemma_emitted_concat(s0, s1, a, b);
    if r2 is Ok {
        assert(s2.same_except_code(s0));
    }
}

/// A failed emission makes every longer emission fail.
pub(crate) proof fn lemma_outcome_err(s0: &scope, s1: &scope, a: Seq<u8>, b: Seq<u8>, r: Result<(), CodegenError>)
    requires
        emit_outcome(s0, s1, a, r),
        r is Err,
    ensures
        emit_outcome(s0, s1, a + b, r),
{
    lemma_emitted_concat_err(s0, a, b);
}

/// Progress through an emission of `total`: after `done` succeeded and the
/// next piece `step` was attempted, the emission of `done + step` is
/// described, and a failure fails all of `total`.
pub(crate) proof fn lemma_progress(
    s0: &scope,
    s_prev: &scope,
    s_new: &scope,
    done: Seq<u8>,
    step: Seq<u8>,
    total: Seq<u8>,
    r: Result<(), CodegenError>,
)
    requires
        s0.wf(),
        emit_outcome(s0, s_prev, done, Ok(())),
        emit_outcome(s_prev, s_new, step, r),
        done.len() + step.len() <= total.len(),
        total.subrange(0, (done.len() + step.len()) as int) =~= done + step,
    ensures
        emit_outcome(s0, s_new, done + step, r),
        r is Err ==> emit_outcome(s0, s_new, total, r),
{
    lemma_outcome_seq(s0, s_prev, s_new, done, step, r);
    if r is Err {
        let rest = total.subrange((done.len() + step.len()) as int, total.len() as int);
        assert(total =~= (done + step) + rest);
        lemma_outcome_err(s0, s_new, done + step, rest, r);
    }
}

pub(crate) proof fn lemma_outcome_start(s0: &scope)
    requires
        s0.wf(),
    ensures
        emit_outcome(s0, s0, Seq::<u8>::empty(), Ok(())),
{
}

/// Emits an instruction without operands.
pub fn genop_0(s: &mut scope, i: u8) -> (r: Result<(), CodegenError>)
    requires
        old(s).wf(),
    ensures
        emit_outcome(old(s), final(s), encode_0(i), r),
        r is Ok ==> final(s).lastpc == old(s).pc,
{
    s.lastpc = s.pc;
    gen_B(s, i)
}

/// Emits an instruction with one 8-bit operand, prefixing `OP_EXT1` when
/// the operand needs 16 bits.
pub fn genop_1(s: &mut scope, i: u8, a: u16) -> (r: Result<(), CodegenError>)
    requires
        old(s).wf(),
    ensures
        emit_outcome(old(s), final(s), encode_1(i, a), r),
        r is Ok ==> final(s).lastpc == old(s).pc,
{
    s.lastpc = s.pc;
    let ghost s0 = *s;
    if a > 0xff {
        let r = gen_B(s, OP_EXT1);
        let ghost s1 = *s;
        if r.is_err() {
            proof {
                lemma_outcome_err(&s0, &s1, seq![OP_EXT1], seq![i] + enc_s(a), r);
                assert(seq![OP_EXT1] + (seq![i] + enc_s(a)) =~= encode_1(i, a));
            }
            return r;
        }
        let r = gen_B(s, i);
        let ghost s2 = *s;
        proof {
            lemma_outcome_seq(&s0, &s1, &s2, seq![OP_EXT1], seq![i], r);
            assert(seq![OP_EXT1] + seq![i] =~= seq![OP_EXT1, i]);
        }
        if r.is_err() {
            proof {
                lemma_outcome_err(&s0, &s2, seq![OP_EXT1, i], enc_s(a), r);
            }
            return r;
        }
        let r = gen_S(s, a);
        proof {
            lemma_outcome_seq(&s0, &s2, s, seq![OP_EXT1, i], enc_s(a), r);
        }
        r
    } else {
        let r = gen_B(s, i);
        let ghost s1 = *s;
        if r.is_err() {
            proof {
                lemma_outcome_err(&s0, &s1, seq![i], seq![a as u8], r);
                assert(seq![i] + seq![a as u8] =~= encode_1(i, a));
            }
            return r;
        }
        let r = gen_B(s, a as u8);
        proof {
            lemma_outcome_seq(&s0, &s1, s, seq![i], seq![a as u8], r);
            assert(seq![i] + seq![a as u8] =~= encode_1(i, a));
        }
        r
    }
}

/// Emits an instruction with two 8-bit operands, prefixing `OP_EXT1`,
/// `OP_EXT2` or `OP_EXT3` when the first, the second, or both operands need
/// 16 bits.
pub fn genop_2(s: &mut scope, i: u8, a: u16, b: u16) -> (r: Result<(), CodegenError>)
    requires
        old(s).wf(),
    ensures
        emit_outcome(old(s), final(s), encode_2(i, a, b), r),
        r is Ok ==> final(s).lastpc == old(s).pc,
{
    s.lastpc = s.pc;
    let ghost s0 = *s;
    let ghost total = encode_2(i, a, b);
    proof {
        lemma_outcome_start(&s0);
    }
    if a > 0xff && b > 0xff {
        let r = gen_B(s, OP_EXT3);
        proof { lemma_progress(&s0, &s0, s, seq![], seq![OP_EXT3], total, r); }
        if r.is_err() { return r; }
        let ghost s1 = *s;
        let ghost d1 = seq![OP_EXT3];
        proof { assert(Seq::<u8>::empty() + seq![OP_EXT3] =~= d1); }
        let r = gen_B(s, i);
        proof { lemma_progress(&s0, &s1, s, d1, seq![i], total, r); }
        if r.is_err() { return r; }
        let ghost s2 = *s;
        let ghost d2 = d1 + seq![i];
        let r = gen_S(s, a);
        proof { lemma_progress(&s0, &s2, s, d2, enc_s(a), total, r); }
        if r.is_err() { return r; }
        let ghost s3 = *s;
        let ghost d3 = d2 + enc_s(a);
        let r = gen_S(s, b);
        proof {
            lemma_progress(&s0, &s3, s, d3, enc_s(b), total, r);
            assert(d3 + enc_s(b) =~= total);
        }
        r
    } else if b > 0xff {
        let r = gen_B(s, OP_EXT2);
        proof { lemma_progress(&s0, &s0, s, seq![], seq![OP_EXT2], total, r); }
        if r.is_err() { return r; }
        let ghost s1 = *s;
        let ghost d1 = seq![OP_EXT2];
        proof { assert(Seq::<u8>::empty() + seq![OP_EXT2] =~= d1); }
        let r = gen_B(s, i);
        proof { lemma_progress(&s0, &s1, s, d1, seq![i], total, r); }
        if r.is_err() { return r; }
        let ghost s2 = *s;
        let ghost d2 = d1 + seq![i];
        let r = gen_B(s, a as u8);
        proof { lemma_progress(&s0, &s2, s, d2, seq![a as u8], total, r); }
        if r.is_err() { return r; }
        let ghost s3 = *s;
        let ghost d3 = d2 + seq![a as u8];
        let r = gen_S(s, b);
        proof {
            lemma_progress(&s0, &s3, s, d3, enc_s(b), total, r);
            assert(d3 + enc_s(b) =~= total);
        }
        r
    } else if a > 0xff {
        let r = gen_B(s, OP_EXT1);
        proof { lemma_progress(&s0, &s0, s, seq![], seq![OP_EXT1], total, r); }
        if r.is_err() { return r; }
        let ghost s1 = *s;
        let ghost d1 = seq![OP_EXT1];
        proof { assert(Seq::<u8>::empty() + seq![OP_EXT1] =~= d1); }
        let r = gen_B(s, i);
        proof { lemma_progress(&s0, &s1, s, d1, seq![i], total, r); }
        if r.is_err() { return r; }
        let ghost s2 = *s;
        let ghost d2 = d1 + seq![i];
        let r = gen_S(s, a);
        proof { lemma_progress(&s0, &s2, s, d2, enc_s(a), total, r); }
        if r.is_err() { return r; }
        let ghost s3 = *s;
        let ghost d3 = d2 + enc_s(a);
        let r = gen_B(s, b as u8);
        proof {
            lemma_progress(&s0, &s3, s, d3, seq![b as u8], total, r);
            assert(d3 + seq![b as u8] =~= total);
        }
        r
    } else {
        let r = gen_B(s, i);
        proof { lemma_progress(&s0, &s0, s, seq![], seq![i], total, r); }
        if r.is_err() { return r; }
        let ghost s1 = *s;
        let ghost d1 = seq![i];
        proof { assert(Seq::<u8>::empty() + seq![i] =~= d1); }
        let r = gen_B(s, a as u8);
        proof { lemma_progress(&s0, &s1, s, d1, seq![a as u8], total, r); }
        if r.is_err() { return r; }
        let ghost s2 = *s;
        let ghost d2 = d1 + seq![a as u8];
        let r = gen_B(s, b as u8);
        proof {
            lemma_progress(&s0, &s2, s, d2, seq![b as u8], total, r);
            assert(d2 + seq![b as u8] =~= total);
        }
        r
    }
}

/// Emits an instruction with three operands: two widenable 8-bit ones and a
/// plain 8-bit one.
pub fn genop_3(s: &mut scope, i: u8, a: u16, b: u16, c: u8) -> (r: Result<(), CodegenError>)
    requires
        old(s).wf(),
    ensures
        emit_outcome(old(s), final(s), encode_3(i, a, b, c), r),
        r is Ok ==> final(s).lastpc == old(s).pc,
{
    let ghost s0 = *s;
    let r = genop_2(s, i, a, b);
    if r.is_err() {
        proof {
            lemma_outcome_err(&s0, s, encode_2(i, a, b), seq![c], r);
            assert(encode_2(i, a, b) + seq![c] =~= encode_3(i, a, b, c));
        }
        return r;
    }
    let ghost s1 = *s;
    let r = gen_B(s, c);
    proof {
        lemma_outcome_seq(&s0, &s1, s, encode_2(i, a, b), seq![c], r);
        assert(encode_2(i, a, b) + seq![c] =~= encode_3(i, a, b, c));
    }
    r
}

/// Emits an instruction with a widenable 8-bit operand and a 16-bit operand.
#[allow(non_snake_case)]
pub fn genop_2S(s: &mut scope, i: u8, a: u16, b: u16) -> (r: Result<(), CodegenError>)
    requires
        old(s).wf(),
    ensures
        emit_outcome(old(s), final(s), encode_2s(i, a, b), r),
        r is Ok ==> final(s).lastpc == old(s).pc,
{
    let ghost s0 = *s;
    let r = genop_1(s, i, a);
    if r.is_err() {
        proof { lemma_outcome_err(&s0, s, encode_1(i, a), enc_s(b), r); }
        return r;
    }
    let ghost s1 = *s;
    let r = gen_S(s, b);
    proof {
        lemma_outcome_seq(&s0, &s1, s, encode_1(i, a), enc_s(b), r);
    }
    r
}

/// Emits an instruction with one 24-bit operand.
#[allow(non_snake_case)]
pub fn genop_W(s: &mut scope, i: u8, a: u32) -> (r: Result<(), CodegenError>)
    requires
        old(s).wf(),
    ensures
        emit_outcome(old(s), final(s), encode_w(i, a), r),
        r is Ok ==> final(s).lastpc == old(s).pc,
{
    let a1: u8 = ((a / 65536) % 256) as u8;
    let a2: u8 = ((a / 256) % 256) as u8;
    let a3: u8 = (a % 256) as u8;
    s.lastpc = s.pc;
    let ghost s0 = *s;
    let ghost total = encode_w(i, a);
    proof {
        lemma_outcome_start(&s0);
    }
    let r = gen_B(s, i);
    proof { lemma_progress(&s0, &s0, s, seq![], seq![i], total, r); }
    if r.is_err() { return r; }
    let ghost s1 = *s;
    let ghost d1 = seq![i];
    proof { assert(Seq::<u8>::empty() + seq![i] =~= d1); }
    let r = gen_B(s, a1);
    proof { lemma_progress(&s0, &s1, s, d1, seq![a1], total, r); }
    if r.is_err() { return r; }
    let ghost s2 = *s;
    let ghost d2 = d1 + seq![a1];
    let r = gen_B(s, a2);
    proof { lemma_progress(&s0, &s2, s, d2, seq![a2], total, r); }
    if r.is_err() { return r; }
    let ghost s3 = *s;
    let ghost d3 = d2 + seq![a2];
    let r = gen_B(s, a3);
    proof {
        lemma_progress(&s0, &s3, s, d3, seq![a3], total, r);
        assert(d3 + seq![a3] =~= total);
    }
    r
}

/// Emits a jump instruction with the 16-bit target `pc`; returns the position
/// of the target operand so that it can be patched later.
pub fn genjmp(s: &mut scope, i: u8, pc: u16) -> (r: Result<u16, CodegenError>)
    requires
        old(s).wf(),
    ensures
        emit_outcome(
            old(s),
            final(s),
            seq![i] + enc_s(pc),
            match r {
                Ok(_) => Ok(()),
                Err(e) => Err(e),
            },
        ),
        r matches Ok(pos) ==> pos == old(s).pc + 1 && final(s).lastpc == old(s).pc,
{
    s.lastpc = s.pc;
    let ghost s0 = *s;
    let r = gen_B(s, i);
    if r.is_err() {
        proof { lemma_outcome_err(&s0, s, seq![i], enc_s(pc), r); }
        return Err(CodegenError::TooBigCodeBlock);
    }
    let ghost s1 = *s;
    let pos = s.pc;
    let r = gen_S(s, pc);
    proof {
        lemma_outcome_seq(&s0, &s1, s, seq![i], enc_s(pc), r);
    }
    if r.is_err() {
        return Err(CodegenError::TooBigCodeBlock);
    }
    Ok(pos)
}

/// Resolves the jump whose 16-bit target operand sits at `pos0` to the
/// current position, and returns the value that operand held before (the
/// next jump of a chain of pending jumps, 0 ending the chain).
pub fn dispatch(s: &mut scope, pos0: u16) -> (r: Result<i32, CodegenError>)
    requires
        old(s).wf(),
        pos0 + 1 < old(s).icapa,
    ensures
        match emit_bytes(old(s).buf(), pos0 as int, enc_s(old(s).pc), old(s).lineno) {
            None => r == Err::<i32, CodegenError>(CodegenError::TooBigCodeBlock),
            Some(b) => {
                &&& r == Ok::<i32, CodegenError>(read_s(old(s).iseq@, pos0 as int) as i32)
                &&& final(s).buf() == b
                &&& final(s).lastlabel == old(s).pc
                &&& final(s).pc == old(s).pc
                &&& final(s).lastpc == old(s).lastpc
                &&& final(s).same_except_label(old(s))
                &&& final(s).wf()
            },
        },
{
    s.lastlabel = s.pc;
    let hi = s.iseq[pos0 as usize] as u16;
    let lo = s.iseq[(pos0 + 1) as usize] as u16;
    let newpos: u16 = hi * 256 + lo;
    let target = s.pc;
    let r = emit_S(s, pos0 as i32, target);
    if r.is_err() {
        return Err(CodegenError::TooBigCodeBlock);
    }
    Ok(newpos as i32)
}

/// A chain of pending jumps starting at operand position `pos`, all
/// operands lying before `limit`: each link names the next one, strictly
/// earlier and not overlapping, and 0 ends it.
pub open spec fn jump_chain_ok(code: Seq<u8>, pos: int, limit: int) -> bool
    decreases pos,
{
    if pos <= 0 {
        pos == 0
    } else {
        let next = read_s(code, pos) as int;
        &&& pos + 2 <= limit <= code.len()
        &&& next + 2 <= pos || next == 0
        &&& jump_chain_ok(code, next, limit)
    }
}

/// The buffer after resolving every jump of the chain at `pos` to `target`.
pub open spec fn dispatch_chain(buf: CodeBuf, pos: int, target: u16, lineno: u16) -> Option<CodeBuf>
    decreases pos,
{
    if pos <= 0 {
        Some(buf)
    } else {
        let next = read_s(buf.code, pos) as int;
        match emit_bytes(buf, pos, enc_s(target), lineno) {
            None => None,
            Some(b) => if next < pos {
                dispatch_chain(b, next, target, lineno)
            } else {
                Some(b)
            },
        }
    }
}

/// What an emission leaves in the buffer: `bytes` at `pc..`, the old
/// contents elsewhere, and a buffer no shorter than before.
pub proof fn lemma_emit_bytes_content(buf: CodeBuf, pc: int, bytes: Seq<u8>, lineno: u16)
    requires
        buf.code.len() == buf.icapa,
        is_code_capacity(buf.icapa),
        0 <= pc <= buf.icapa,
        emit_bytes(buf, pc, bytes, lineno) is Some,
    ensures
        ({
            let b = emit_bytes(buf, pc, bytes, lineno).unwrap();
            &&& b.code.len() == b.icapa
            &&& is_code_capacity(b.icapa)
            &&& b.code.len() >= buf.code.len()
            &&& b.code.len() >= pc + bytes.len()
            &&& forall|k: int| 0 <= k < bytes.len() ==> b.code[pc + k] == bytes[k]
            &&& forall|j: int|
                0 <= j < buf.code.len() && !(pc <= j < pc + bytes.len()) ==> b.code[j]
                    == buf.code[j]
            &&& (pc + bytes.len() <= buf.icapa ==> b.icapa == buf.icapa)
        }),
    decreases bytes.len(),
{
    if bytes.len() > 0 {
        let b0 = emit_byte(buf, pc, bytes[0], lineno).unwrap();
        lemma_capacity_facts(buf.icapa);
        let capa = grown_capacity(pc, buf.icapa);
        assert(capa >= buf.icapa);
        assert(pad(buf.code, capa as nat, 0u8).len() == capa);
        assert(b0.code.len() == b0.icapa);
        lemma_emit_bytes_content(b0, pc + 1, bytes.drop_first(), lineno);
        let b = emit_bytes(buf, pc, bytes, lineno).unwrap();
        assert forall|k: int| 0 <= k < bytes.len() implies b.code[pc + k] == bytes[k] by {
            if k > 0 {
                assert(bytes.drop_first()[k - 1] == bytes[k]);
            }
        }
    }
}

/// A chain stays valid when the bytes up to its first link are kept.
pub proof fn lemma_chain_frame(c1: Seq<u8>, c2: Seq<u8>, p: int, limit: int)
    requires
        jump_chain_ok(c1, p, limit),
        c1.len() <= c2.len(),
        forall|j: int| 0 <= j < p + 2 && j < c1.len() ==> c1[j] == c2[j],
    ensures
        jump_chain_ok(c2, p, limit),
        p > 0 ==> read_s(c2, p) == read_s(c1, p),
    decreases p,
{
    if p > 0 {
        let next = read_s(c1, p) as int;
        assert(read_s(c2, p) == read_s(c1, p));
        lemma_chain_frame(c1, c2, next, limit);
    }
}

/// Resolves every jump of the chain starting at operand position `pos` to
/// the current position.
pub fn dispatch_linked(s: &mut scope, pos: u16) -> (r: Result<(), CodegenError>)
    requires
        old(s).wf(),
        jump_chain_ok(old(s).iseq@, pos as int, old(s).pc as int),
    ensures
        pos == 0 ==> r is Ok && final(s).buf() == old(s).buf() && final(s).same_except_buf(old(s)),
        pos != 0 ==> match dispatch_chain(old(s).buf(), pos as int, old(s).pc, old(s).lineno) {
            None => r == Err::<(), CodegenError>(CodegenError::TooBigCodeBlock),
            Some(b) => {
                &&& r is Ok
                &&& final(s).buf() == b
                &&& final(s).lastlabel == old(s).pc
                &&& final(s).pc == old(s).pc
                &&& final(s).lastpc == old(s).lastpc
                &&& final(s).same_except_label(old(s))
                &&& final(s).wf()
            },
        },
{
    if pos == 0 {
        return Ok(());
    }
    let mut cur: u16 = pos;
    let ghost target = old(s).pc;
    let ghost lineno = old(s).lineno;
    while cur != 0
        invariant
            pos != 0,
            cur <= pos,
            target == old(s).pc,
            lineno == old(s).lineno,
            s.wf(),
            s.pc == old(s).pc,
            s.lastpc == old(s).lastpc,
            s.same_except_label(old(s)),
            cur != pos ==> s.lastlabel == old(s).pc,
            cur == pos ==> s.buf() == old(s).buf() && s.lastlabel == old(s).lastlabel,
            jump_chain_ok(s.iseq@, cur as int, old(s).pc as int),
            dispatch_chain(old(s).buf(), pos as int, target, lineno) == dispatch_chain(
                s.buf(),
                cur as int,
                target,
                lineno,
            ),
        decreases cur,
    {
        let ghost before = s.buf();
        let ghost next = read_s(before.code, cur as int);
        assert(s.pc == target && s.lineno == lineno);
        let r = dispatch(s, cur);
        match r {
            Err(e) => {
                proof {
                    assert(emit_bytes(before, cur as int, enc_s(target), lineno) is None);
                    assert(dispatch_chain(before, cur as int, target, lineno) is None);
                }
                return Err(e);
            },
            Ok(n) => {
                proof {
                    assert(emit_bytes(before, cur as int, enc_s(target), lineno) is Some);
                    lemma_emit_bytes_content(before, cur as int, enc_s(target), lineno);
                    if next > 0 {
                        lemma_chain_frame(before.code, s.iseq@, next as int, old(s).pc as int);
                    }
                }
                cur = n as u16;
            },
        }
    }
    Ok(())
}

/// `q` is the operand position of one of the pending jumps of the chain
/// that starts at `p`.
pub open spec fn on_chain(code: Seq<u8>, p: int, q: int) -> bool
    decreases p,
{
    if p <= 0 {
        false
    } else {
        let next = read_s(code, p) as int;
        q == p || (0 <= next < p && on_chain(code, next, q))
    }
}

/// Membership in a chain only depends on the bytes up to its first link.
pub(crate) proof fn lemma_on_chain_frame(c1: Seq<u8>, c2: Seq<u8>, p: int, limit: int, q: int)
    requires
        jump_chain_ok(c1, p, limit),
        c1.len() <= c2.len(),
        forall|j: int| 0 <= j < p + 2 && j < c1.len() ==> c1[j] == c2[j],
        on_chain(c1, p, q),
    ensures
        on_chain(c2, p, q),
    decreases p,
{
    if p > 0 {
        let next = read_s(c1, p) as int;
        assert(read_s(c2, p) == read_s(c1, p));
        if q != p {
            lemma_on_chain_frame(c1, c2, next, limit, q);
        }
    }
}

/// Resolving the chain at `p` writes `target` into every one of its
/// operands and leaves the bytes from `p + 2` on as they were.
proof fn lemma_dispatch_chain_content(buf: CodeBuf, p: int, target: u16, lineno: u16, limit: int)
    requires
        buf.code.len() == buf.icapa,
        is_code_capacity(buf.icapa),
        jump_chain_ok(buf.code, p, limit),
        dispatch_chain(buf, p, target, lineno) is Some,
    ensures
        ({
            let b = dispatch_chain(buf, p, target, lineno)->0;
            &&& b.code.len() == buf.code.len()
            &&& b.code.len() == b.icapa
            &&& is_code_capacity(b.icapa)
            &&& forall|j: int| p + 2 <= j < buf.code.len() ==> b.code[j] == buf.code[j]
            &&& forall|q: int| on_chain(buf.code, p, q) ==> read_s(b.code, q) == target
        }),
    decreases p,
{
    if p > 0 {
        let next = read_s(buf.code, p) as int;
        let b1 = emit_bytes(buf, p, enc_s(target), lineno)->0;
        lemma_emit_bytes_content(buf, p, enc_s(target), lineno);
        assert(b1.code.len() == buf.code.len());
        assert(read_s(b1.code, p) == target);
        if next > 0 {
            lemma_chain_frame(buf.code, b1.code, next, limit);
            lemma_dispatch_chain_content(b1, next, target, lineno, limit);
            let b = dispatch_chain(buf, p, target, lineno)->0;
            assert(b == dispatch_chain(b1, next, target, lineno)->0);
            assert(b.code[p] == b1.code[p] && b.code[p + 1] == b1.code[p + 1]);
            assert(read_s(b.code, p) == read_s(b1.code, p));
            assert forall|q: int| on_chain(buf.code, p, q) implies read_s(b.code, q) == target by {
                if q != p {
                    lemma_on_chain_frame(buf.code, b1.code, next, limit, q);
                }
            }
        } else {
            let b = dispatch_chain(buf, p, target, lineno)->0;
            assert(b == dispatch_chain(b1, next, target, lineno)->0);
            assert(b == b1);
            assert forall|q: int| on_chain(buf.code, p, q) implies read_s(b.code, q) == target by {
                assert(!on_chain(buf.code, next, q));
                assert(q == p);
            }
        }
    }
}

/// Leaving a chain of pending jumps at the current position points each of
/// them at that position.
pub proof fn lemma_dispatch_linked_targets(old_s: &scope, new_s: &scope, pos: u16, q: int)
    requires
        old_s.wf(),
        jump_chain_ok(old_s.iseq@, pos as int, old_s.pc as int),
        dispatch_chain(old_s.buf(), pos as int, old_s.pc, old_s.lineno) == Some(new_s.buf()),
        on_chain(old_s.iseq@, pos as int, q),
    ensures
        read_s(new_s.iseq@, q) == old_s.pc,
{
    lemma_dispatch_chain_content(old_s.buf(), pos as int, old_s.pc, old_s.lineno, old_s.pc as int);
}

/// Reserves `n` more stack registers, raising the register high-water mark.
pub fn push_n_(s: &mut scope, n: i32) -> (r: Result<(), CodegenError>)
    requires
        old(s).sp + n <= i32::MAX,
    ensures
        old(s).sp + n >= 0xffff ==> r == Err::<(), CodegenError>(CodegenError::TooComplexExpression),
        old(s).sp + n < 0xffff ==> {
            &&& r is Ok
            &&& final(s).sp == (old(s).sp + n) as u16
            &&& final(s).nregs == if final(s).sp > old(s).nregs {
                final(s).sp
            } else {
                old(s).nregs
            }
            &&& final(s).buf() == old(s).buf()
            &&& final(s).pc == old(s).pc
            &&& final(s).lastpc == old(s).lastpc
            &&& final(s).lastlabel == old(s).lastlabel
            &&& final(s).same_except_stack(old(s))
        },
{
    if s.sp as i32 + n >= 0xffff {
        return Err(CodegenError::TooComplexExpression);
    }
    s.sp = (s.sp as i32 + n) as u16;
    if s.sp > s.nregs {
        s.nregs = s.sp;
    }
    Ok(())
}

/// Releases `n` stack registers.
pub fn pop_n_(s: &mut scope, n: i32) -> (r: Result<(), CodegenError>)
    requires
        i32::MIN <= old(s).sp - n <= i32::MAX,
    ensures
        old(s).sp - n < 0 ==> r == Err::<(), CodegenError>(CodegenError::StackPointerUnderflow),
        old(s).sp - n >= 0 ==> {
            &&& r is Ok
            &&& final(s).sp == (old(s).sp - n) as u16
            &&& final(s).nregs == old(s).nregs
            &&& final(s).buf() == old(s).buf()
            &&& final(s).pc == old(s).pc
            &&& final(s).lastpc == old(s).lastpc
            &&& final(s).lastlabel == old(s).lastlabel
            &&& final(s).same_except_stack(old(s))
        },
{
    if (s.sp as i32) - n < 0 {
        return Err(CodegenError::StackPointerUnderflow);
    }
    s.sp = ((s.sp as i32) - n) as u16;
    Ok(())
}

} // verus!
