//! Preparing a body compiled by `eval` to run inside its caller: every local
//! variable that the eval'd code reads or writes but that really lives in an
//! enclosing method or block is turned into an up-level variable access.

use vstd::prelude::*;
use crate::codegen::{mrb_locals, PoolValue};
use crate::irep::mrb_irep;
use crate::vformat::{decimal, int_to_decimal, push_all};
use crate::opcode::{
    insn_len, byte_at, is_ext_prefix, spec_insn_len, OP_BLOCK, OP_ENTER, OP_EPUSH, OP_GETUPVAR,
    OP_LAMBDA, OP_MOVE, OP_SEND, OP_SETUPVAR, OP_STOP, OP_EXT1, OP_EXT2, OP_EXT3,
};

verus! {

/// The value of a compiled body, with its nested bodies taken by value.
pub struct IrepView {
    pub nlocals: u16,
    pub nregs: u16,
    pub flags: u8,
    pub iseq: Seq<u8>,
    pub lines: Option<Seq<u16>>,
    pub pool: Seq<PoolValue>,
    pub syms: Seq<u32>,
    pub reps: Seq<IrepView>,
    pub lv: Option<Seq<mrb_locals>>,
}

/// The value of an optional local variable table.
pub open spec fn lv_view(lv: Option<Vec<mrb_locals>>) -> Option<Seq<mrb_locals>> {
    match lv {
        Some(v) => Some(v@),
        None => None,
    }
}

/// The value of an optional line table.
pub open spec fn lines_view(lines: Option<Vec<u16>>) -> Option<Seq<u16>> {
    match lines {
        Some(v) => Some(v@),
        None => None,
    }
}

/// The value of `ir`.
pub open spec fn irep_view(ir: mrb_irep) -> IrepView
    decreases ir,
{
    IrepView {
        nlocals: ir.nlocals,
        nregs: ir.nregs,
        flags: ir.flags,
        iseq: ir.iseq@,
        lines: lines_view(ir.lines),
        pool: ir.pool@,
        syms: ir.syms@,
        reps: Seq::new(
            ir.reps@.len(),
            |j: int|
                if 0 <= j < ir.reps@.len() {
                    irep_view(ir.reps@[j])
                } else {
                    arbitrary()
                },
        ),
        lv: lv_view(ir.lv),
    }
}

/// What a nested body sees of one enclosing body while it is being patched:
/// its local variable table, its number of locals and its argument count.
pub struct UpperFrame {
    pub lv: Option<Seq<mrb_locals>>,
    pub nlocals: u16,
    pub argc: u32,
}

/// The argument count recorded by an `OP_ENTER` at the start of `code`
/// (required, optional, rest and post arguments, plus one slot for the
/// block), or 0 when the body does not start with `OP_ENTER`.
pub open spec fn spec_irep_argc(code: Seq<u8>) -> u32 {
    if code.len() > 0 && code[0] == OP_ENTER {
        let ax: u32 = ((byte_at(code, 1) as u32) << 16u32) | ((byte_at(code, 2) as u32) << 8u32)
            | (byte_at(code, 3) as u32);
        (((ax >> 18u32) & 0x1fu32) + ((ax >> 13u32) & 0x1fu32) + ((ax >> 12u32) & 0x1u32) + ((ax
            >> 7u32) & 0x1fu32) + 1) as u32
    } else {
        0
    }
}

/// The frame that a body `m` offers to the bodies nested in it.
pub open spec fn frame_of(m: IrepView) -> UpperFrame {
    UpperFrame { lv: m.lv, nlocals: m.nlocals, argc: spec_irep_argc(m.iseq) }
}

/// Register `v` of a body with `argc` arguments and `nlocals` locals may
/// hold a local that lives further out: it is a local, and not an argument.
pub open spec fn potential_upvar(v: u16, argc: u32, nlocals: u16) -> bool {
    v < nlocals && v >= argc + 1
}

/// The name of the `k`-th entry of a local table; `None` when there is no
/// such entry.
pub open spec fn lv_name(lv: Option<Seq<mrb_locals>>, k: int) -> Option<u32> {
    match lv {
        Some(t) => if 0 <= k < t.len() {
            Some(t[k].name)
        } else {
            None
        },
        None => None,
    }
}

/// The first slot at or after `pos`, below `limit`, of table `t` that names `sym`.
pub open spec fn slot_from(t: Seq<mrb_locals>, limit: int, sym: u32, pos: int) -> Option<int>
    decreases limit - pos,
{
    if pos < 0 || pos >= limit {
        None
    } else if t[pos].name == sym {
        Some(pos)
    } else {
        slot_from(t, limit, sym, pos + 1)
    }
}

/// The first slot of the local table of a body with `nlocals` locals that
/// names `sym`.
pub open spec fn local_slot(lv: Option<Seq<mrb_locals>>, nlocals: u16, sym: u32) -> Option<int> {
    match lv {
        Some(t) => slot_from(t, nlocals - 1, sym, 0),
        None => None,
    }
}

/// The operand of an up-level access to slot `pos` of the closure `level`
/// steps out, seen from a body nested `bnest` deep: the slot (counted from
/// 1) in the high byte, the distance in the low byte, kept to 16 bits.
pub open spec fn upvar_code(pos: int, level: int, bnest: int) -> u16 {
    ((((pos + 1) * 256) % 65536) as u16) | (((level + bnest) % 65536) as u16)
}

/// Where `sym` lives among the enclosing closures from `level` outwards
/// (`closures[0]` is the innermost), as an up-level operand; 0 when no
/// closure has a local of that name.
pub open spec fn upvar_ref(closures: Seq<mrb_irep>, sym: u32, bnest: int, level: int) -> u16
    decreases closures.len() - level,
{
    if level < 0 || level >= closures.len() {
        0
    } else {
        match local_slot(lv_view(closures[level].lv), closures[level].nlocals, sym) {
            Some(pos) => upvar_code(pos, level, bnest),
            None => upvar_ref(closures, sym, bnest, level + 1),
        }
    }
}

/// Every enclosing closure's local table covers its locals.
pub open spec fn closures_ok(closures: Seq<mrb_irep>) -> bool {
    forall|l: int|
        0 <= l < closures.len() ==> match (#[trigger] closures[l]).lv {
            Some(t) => t@.len() + 1 >= closures[l].nlocals,
            None => true,
        }
}

/// Which of the `depth` enclosing bodies (outermost first) an up-level
/// access `lev` levels out refers to; one too far out means the parent.
pub open spec fn upper_index(depth: int, lev: int) -> int {
    if lev <= depth {
        depth - lev
    } else {
        depth - 1
    }
}

/// The instruction at `i` rewritten to read the up-level variable `arg`.
pub open spec fn upvar_get(code: Seq<u8>, i: int, arg: u16) -> Seq<u8> {
    code.update(i, OP_GETUPVAR).update(i + 2, (arg >> 8u16) as u8).update(
        i + 3,
        (arg & 0xffu16) as u8,
    )
}

/// The instruction at `i` rewritten to store register `a` into the
/// up-level variable `arg`.
pub open spec fn upvar_set(code: Seq<u8>, i: int, a: u8, arg: u16) -> Seq<u8> {
    code.update(i, OP_SETUPVAR).update(i + 1, a).update(i + 2, (arg >> 8u16) as u8).update(
        i + 3,
        (arg & 0xffu16) as u8,
    )
}

/// What patching does at one instruction.
pub enum PatchStep {
    /// The instruction reads outside the body or its tables.
    Undefined,
    /// The instruction creates the nested body with this index, which is
    /// patched in turn.
    Nested(int),
    /// The body's code after this instruction was looked at.
    Code(Seq<u8>),
}

/// `OP_MOVE a b` at `i`: a source that lives further out becomes an
/// up-level read, then a destination that lives further out becomes an
/// up-level write of `b`.
pub open spec fn move_step(
    m: IrepView,
    i: int,
    closures: Seq<mrb_irep>,
    depth: int,
    argc: u32,
) -> PatchStep {
    let code = m.iseq;
    let a = code[i + 1];
    let b = code[i + 2];
    let src: Option<Seq<u8>> = if potential_upvar(b as u16, argc, m.nlocals) {
        match lv_name(m.lv, b - 1) {
            None => None,
            Some(name) => {
                let arg = upvar_ref(closures, name, depth, 0);
                if arg == 0 {
                    Some(code)
                } else if i + 3 < code.len() {
                    Some(upvar_get(code, i, arg))
                } else {
                    None
                }
            },
        }
    } else {
        Some(code)
    };
    match src {
        None => PatchStep::Undefined,
        Some(code1) => if potential_upvar(a as u16, argc, m.nlocals) {
            match lv_name(m.lv, a - 1) {
                None => PatchStep::Undefined,
                Some(name) => {
                    let arg = upvar_ref(closures, name, depth, 0);
                    if arg == 0 {
                        PatchStep::Code(code1)
                    } else if i + 3 < code.len() {
                        PatchStep::Code(upvar_set(code1, i, b, arg))
                    } else {
                        PatchStep::Undefined
                    }
                },
            }
        } else {
            PatchStep::Code(code1)
        },
    }
}

/// `OP_GETUPVAR` / `OP_SETUPVAR` at `i`: the variable it names in an
/// enclosing body may itself live further out, in an enclosing closure.
pub open spec fn upvar_step(
    m: IrepView,
    i: int,
    closures: Seq<mrb_irep>,
    uppers: Seq<UpperFrame>,
) -> PatchStep {
    let code = m.iseq;
    let depth = uppers.len() as int;
    let a = code[i + 1];
    let b = code[i + 2];
    let c = code[i + 3];
    let f = uppers[upper_index(depth, c + 1)];
    if potential_upvar(b as u16, f.argc, f.nlocals) {
        match lv_name(f.lv, b - 1) {
            None => PatchStep::Undefined,
            Some(name) => {
                let arg = upvar_ref(closures, name, depth, 0);
                if arg == 0 {
                    PatchStep::Code(code)
                } else if code[i] == OP_GETUPVAR {
                    PatchStep::Code(upvar_get(code, i, arg))
                } else {
                    PatchStep::Code(upvar_set(code, i, a, arg))
                }
            },
        }
    } else {
        PatchStep::Code(code)
    }
}

/// What patching does at the instruction at `i` of body `m`, nested below
/// the bodies `uppers` (outermost first), whose own argument count is `argc`.
pub open spec fn patch_step(
    m: IrepView,
    i: int,
    closures: Seq<mrb_irep>,
    uppers: Seq<UpperFrame>,
    argc: u32,
) -> PatchStep {
    let code = m.iseq;
    let n = code.len();
    let op = code[i];
    let depth = uppers.len() as int;
    if op > OP_STOP {
        PatchStep::Undefined
    } else if is_ext_prefix(op) {
        if i + 1 < n && code[i + 1] <= OP_STOP {
            PatchStep::Code(code)
        } else {
            PatchStep::Undefined
        }
    } else if op == OP_EPUSH {
        if i + 1 < n && (code[i + 1] as int) < m.reps.len() {
            PatchStep::Nested(code[i + 1] as int)
        } else {
            PatchStep::Undefined
        }
    } else if op == OP_LAMBDA || op == OP_BLOCK {
        if i + 2 < n && (code[i + 2] as int) < m.reps.len() {
            PatchStep::Nested(code[i + 2] as int)
        } else {
            PatchStep::Undefined
        }
    } else if op == OP_SEND {
        if i + 3 >= n {
            PatchStep::Undefined
        } else if code[i + 3] != 0 {
            PatchStep::Code(code)
        } else if code[i + 2] as int >= m.syms.len() {
            PatchStep::Undefined
        } else {
            let arg = upvar_ref(closures, m.syms[code[i + 2] as int], depth, 0);
            if arg != 0 {
                PatchStep::Code(upvar_get(code, i, arg))
            } else {
                PatchStep::Code(code)
            }
        }
    } else if op == OP_MOVE {
        if i + 2 >= n {
            PatchStep::Undefined
        } else {
            move_step(m, i, closures, depth, argc)
        }
    } else if op == OP_GETUPVAR || op == OP_SETUPVAR {
        if i + 3 >= n || depth == 0 {
            PatchStep::Undefined
        } else {
            upvar_step(m, i, closures, uppers)
        }
    } else {
        PatchStep::Code(code)
    }
}

/// Rewriting an instruction never changes the length of the code.
pub proof fn lemma_step_keeps_len(
    m: IrepView,
    i: int,
    closures: Seq<mrb_irep>,
    uppers: Seq<UpperFrame>,
    argc: u32,
)
    requires
        0 <= i < m.iseq.len(),
    ensures
        patch_step(m, i, closures, uppers, argc) matches PatchStep::Code(code) ==> code.len()
            == m.iseq.len(),
{
}

/// Patching an up-level access keeps its direction and its register: an
/// `OP_SETUPVAR` stays a write of the same register and an `OP_GETUPVAR` a
/// read into the same register.  Only its two variable bytes may change, and
/// nothing else in the code.
pub proof fn lemma_upvar_patch_keeps_direction(
    m: IrepView,
    i: int,
    closures: Seq<mrb_irep>,
    uppers: Seq<UpperFrame>,
    argc: u32,
)
    requires
        0 <= i < m.iseq.len(),
        m.iseq[i] == OP_GETUPVAR || m.iseq[i] == OP_SETUPVAR,
    ensures
        patch_step(m, i, closures, uppers, argc) matches PatchStep::Code(code) ==> {
            &&& code.len() == m.iseq.len()
            &&& code[i] == m.iseq[i]
            &&& code[i + 1] == m.iseq[i + 1]
            &&& forall|k: int|
                0 <= k < code.len() && (k < i + 2 || k > i + 3) ==> #[trigger] code[k] == m.iseq[k]
        },
{
}

/// Patching `OP_MOVE a b` gives a move, an up-level read into `a`, or an
/// up-level write of `b`; a write only where `a` is a local that may live
/// further out, a read only where `b` is.  Nothing past the instruction's
/// four bytes changes, nor anything before it.
pub proof fn lemma_move_patch(
    m: IrepView,
    i: int,
    closures: Seq<mrb_irep>,
    uppers: Seq<UpperFrame>,
    argc: u32,
)
    requires
        0 <= i < m.iseq.len(),
        m.iseq[i] == OP_MOVE,
    ensures
        patch_step(m, i, closures, uppers, argc) matches PatchStep::Code(code) ==> {
            &&& code.len() == m.iseq.len()
            &&& code[i] == OP_MOVE || code[i] == OP_GETUPVAR || code[i] == OP_SETUPVAR
            &&& code[i] == OP_MOVE ==> code == m.iseq
            &&& code[i] == OP_SETUPVAR ==> potential_upvar(m.iseq[i + 1] as u16, argc, m.nlocals)
                && code[i + 1] == m.iseq[i + 2]
            &&& code[i] == OP_GETUPVAR ==> potential_upvar(m.iseq[i + 2] as u16, argc, m.nlocals)
                && code[i + 1] == m.iseq[i + 1]
            &&& forall|k: int|
                0 <= k < code.len() && (k < i || k > i + 3) ==> #[trigger] code[k] == m.iseq[k]
        },
{
}

/// A call without arguments of a name that lives in an enclosing closure
/// becomes an up-level read into the call's register, with the variable's
/// place as operand; a call with arguments, or of another name, is left
/// alone.
pub proof fn lemma_send_patch(
    m: IrepView,
    i: int,
    closures: Seq<mrb_irep>,
    uppers: Seq<UpperFrame>,
    argc: u32,
)
    requires
        0 <= i,
        i + 3 < m.iseq.len(),
        m.iseq[i] == OP_SEND,
        (m.iseq[i + 2] as int) < m.syms.len(),
    ensures
        ({
            let arg = upvar_ref(closures, m.syms[m.iseq[i + 2] as int], uppers.len() as int, 0);
            patch_step(m, i, closures, uppers, argc) == PatchStep::Code(
                if m.iseq[i + 3] == 0 && arg != 0 {
                    m.iseq.update(i, OP_GETUPVAR).update(i + 2, (arg >> 8u16) as u8).update(
                        i + 3,
                        (arg & 0xffu16) as u8,
                    )
                } else {
                    m.iseq
                },
            )
        }),
{
}

/// The operand of an up-level access holds the variable's slot, counted
/// from 1, in its high byte and the number of bodies out in its low byte.
pub proof fn lemma_upvar_code_fields(pos: int, level: int, bnest: int)
    requires
        0 <= pos < 255,
        0 <= level,
        0 <= bnest,
        level + bnest < 256,
    ensures
        upvar_code(pos, level, bnest) >> 8u16 == pos + 1,
        upvar_code(pos, level, bnest) & 0xffu16 == level + bnest,
{
    let hi = (((pos + 1) * 256) % 65536) as u16;
    let lo = ((level + bnest) % 65536) as u16;
    assert(hi == (pos + 1) * 256);
    assert(lo == level + bnest);
    let p1 = (pos + 1) as u16;
    assert(hi == p1 * 256);
    assert(((hi | lo) >> 8u16) == p1 && ((hi | lo) & 0xffu16) == lo) by (bit_vector)
        requires
            hi == p1 * 256,
            p1 < 256,
            lo < 256,
    ;
}

/// `m` with its code replaced by `code`.
pub open spec fn with_code(m: IrepView, code: Seq<u8>) -> IrepView {
    IrepView { iseq: code, ..m }
}

/// `m` with its `j`-th nested body replaced by `c`.
pub open spec fn with_rep(m: IrepView, j: int, c: IrepView) -> IrepView {
    IrepView { reps: m.reps.update(j, c), ..m }
}

/// Patching body `m` from instruction `i` on; `shape` is the body as it was
/// before any patching (it bounds the recursion).  `None` when some
/// instruction reads outside the body or its tables.
pub open spec fn patch_walk(
    shape: IrepView,
    m: IrepView,
    i: int,
    closures: Seq<mrb_irep>,
    uppers: Seq<UpperFrame>,
    argc: u32,
) -> Option<IrepView>
    decreases shape, if i < m.iseq.len() { m.iseq.len() - i } else { 0 },
{
    if i < 0 || i >= m.iseq.len() {
        Some(m)
    } else {
        match patch_step(m, i, closures, uppers, argc) {
            PatchStep::Undefined => None,
            PatchStep::Nested(j) => if 0 <= j < shape.reps.len() && j < m.reps.len() {
                match patch_tree(shape.reps[j], m.reps[j], closures, uppers.push(frame_of(m))) {
                    None => None,
                    Some(c) => patch_walk(
                        shape,
                        with_rep(m, j, c),
                        i + spec_insn_len(m.iseq, i),
                        closures,
                        uppers,
                        argc,
                    ),
                }
            } else {
                None
            },
            PatchStep::Code(code) => {
                proof {
                    lemma_step_keeps_len(m, i, closures, uppers, argc);
                }
                patch_walk(
                    shape,
                    with_code(m, code),
                    i + spec_insn_len(code, i),
                    closures,
                    uppers,
                    argc,
                )
            },
        }
    }
}

/// Patching the whole of body `m`, nested below the bodies `uppers`.  A body
/// with no code, or one that starts with an `OP_ENTER` cut short, cannot be
/// read for its argument count.
pub open spec fn patch_tree(
    shape: IrepView,
    m: IrepView,
    closures: Seq<mrb_irep>,
    uppers: Seq<UpperFrame>,
) -> Option<IrepView>
    decreases shape, m.iseq.len() + 1,
{
    if m.iseq.len() == 0 || (m.iseq[0] == OP_ENTER && m.iseq.len() < 4) {
        None
    } else {
        patch_walk(shape, m, 0, closures, uppers, spec_irep_argc(m.iseq))
    }
}

/// The result of patching the body `ir` compiled by `eval`, run inside the
/// closures `closures` (innermost first); `None` when some instruction
/// reads outside the body or its tables.
pub open spec fn patched(ir: mrb_irep, closures: Seq<mrb_irep>) -> Option<IrepView> {
    patch_tree(irep_view(ir), irep_view(ir), closures, Seq::empty())
}

/// The argument count that the `OP_ENTER` at the start of `code` records
/// (see [`spec_irep_argc`]); 0 when the body starts otherwise.
pub fn irep_argc(code: &Vec<u8>) -> (r: u32)
    ensures
        r == spec_irep_argc(code@),
{
    if code.len() > 0 && code[0] == OP_ENTER {
        let b1: u32 = if code.len() > 1 { code[1] as u32 } else { 0 };
        let b2: u32 = if code.len() > 2 { code[2] as u32 } else { 0 };
        let b3: u32 = if code.len() > 3 { code[3] as u32 } else { 0 };
        let ax: u32 = (b1 << 16u32) | (b2 << 8u32) | b3;
        let req = (ax >> 18u32) & 0x1fu32;
        let opt = (ax >> 13u32) & 0x1fu32;
        let rest = (ax >> 12u32) & 0x1u32;
        let post = (ax >> 7u32) & 0x1fu32;
        assert(req <= 0x1f && opt <= 0x1f && rest <= 1 && post <= 0x1f) by (bit_vector)
            requires
                req == (ax >> 18u32) & 0x1fu32,
                opt == (ax >> 13u32) & 0x1fu32,
                rest == (ax >> 12u32) & 0x1u32,
                post == (ax >> 7u32) & 0x1fu32,
        ;
        req + opt + rest + post + 1
    } else {
        0
    }
}

/// Whether register `v` of a body with `argc` arguments and `nlocals`
/// locals may hold a local that lives further out.
pub fn potential_upvar_p(v: u16, argc: u32, nlocals: u16) -> (r: bool)
    ensures
        r == potential_upvar(v, argc, nlocals),
{
    if v >= nlocals {
        return false;
    }
    if (v as u64) < (argc as u64) + 1 {
        return false;
    }
    true
}

/// The up-level operand for slot `pos` of the closure `level` steps out,
/// seen from `bnest` levels deep.
fn upvar_operand(pos: usize, level: usize, bnest: usize) -> (r: u16)
    requires
        pos < 65535,
    ensures
        r == upvar_code(pos as int, level as int, bnest as int),
{
    let hi: u16 = ((((pos as u64) + 1) * 256) % 65536) as u16;
    let lo: u16 = (((level % 65536) + (bnest % 65536)) % 65536) as u16;
    proof {
        vstd::arithmetic::div_mod::lemma_add_mod_noop(level as int, bnest as int, 65536);
    }
    hi | lo
}

/// Looks for a local named `sym` in the enclosing closures, innermost
/// first, and returns the up-level operand of the first slot found, seen
/// from `bnest` levels deep; 0 when none has it.
pub fn search_variable(closures: &Vec<mrb_irep>, sym: u32, bnest: usize) -> (r: u16)
    requires
        closures_ok(closures@),
    ensures
        r == upvar_ref(closures@, sym, bnest as int, 0),
{
    let mut level: usize = 0;
    while level < closures.len()
        invariant
            level <= closures@.len(),
            closures_ok(closures@),
            upvar_ref(closures@, sym, bnest as int, 0) == upvar_ref(
                closures@,
                sym,
                bnest as int,
                level as int,
            ),
        decreases closures@.len() - level,
    {
        let virep = &closures[level];
        if let Some(t) = &virep.lv {
            let limit: usize = if virep.nlocals > 0 { (virep.nlocals - 1) as usize } else { 0 };
            assert(closures@[level as int] == *virep);
            let ghost glimit: int = virep.nlocals - 1;
            let mut pos: usize = 0;
            while pos < limit
                invariant
                    pos <= limit,
                    limit == if glimit >= 0 { glimit } else { 0 },
                    t@.len() + 1 >= virep.nlocals,
                    glimit == virep.nlocals - 1,
                    lv_view(virep.lv) == Some(t@),
                    level < closures@.len(),
                    closures@[level as int] == *virep,
                    upvar_ref(closures@, sym, bnest as int, 0) == upvar_ref(
                        closures@,
                        sym,
                        bnest as int,
                        level as int,
                    ),
                    slot_from(t@, glimit, sym, 0) == slot_from(t@, glimit, sym, pos as int),
                decreases limit - pos,
            {
                if t[pos].name == sym {
                    proof {
                        assert(slot_from(t@, glimit, sym, pos as int) == Some(pos as int));
                        assert(local_slot(lv_view(virep.lv), virep.nlocals, sym) == Some(
                            pos as int,
                        ));
                    }
                    return upvar_operand(pos, level, bnest);
                }
                pos = pos + 1;
            }
            proof {
                assert(slot_from(t@, glimit, sym, pos as int) is None);
                assert(local_slot(lv_view(virep.lv), virep.nlocals, sym) is None);
            }
        }
        level = level + 1;
    }
    0
}

/// Which enclosing body (index into the `depth` enclosing bodies, outermost
/// first) an up-level access `lev` levels out refers to.
pub fn search_irep(depth: usize, lev: usize) -> (r: usize)
    requires
        depth > 0,
        lev > 0,
    ensures
        r == upper_index(depth as int, lev as int),
        r < depth,
{
    if lev <= depth {
        depth - lev
    } else {
        depth - 1
    }
}

/// An enclosing body, as the bodies nested in it see it while they are
/// patched.
pub struct EnclosingScope {
    pub lv: Option<Vec<mrb_locals>>,
    pub nlocals: u16,
    pub argc: u32,
}

impl View for EnclosingScope {
    type V = UpperFrame;

    open spec fn view(&self) -> UpperFrame {
        UpperFrame { lv: lv_view(self.lv), nlocals: self.nlocals, argc: self.argc }
    }
}

/// The frames of a stack of enclosing bodies.
pub open spec fn frames(uppers: Seq<EnclosingScope>) -> Seq<UpperFrame> {
    uppers.map_values(|e: EnclosingScope| e@)
}

fn copy_lv(lv: &Option<Vec<mrb_locals>>) -> (r: Option<Vec<mrb_locals>>)
    ensures
        lv_view(r) == lv_view(*lv),
{
    match lv {
        None => None,
        Some(t) => {
            let mut out: Vec<mrb_locals> = Vec::new();
            let mut k: usize = 0;
            while k < t.len()
                invariant
                    k <= t@.len(),
                    out@ == t@.subrange(0, k as int),
                decreases t@.len() - k,
            {
                out.push(t[k]);
                k = k + 1;
                proof {
                    assert(out@ =~= t@.subrange(0, k as int));
                }
            }
            proof {
                assert(out@ =~= t@);
            }
            Some(out)
        },
    }
}

/// Rewrites the instruction at `i` into a read of the up-level variable `arg`.
fn rewrite_get(code: &mut Vec<u8>, i: usize, arg: u16)
    requires
        i + 3 < old(code)@.len(),
    ensures
        final(code)@ == upvar_get(old(code)@, i as int, arg),
{
    proof {
        vstd::std_specs::vec::axiom_spec_len(&*code);
    }
    code.set(i, OP_GETUPVAR);
    code.set(i + 2, (arg >> 8u16) as u8);
    code.set(i + 3, (arg & 0xffu16) as u8);
}

/// Rewrites the instruction at `i` into a store of register `a` into the
/// up-level variable `arg`.
fn rewrite_set(code: &mut Vec<u8>, i: usize, a: u8, arg: u16)
    requires
        i + 3 < old(code)@.len(),
    ensures
        final(code)@ == upvar_set(old(code)@, i as int, a, arg),
{
    proof {
        vstd::std_specs::vec::axiom_spec_len(&*code);
    }
    code.set(i, OP_SETUPVAR);
    code.set(i + 1, a);
    code.set(i + 2, (arg >> 8u16) as u8);
    code.set(i + 3, (arg & 0xffu16) as u8);
}

/// Why a body could not be patched.
#[derive(Clone, Copy, Debug, PartialEq, Eq, Structural)]
pub enum PatchError {
    /// An instruction of the body, or of a body nested in it, reads outside
    /// the code, the symbol table, the nested bodies or a local table, or
    /// is no known opcode.
    MalformedBody,
    /// The local table of an enclosing closure is shorter than its locals.
    MalformedClosure,
}

/// `OP_SEND a b 0` at `i`: a call without arguments whose method name is a
/// local of an enclosing closure is really that variable.
fn patch_send(
    irep: &mut mrb_irep,
    i: usize,
    closures: &Vec<mrb_irep>,
    depth: usize,
    Ghost(fr): Ghost<Seq<UpperFrame>>,
    Ghost(argc): Ghost<u32>,
) -> (r: Result<(), PatchError>)
    requires
        closures_ok(closures@),
        fr.len() == depth,
        i < old(irep).iseq@.len(),
        old(irep).iseq@[i as int] == OP_SEND,
    ensures
        r is Err <==> patch_step(irep_view(*old(irep)), i as int, closures@, fr, argc) is Undefined,
        r is Ok ==> irep_view(*final(irep)) == with_code(irep_view(*old(irep)), final(irep).iseq@),
        r is Ok ==> patch_step(irep_view(*old(irep)), i as int, closures@, fr, argc)
            == PatchStep::Code(final(irep).iseq@),
{
    let n = irep.iseq.len();
    if n - i <= 3 {
        return Err(PatchError::MalformedBody);
    }
    let b = irep.iseq[i + 2];
    let c = irep.iseq[i + 3];
    if c == 0 {
        if b as usize >= irep.syms.len() {
            return Err(PatchError::MalformedBody);
        }
        let arg = search_variable(closures, irep.syms[b as usize], depth);
        if arg != 0 {
            rewrite_get(&mut irep.iseq, i, arg);
        }
    }
    Ok(())
}

/// `OP_MOVE a b` at `i`: a source or destination register that holds a
/// local of an enclosing closure becomes an up-level access.
fn patch_move(
    irep: &mut mrb_irep,
    i: usize,
    closures: &Vec<mrb_irep>,
    depth: usize,
    argc: u32,
    Ghost(fr): Ghost<Seq<UpperFrame>>,
) -> (r: Result<(), PatchError>)
    requires
        closures_ok(closures@),
        fr.len() == depth,
        i < old(irep).iseq@.len(),
        old(irep).iseq@[i as int] == OP_MOVE,
    ensures
        r is Err <==> patch_step(irep_view(*old(irep)), i as int, closures@, fr, argc) is Undefined,
        r is Ok ==> irep_view(*final(irep)) == with_code(irep_view(*old(irep)), final(irep).iseq@),
        r is Ok ==> patch_step(irep_view(*old(irep)), i as int, closures@, fr, argc)
            == PatchStep::Code(final(irep).iseq@),
{
    let n = irep.iseq.len();
    if n - i <= 2 {
        return Err(PatchError::MalformedBody);
    }
    let a = irep.iseq[i + 1];
    let b = irep.iseq[i + 2];
    if potential_upvar_p(b as u16, argc, irep.nlocals) {
        match &irep.lv {
            None => {
                return Err(PatchError::MalformedBody);
            },
            Some(t) => {
                if (b - 1) as usize >= t.len() {
                    return Err(PatchError::MalformedBody);
                }
                let arg = search_variable(closures, t[(b - 1) as usize].name, depth);
                if arg != 0 {
                    if n - i <= 3 {
                        return Err(PatchError::MalformedBody);
                    }
                    rewrite_get(&mut irep.iseq, i, arg);
                }
            },
        }
    }
    if potential_upvar_p(a as u16, argc, irep.nlocals) {
        match &irep.lv {
            None => {
                return Err(PatchError::MalformedBody);
            },
            Some(t) => {
                if (a - 1) as usize >= t.len() {
                    return Err(PatchError::MalformedBody);
                }
                let arg = search_variable(closures, t[(a - 1) as usize].name, depth);
                if arg != 0 {
                    if n - i <= 3 {
                        return Err(PatchError::MalformedBody);
                    }
                    rewrite_set(&mut irep.iseq, i, b, arg);
                }
            },
        }
    }
    Ok(())
}

/// `OP_GETUPVAR a b c` / `OP_SETUPVAR a b c` at `i`: the variable it names
/// in an enclosing body may itself live in an enclosing closure.
fn patch_upvar(
    irep: &mut mrb_irep,
    i: usize,
    closures: &Vec<mrb_irep>,
    uppers: &Vec<EnclosingScope>,
    Ghost(argc): Ghost<u32>,
) -> (r: Result<(), PatchError>)
    requires
        closures_ok(closures@),
        i < old(irep).iseq@.len(),
        old(irep).iseq@[i as int] == OP_GETUPVAR || old(irep).iseq@[i as int] == OP_SETUPVAR,
    ensures
        r is Err <==> patch_step(irep_view(*old(irep)), i as int, closures@, frames(uppers@), argc)
            is Undefined,
        r is Ok ==> irep_view(*final(irep)) == with_code(irep_view(*old(irep)), final(irep).iseq@),
        r is Ok ==> patch_step(irep_view(*old(irep)), i as int, closures@, frames(uppers@), argc)
            == PatchStep::Code(final(irep).iseq@),
{
    let n = irep.iseq.len();
    let depth = uppers.len();
    assert(frames(uppers@).len() == depth);
    if n - i <= 3 || depth == 0 {
        return Err(PatchError::MalformedBody);
    }
    let op = irep.iseq[i];
    let a = irep.iseq[i + 1];
    let b = irep.iseq[i + 2];
    let c = irep.iseq[i + 3];
    let idx = search_irep(depth, c as usize + 1);
    let f = &uppers[idx];
    assert(frames(uppers@)[idx as int] == f@);
    if potential_upvar_p(b as u16, f.argc, f.nlocals) {
        match &f.lv {
            None => {
                return Err(PatchError::MalformedBody);
            },
            Some(t) => {
                if (b - 1) as usize >= t.len() {
                    return Err(PatchError::MalformedBody);
                }
                let arg = search_variable(closures, t[(b - 1) as usize].name, depth);
                if arg != 0 {
                    if op == OP_GETUPVAR {
                        rewrite_get(&mut irep.iseq, i, arg);
                    } else {
                        rewrite_set(&mut irep.iseq, i, a, arg);
                    }
                }
            },
        }
    }
    Ok(())
}

/// Replacing the code of `m` by code of the same length only changes code.
proof fn lemma_with_code_only_code(m: IrepView, code: Seq<u8>)
    requires
        code.len() == m.iseq.len(),
    ensures
        only_code_differs(m, with_code(m, code)),
{
    lemma_only_code_refl(m);
}

/// Replacing a nested body by one that differs from it only in code only
/// changes code.
proof fn lemma_with_rep_only_code(m: IrepView, j: int, c: IrepView)
    requires
        0 <= j < m.reps.len(),
        only_code_differs(m.reps[j], c),
    ensures
        only_code_differs(m, with_rep(m, j, c)),
{
    let m2 = with_rep(m, j, c);
    assert forall|k: int| 0 <= k < m.reps.len() implies only_code_differs(
        #[trigger] m.reps[k],
        m2.reps[k],
    ) by {
        if k != j {
            lemma_only_code_refl(m.reps[k]);
        }
    }
}

/// Patches `irep`, nested below the bodies `uppers` (outermost first), and
/// every body nested in it; `shape` is `irep` as it was before any patching.
/// Fails, possibly after rewriting part of the code, exactly when the
/// patch reads outside a body or its tables.
fn patch_nested(
    irep: &mut mrb_irep,
    Ghost(shape): Ghost<IrepView>,
    uppers: &mut Vec<EnclosingScope>,
    closures: &Vec<mrb_irep>,
) -> (r: Result<(), PatchError>)
    requires
        closures_ok(closures@),
        only_code_differs(shape, irep_view(*old(irep))),
    ensures
        r is Ok <==> patch_tree(shape, irep_view(*old(irep)), closures@, frames(old(uppers)@)) is Some,
        r is Ok ==> patch_tree(shape, irep_view(*old(irep)), closures@, frames(old(uppers)@))
            == Some(irep_view(*final(irep))),
        r is Err ==> r == Err::<(), PatchError>(PatchError::MalformedBody),
        final(uppers)@ == old(uppers)@,
    decreases shape,
{
    let ghost fr = frames(uppers@);
    let ghost target = patch_tree(shape, irep_view(*irep), closures@, fr);
    let n = irep.iseq.len();
    if n == 0 || (irep.iseq[0] == OP_ENTER && n < 4) {
        return Err(PatchError::MalformedBody);
    }
    let argc = irep_argc(&irep.iseq);
    let mut i: usize = 0;
    while i < irep.iseq.len()
        invariant_except_break
            patch_walk(shape, irep_view(*irep), i as int, closures@, fr, argc) == target,
            only_code_differs(shape, irep_view(*irep)),
        invariant
            closures_ok(closures@),
            uppers@ == old(uppers)@,
            fr == frames(uppers@),
            target == patch_tree(shape, irep_view(*old(irep)), closures@, frames(old(uppers)@)),
        ensures
            target == Some(irep_view(*irep)),
        decreases if i < irep.iseq@.len() {
            irep.iseq@.len() - i
        } else {
            0
        },
    {
        let ghost m = irep_view(*irep);
        let len = irep.iseq.len();
        let op = irep.iseq[i];
        let depth = uppers.len();
        if op > OP_STOP {
            assert(patch_step(m, i as int, closures@, fr, argc) is Undefined);
            assert(patch_walk(shape, m, i as int, closures@, fr, argc) is None);
            return Err(PatchError::MalformedBody);
        }
        if op == OP_EXT1 || op == OP_EXT2 || op == OP_EXT3 {
            if len - i <= 1 || irep.iseq[i + 1] > OP_STOP {
                return Err(PatchError::MalformedBody);
            }
            assert(patch_step(m, i as int, closures@, fr, argc) == PatchStep::Code(m.iseq));
            proof {
                lemma_with_code_only_code(m, m.iseq);
                lemma_only_code_trans(shape, m, with_code(m, m.iseq));
            }
        } else if op == OP_EPUSH || op == OP_LAMBDA || op == OP_BLOCK {
            if (op == OP_EPUSH && len - i <= 1) || (op != OP_EPUSH && len - i <= 2) {
                return Err(PatchError::MalformedBody);
            }
            let b: usize = if op == OP_EPUSH {
                irep.iseq[i + 1] as usize
            } else {
                irep.iseq[i + 2] as usize
            };
            if b >= irep.reps.len() {
                return Err(PatchError::MalformedBody);
            }
            assert(patch_step(m, i as int, closures@, fr, argc) == PatchStep::Nested(b as int));
            let frame = EnclosingScope {
                lv: copy_lv(&irep.lv),
                nlocals: irep.nlocals,
                argc: irep_argc(&irep.iseq),
            };
            uppers.push(frame);
            proof {
                assert(frames(uppers@) =~= fr.push(frame_of(m)));
                assert(m.reps[b as int] == irep_view(irep.reps@[b as int]));
                assert(only_code_differs(shape.reps[b as int], m.reps[b as int]));
            }
            let ghost child0 = irep_view(irep.reps@[b as int]);
            let rc = patch_nested(&mut irep.reps[b], Ghost(shape.reps[b as int]), uppers, closures);
            let _ = uppers.pop();
            proof {
                assert(uppers@ =~= old(uppers)@);
            }
            if rc.is_err() {
                return Err(PatchError::MalformedBody);
            }
            proof {
                let c = irep_view(irep.reps@[b as int]);
                assert(irep_view(*irep).reps =~= m.reps.update(b as int, c));
                assert(irep_view(*irep) == with_rep(m, b as int, c));
                lemma_tree_only_code(shape.reps[b as int], child0, closures@, fr.push(frame_of(m)));
                lemma_only_code_trans(shape.reps[b as int], child0, c);
                lemma_with_rep_only_code(m, b as int, c);
                lemma_only_code_trans(shape, m, with_rep(m, b as int, c));
            }
        } else {
            if op == OP_SEND {
                let rs = patch_send(irep, i, closures, depth, Ghost(fr), Ghost(argc));
                if rs.is_err() {
                    return Err(PatchError::MalformedBody);
                }
            } else if op == OP_MOVE {
                let rs = patch_move(irep, i, closures, depth, argc, Ghost(fr));
                if rs.is_err() {
                    return Err(PatchError::MalformedBody);
                }
            } else if op == OP_GETUPVAR || op == OP_SETUPVAR {
                let rs = patch_upvar(irep, i, closures, uppers, Ghost(argc));
                if rs.is_err() {
                    assert(patch_step(m, i as int, closures@, fr, argc) is Undefined);
                    assert(patch_walk(shape, m, i as int, closures@, fr, argc) is None);
                    return Err(PatchError::MalformedBody);
                }
            } else {
                assert(patch_step(m, i as int, closures@, fr, argc) == PatchStep::Code(m.iseq));
            }
            proof {
                lemma_step_keeps_len(m, i as int, closures@, fr, argc);
                lemma_with_code_only_code(m, irep.iseq@);
                lemma_only_code_trans(shape, m, irep_view(*irep));
            }
        }
        let step = insn_len(irep.iseq.as_slice(), i);
        assert(target == patch_walk(
            shape,
            irep_view(*irep),
            i + step,
            closures@,
            fr,
            argc,
        ));
        if step >= irep.iseq.len() - i {
            // the next instruction would start past the end of the body
            assert(irep_view(*irep).iseq.len() <= i + step);
            break;
        }
        i = i + step;
    }
    Ok(())
}

/// Checks that the local table of every enclosing closure covers its locals.
fn check_closures(closures: &Vec<mrb_irep>) -> (r: bool)
    ensures
        r == closures_ok(closures@),
{
    let mut l: usize = 0;
    while l < closures.len()
        invariant
            l <= closures@.len(),
            forall|k: int|
                0 <= k < l ==> match (#[trigger] closures@[k]).lv {
                    Some(t) => t@.len() + 1 >= closures@[k].nlocals,
                    None => true,
                },
        decreases closures@.len() - l,
    {
        if let Some(t) = &closures[l].lv {
            let nlocals = closures[l].nlocals as usize;
            if nlocals > 0 && t.len() < nlocals - 1 {
                assert(!closures_ok(closures@)) by {
                    assert(closures@[l as int].lv == Some(*t));
                }
                return false;
            }
        }
        l = l + 1;
    }
    true
}

/// Prepares the body `irep`, just compiled from a string by `eval`, to run
/// inside the closures `closures` (the bodies of the blocks and method the
/// `eval` was called in, innermost first, up to the first one that is not
/// Ruby code): every access to a local that really lives in one of those
/// closures, in `irep` or in any body nested in it, becomes an up-level
/// access to it.  Fails with [`PatchError::MalformedClosure`], changing
/// nothing, when a closure's local table is short; fails with
/// [`PatchError::MalformedBody`] exactly when the patch would read outside a
/// body or its tables (the body may then be partly rewritten).
pub fn patch_irep(irep: &mut mrb_irep, closures: &Vec<mrb_irep>) -> (r: Result<(), PatchError>)
    ensures
        !closures_ok(closures@) ==> r == Err::<(), PatchError>(PatchError::MalformedClosure)
            && *final(irep) == *old(irep),
        closures_ok(closures@) ==> {
            &&& r is Ok <==> patched(*old(irep), closures@) is Some
            &&& r is Ok ==> patched(*old(irep), closures@) == Some(irep_view(*final(irep)))
            &&& r is Err ==> r == Err::<(), PatchError>(PatchError::MalformedBody)
        },
{
    if !check_closures(closures) {
        return Err(PatchError::MalformedClosure);
    }
    let mut uppers: Vec<EnclosingScope> = Vec::new();
    proof {
        assert(frames(uppers@) =~= Seq::<UpperFrame>::empty());
        lemma_only_code_refl(irep_view(*irep));
    }
    patch_nested(irep, Ghost(irep_view(*irep)), &mut uppers, closures)
}

/// Without enclosing closures no name is found further out, so walking a
/// body from `i` on changes nothing.
proof fn lemma_walk_without_closures(
    shape: IrepView,
    m: IrepView,
    i: int,
    uppers: Seq<UpperFrame>,
    argc: u32,
)
    requires
        patch_walk(shape, m, i, Seq::empty(), uppers, argc) is Some,
    ensures
        patch_walk(shape, m, i, Seq::empty(), uppers, argc) == Some(m),
    decreases shape, if i < m.iseq.len() { m.iseq.len() - i } else { 0 },
{
    let closures = Seq::<mrb_irep>::empty();
    if 0 <= i < m.iseq.len() {
        match patch_step(m, i, closures, uppers, argc) {
            PatchStep::Undefined => {},
            PatchStep::Nested(j) => {
                lemma_tree_without_closures(shape.reps[j], m.reps[j], uppers.push(frame_of(m)));
                assert(with_rep(m, j, m.reps[j]).reps =~= m.reps);
                assert(with_rep(m, j, m.reps[j]) == m);
                lemma_walk_without_closures(shape, m, i + spec_insn_len(m.iseq, i), uppers, argc);
            },
            PatchStep::Code(code) => {
                assert(code == m.iseq);
                assert(with_code(m, code) == m);
                lemma_walk_without_closures(shape, m, i + spec_insn_len(code, i), uppers, argc);
            },
        }
    }
}

/// Without enclosing closures patching a nested body changes nothing.
proof fn lemma_tree_without_closures(shape: IrepView, m: IrepView, uppers: Seq<UpperFrame>)
    requires
        patch_tree(shape, m, Seq::empty(), uppers) is Some,
    ensures
        patch_tree(shape, m, Seq::empty(), uppers) == Some(m),
    decreases shape, m.iseq.len() + 1,
{
    lemma_walk_without_closures(shape, m, 0, uppers, spec_irep_argc(m.iseq));
}

/// A body evaluated where no enclosing closure is Ruby code has no outer
/// local to reach: patching leaves it, and every body nested in it, as it was.
pub proof fn lemma_patch_without_closures(ir: mrb_irep)
    requires
        patched(ir, Seq::empty()) is Some,
    ensures
        patched(ir, Seq::empty()) == Some(irep_view(ir)),
{
    lemma_tree_without_closures(irep_view(ir), irep_view(ir), Seq::empty());
}

/// `b` differs from `a` at most in instruction bytes, in `a` and in every
/// body nested in it: every body keeps its code length, tables, counts and
/// nested bodies.
pub open spec fn only_code_differs(a: IrepView, b: IrepView) -> bool
    decreases a,
{
    &&& a.nlocals == b.nlocals
    &&& a.nregs == b.nregs
    &&& a.flags == b.flags
    &&& a.lines == b.lines
    &&& a.pool == b.pool
    &&& a.syms == b.syms
    &&& a.lv == b.lv
    &&& a.iseq.len() == b.iseq.len()
    &&& a.reps.len() == b.reps.len()
    &&& forall|j: int| 0 <= j < a.reps.len() ==> only_code_differs(#[trigger] a.reps[j], b.reps[j])
}

proof fn lemma_only_code_refl(a: IrepView)
    ensures
        only_code_differs(a, a),
    decreases a,
{
    assert forall|j: int| 0 <= j < a.reps.len() implies only_code_differs(
        #[trigger] a.reps[j],
        a.reps[j],
    ) by {
        lemma_only_code_refl(a.reps[j]);
    }
}

proof fn lemma_only_code_trans(a: IrepView, b: IrepView, c: IrepView)
    requires
        only_code_differs(a, b),
        only_code_differs(b, c),
    ensures
        only_code_differs(a, c),
    decreases a,
{
    assert forall|j: int| 0 <= j < a.reps.len() implies only_code_differs(
        #[trigger] a.reps[j],
        c.reps[j],
    ) by {
        lemma_only_code_trans(a.reps[j], b.reps[j], c.reps[j]);
    }
}

proof fn lemma_walk_only_code(
    shape: IrepView,
    m: IrepView,
    i: int,
    closures: Seq<mrb_irep>,
    uppers: Seq<UpperFrame>,
    argc: u32,
)
    requires
        patch_walk(shape, m, i, closures, uppers, argc) is Some,
    ensures
        only_code_differs(m, patch_walk(shape, m, i, closures, uppers, argc)->0),
    decreases shape, if i < m.iseq.len() { m.iseq.len() - i } else { 0 },
{
    lemma_only_code_refl(m);
    if 0 <= i < m.iseq.len() {
        match patch_step(m, i, closures, uppers, argc) {
            PatchStep::Undefined => {},
            PatchStep::Nested(j) => {
                let c = patch_tree(shape.reps[j], m.reps[j], closures, uppers.push(frame_of(m)))->0;
                lemma_tree_only_code(shape.reps[j], m.reps[j], closures, uppers.push(frame_of(m)));
                let m2 = with_rep(m, j, c);
                assert forall|k: int| 0 <= k < m.reps.len() implies only_code_differs(
                    #[trigger] m.reps[k],
                    m2.reps[k],
                ) by {
                    lemma_only_code_refl(m.reps[k]);
                }
                let n = i + spec_insn_len(m.iseq, i);
                lemma_walk_only_code(shape, m2, n, closures, uppers, argc);
                lemma_only_code_trans(m, m2, patch_walk(shape, m2, n, closures, uppers, argc)->0);
            },
            PatchStep::Code(code) => {
                lemma_step_keeps_len(m, i, closures, uppers, argc);
                let m2 = with_code(m, code);
                assert forall|k: int| 0 <= k < m.reps.len() implies only_code_differs(
                    #[trigger] m.reps[k],
                    m2.reps[k],
                ) by {
                    lemma_only_code_refl(m.reps[k]);
                }
                let n = i + spec_insn_len(code, i);
                lemma_walk_only_code(shape, m2, n, closures, uppers, argc);
                lemma_only_code_trans(m, m2, patch_walk(shape, m2, n, closures, uppers, argc)->0);
            },
        }
    }
}

proof fn lemma_tree_only_code(
    shape: IrepView,
    m: IrepView,
    closures: Seq<mrb_irep>,
    uppers: Seq<UpperFrame>,
)
    requires
        patch_tree(shape, m, closures, uppers) is Some,
    ensures
        only_code_differs(m, patch_tree(shape, m, closures, uppers)->0),
    decreases shape, m.iseq.len() + 1,
{
    lemma_walk_only_code(shape, m, 0, closures, uppers, spec_irep_argc(m.iseq));
}

/// Patching only rewrites instruction bytes: every body keeps the length of
/// its code, its literal and symbol tables, its local table, its counts and
/// its nested bodies.
pub proof fn lemma_patch_only_code(ir: mrb_irep, closures: Seq<mrb_irep>)
    requires
        patched(ir, closures) is Some,
    ensures
        only_code_differs(irep_view(ir), patched(ir, closures)->0),
{
    lemma_tree_only_code(irep_view(ir), irep_view(ir), closures, Seq::empty());
}

/// The message of the `SyntaxError` raised when the string given to `eval`
/// does not parse: `"file F line L: M"`, or `"line L: M"` when no file name
/// was given.
pub open spec fn syntax_error_text(file: Option<Seq<u8>>, line: i32, msg: Seq<u8>) -> Seq<u8> {
    let tail = decimal(line as int) + seq![58u8, 32u8] + msg;
    match file {
        Some(f) => seq![102u8, 105u8, 108u8, 101u8, 32u8] + f + seq![32u8, 108u8, 105u8, 110u8, 101u8, 32u8] + tail,
        None => seq![108u8, 105u8, 110u8, 101u8, 32u8] + tail,
    }
}

/// Builds the message of the `SyntaxError` for a parse error at `line`
/// with message `msg` (see [`syntax_error_text`]).
pub fn syntax_error_message(file: &Option<Vec<u8>>, line: i32, msg: &Vec<u8>) -> (r: Vec<u8>)
    ensures
        r@ == syntax_error_text(
            match file {
                Some(f) => Some(f@),
                None => None,
            },
            line,
            msg@,
        ),
{
    let mut out: Vec<u8> = Vec::new();
    if let Some(f) = file {
        out.push(102u8);
        out.push(105u8);
        out.push(108u8);
        out.push(101u8);
        out.push(32u8);
        push_all(&mut out, f);
        out.push(32u8);
    }
    out.push(108u8);
    out.push(105u8);
    out.push(110u8);
    out.push(101u8);
    out.push(32u8);
    let digits = int_to_decimal(line as i64);
    push_all(&mut out, &digits);
    out.push(58u8);
    out.push(32u8);
    push_all(&mut out, msg);
    proof {
        let fv = match file {
            Some(f) => Some(f@),
            None => None,
        };
        assert(out@ =~= syntax_error_text(fv, line, msg@));
    }
    out
}

/// What the parser made of the source text of an `eval`.
pub enum ParseResult {
    /// No parser state could be created.
    NoParser,
    /// Parse errors; the first one's line and message.
    Errors(i32, Vec<u8>),
    /// A syntax tree.
    Parsed,
}

/// Why an `eval` string was refused.
#[derive(Debug, PartialEq, Eq)]
pub enum EvalError {
    /// `ArgumentError`: "Binding of eval must be nil."
    BindingNotNil,
    /// `RuntimeError`: "Failed to create parser state."
    NoParserState,
    /// `SyntaxError` with this message.
    Syntax(Vec<u8>),
    /// `ScriptError`: "codegen error".
    Codegen,
}

/// The checks made before the code of an `eval` string runs, in order: the
/// binding must be `nil`, the parser must start, the text must parse
/// (else the first error is reported, with the file when one was given),
/// and code generation must succeed (`generated`).
pub fn eval_outcome(binding_nil: bool, file: &Option<Vec<u8>>, parse: &ParseResult, generated: bool) -> (r:
    Result<(), EvalError>)
    ensures
        !binding_nil ==> r == Err::<(), EvalError>(EvalError::BindingNotNil),
        binding_nil ==> match parse {
            ParseResult::NoParser => r == Err::<(), EvalError>(EvalError::NoParserState),
            ParseResult::Errors(line, msg) => r matches Err(EvalError::Syntax(m)) && m@
                == syntax_error_text(
                match file {
                    Some(f) => Some(f@),
                    None => None,
                },
                *line,
                msg@,
            ),
            ParseResult::Parsed => if generated {
                r == Ok::<(), EvalError>(())
            } else {
                r == Err::<(), EvalError>(EvalError::Codegen)
            },
        },
{
    if !binding_nil {
        return Err(EvalError::BindingNotNil);
    }
    match parse {
        ParseResult::NoParser => Err(EvalError::NoParserState),
        ParseResult::Errors(line, msg) => Err(EvalError::Syntax(syntax_error_message(file, *line, msg))),
        ParseResult::Parsed => if generated {
            Ok(())
        } else {
            Err(EvalError::Codegen)
        },
    }
}

} // verus!
