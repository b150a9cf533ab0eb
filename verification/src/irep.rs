//! Compiled method bodies ("ireps") and the lifetime of a code generation
//! scope: creation, registration of nested bodies, and finishing.

use vstd::prelude::*;
use crate::codegen::{scope, mrb_locals, PoolValue, CodegenError, loopinfo};
use crate::pool::{first_index, pool_lits};

verus! {

/// A compiled method body.
#[allow(non_camel_case_types)]
pub struct mrb_irep {
    pub nlocals: u16,
    pub nregs: u16,
    pub flags: u8,
    /// Instructions.
    pub iseq: Vec<u8>,
    /// Source line of every instruction byte, when a line table was kept.
    pub lines: Option<Vec<u16>>,
    /// Literal pool.
    pub pool: Vec<PoolValue>,
    /// Symbol table.
    pub syms: Vec<u32>,
    /// Nested method bodies.
    pub reps: Vec<mrb_irep>,
    /// Local variable table, when the body has locals.
    pub lv: Option<Vec<mrb_locals>>,
}

/// `b` is `a` with the local variable tables of `a` and of every nested body removed.
pub open spec fn lv_removed(a: mrb_irep, b: mrb_irep) -> bool
    decreases a,
{
    &&& b.lv is None
    &&& b.nlocals == a.nlocals
    &&& b.nregs == a.nregs
    &&& b.flags == a.flags
    &&& b.iseq@ == a.iseq@
    &&& b.lines == a.lines
    &&& b.pool@ == a.pool@
    &&& b.syms@ == a.syms@
    &&& b.reps@.len() == a.reps@.len()
    &&& forall|i: int|
        0 <= i < a.reps@.len() ==> lv_removed(#[trigger] a.reps@[i], b.reps@[i])
}

/// Drops the local variable tables of `irep` and of all its nested bodies.
pub fn mrb_irep_remove_lv(irep: &mut mrb_irep)
    ensures
        lv_removed(*old(irep), *final(irep)),
    decreases *old(irep),
{
    irep.lv = None;
    let mut old_reps: Vec<mrb_irep> = Vec::new();
    std::mem::swap(&mut irep.reps, &mut old_reps);
    let ghost orig = old(irep).reps@;
    let n = old_reps.len();
    let mut new_reps: Vec<mrb_irep> = Vec::new();
    let mut i: usize = 0;
    while i < n
        invariant
            n == orig.len(),
            orig == old(irep).reps@,
            i <= orig.len(),
            old_reps@ == orig.subrange(i as int, orig.len() as int),
            new_reps@.len() == i,
            forall|j: int| 0 <= j < i ==> lv_removed(orig[j], #[trigger] new_reps@[j]),
        decreases orig.len() - i,
    {
        let mut child = old_reps.remove(0);
        assert(child == orig[i as int]);
        mrb_irep_remove_lv(&mut child);
        new_reps.push(child);
        i = i + 1;
        proof {
            assert(old_reps@ =~= orig.subrange(i as int, orig.len() as int));
        }
    }
    irep.reps = new_reps;
}

/// A fresh instruction buffer: 1024 zero bytes, and a line table of the same
/// size when lines are recorded.
pub open spec fn fresh_code(s: &scope) -> bool {
    &&& s.icapa == 1024
    &&& s.iseq@ == Seq::new(1024, |j: int| 0u8)
    &&& s.has_lines ==> s.lines@ == Seq::new(1024, |j: int| 0u16)
    &&& s.pc == 0
    &&& s.lastpc == 0
    &&& s.lastlabel == 0
}

/// The local variable table of a body whose locals are `lv`: every local
/// names its symbol and the register of its first occurrence (0 for an
/// anonymous local).
pub open spec fn lv_table_of(lv: Seq<u32>, table: Seq<mrb_locals>) -> bool {
    &&& table.len() == lv.len()
    &&& forall|i: int|
        0 <= i < lv.len() ==> {
            &&& (#[trigger] table[i]).name == lv[i]
            &&& lv[i] == 0 ==> table[i].r == 0
            &&& lv[i] != 0 ==> first_index(lv, lv[i], table[i].r - 1)
        }
}

fn zeros_u8(n: usize) -> (v: Vec<u8>)
    ensures
        v@ == Seq::new(n as nat, |j: int| 0u8),
{
    let mut v: Vec<u8> = Vec::new();
    let mut k: usize = 0;
    while k < n
        invariant
            k <= n,
            v@ == Seq::new(k as nat, |j: int| 0u8),
        decreases n - k,
    {
        v.push(0u8);
        k = k + 1;
        proof {
            assert(v@ =~= Seq::new(k as nat, |j: int| 0u8));
        }
    }
    v
}

fn zeros_u16(n: usize) -> (v: Vec<u16>)
    ensures
        v@ == Seq::new(n as nat, |j: int| 0u16),
{
    let mut v: Vec<u16> = Vec::new();
    let mut k: usize = 0;
    while k < n
        invariant
            k <= n,
            v@ == Seq::new(k as nat, |j: int| 0u16),
        decreases n - k,
    {
        v.push(0u16);
        k = k + 1;
        proof {
            assert(v@ =~= Seq::new(k as nat, |j: int| 0u16));
        }
    }
    v
}

/// A copy of a list of symbols.
pub(crate) fn copy_syms(v: &Vec<u32>) -> (r: Vec<u32>)
    ensures
        r@ == v@,
{
    let mut r: Vec<u32> = Vec::new();
    let mut k: usize = 0;
    while k < v.len()
        invariant
            k <= v@.len(),
            r@ == v@.subrange(0, k as int),
        decreases v@.len() - k,
    {
        r.push(v[k]);
        k = k + 1;
        proof {
            assert(r@ =~= v@.subrange(0, k as int));
        }
    }
    proof {
        assert(r@ =~= v@);
    }
    r
}

/// The outermost scope of a compilation: it only carries what nested scopes
/// inherit (file name, parser flags); its own body is never emitted into.
pub fn scope_new_root(
    filename_sym: u32,
    filename_index: u16,
    no_optimize: bool,
    on_eval: bool,
) -> (s: scope)
    ensures
        s.wf(),
        fresh_code(&s),
        s.has_lines == (filename_sym != 0),
        s.filename_sym == filename_sym,
        s.filename_index == filename_index,
        s.no_optimize == no_optimize,
        s.on_eval == on_eval,
        s.lineno == 0,
        s.rlev == 0,
        s.sp == 0,
        s.nregs == 0,
        s.nlocals == 0,
        s.ensure_level == 0,
        s.lv@.len() == 0,
        s.up@.len() == 0,
        !s.mscope,
        s.ainfo == 0,
        s.up_methods@.len() == 0,
        s.irep_lv@.len() == 0,
        s.pool@.len() == 0,
        s.syms@.len() == 0,
        s.reps@.len() == 0,
        s.loops@.len() == 0,
{
    let has_lines = filename_sym != 0;
    scope {
        iseq: zeros_u8(1024),
        has_lines,
        lines: if has_lines { zeros_u16(1024) } else { Vec::new() },
        icapa: 1024,
        pc: 0,
        lastpc: 0,
        lastlabel: 0,
        lineno: 0,
        sp: 0,
        nregs: 0,
        nlocals: 0,
        no_optimize,
        on_eval,
        filename_sym,
        filename_index,
        rlev: 0,
        ensure_level: 0,
        lv: Vec::new(),
        up: Vec::new(),
        mscope: false,
        ainfo: 0,
        up_methods: Vec::new(),
        irep_lv: Vec::new(),
        pool: Vec::new(),
        syms: Vec::new(),
        reps: Vec::new(),
        loops: Vec::new(),
    }
}

/// Opens the scope of a body nested in `prev` whose local variables are
/// `lv`: register 0 holds `self`, the locals follow, and the file name,
/// line, parser flags and nesting depth are inherited.
pub fn scope_new(prev: &scope, lv: Vec<u32>) -> (p: scope)
    requires
        lv@.len() < 65535,
        prev.rlev < i32::MAX,
    ensures
        p.wf(),
        fresh_code(&p),
        p.sp == lv@.len() + 1,
        p.nlocals == lv@.len() + 1,
        p.nregs == 0,
        p.lv@ == lv@,
        p.up@.len() == prev.up@.len() + 1,
        p.up@[0]@ == prev.lv@,
        forall|k: int| 0 <= k < prev.up@.len() ==> (#[trigger] p.up@[k + 1])@ == prev.up@[k]@,
        !p.mscope,
        p.ainfo == 0,
        p.up_methods@ == seq![if prev.mscope { Some(prev.ainfo) } else { None }] + prev.up_methods@,
        crate::model::cg(&p) == crate::model::cg_scope_new(crate::model::cg(prev), lv@),
        lv_table_of(lv@, p.irep_lv@),
        p.filename_sym == prev.filename_sym,
        p.has_lines == (prev.filename_sym != 0),
        p.lineno == prev.lineno,
        p.no_optimize == prev.no_optimize,
        p.on_eval == prev.on_eval,
        p.filename_index == prev.filename_index,
        p.rlev == prev.rlev + 1,
        p.ensure_level == 0,
        p.pool@.len() == 0,
        p.syms@.len() == 0,
        p.reps@.len() == 0,
        p.loops@.len() == 0,
{
    let mut up: Vec<Vec<u32>> = Vec::new();
    up.push(copy_syms(&prev.lv));
    let mut j: usize = 0;
    while j < prev.up.len()
        invariant
            j <= prev.up@.len(),
            up@.len() == j + 1,
            up@[0]@ == prev.lv@,
            forall|k: int| 0 <= k < j ==> (#[trigger] up@[k + 1])@ == prev.up@[k]@,
        decreases prev.up@.len() - j,
    {
        up.push(copy_syms(&prev.up[j]));
        j = j + 1;
    }
    let mut up_methods: Vec<Option<u16>> = Vec::new();
    up_methods.push(if prev.mscope { Some(prev.ainfo) } else { None });
    let mut j: usize = 0;
    while j < prev.up_methods.len()
        invariant
            j <= prev.up_methods@.len(),
            up_methods@ == seq![if prev.mscope { Some(prev.ainfo) } else { None }]
                + prev.up_methods@.subrange(0, j as int),
        decreases prev.up_methods@.len() - j,
    {
        up_methods.push(prev.up_methods[j]);
        j = j + 1;
        proof {
            assert(up_methods@ =~= seq![if prev.mscope { Some(prev.ainfo) } else { None }]
                + prev.up_methods@.subrange(0, j as int));
        }
    }
    proof {
        assert(prev.up_methods@.subrange(0, prev.up_methods@.len() as int) =~= prev.up_methods@);
    }
    let has_lines = prev.filename_sym != 0;
    let nloc: u16 = (lv.len() + 1) as u16;
    let mut p = scope {
        iseq: zeros_u8(1024),
        has_lines,
        lines: if has_lines { zeros_u16(1024) } else { Vec::new() },
        icapa: 1024,
        pc: 0,
        lastpc: 0,
        lastlabel: 0,
        lineno: prev.lineno,
        sp: nloc,
        nregs: 0,
        nlocals: nloc,
        no_optimize: prev.no_optimize,
        on_eval: prev.on_eval,
        filename_sym: prev.filename_sym,
        filename_index: prev.filename_index,
        rlev: prev.rlev + 1,
        ensure_level: 0,
        lv,
        up,
        mscope: false,
        ainfo: 0,
        up_methods,
        irep_lv: Vec::new(),
        pool: Vec::new(),
        syms: Vec::new(),
        reps: Vec::new(),
        loops: Vec::new(),
    };
    let n = p.lv.len();
    let mut table: Vec<mrb_locals> = Vec::new();
    let mut i: usize = 0;
    while i < n
        invariant
            n == p.lv@.len(),
            n < 65535,
            i <= n,
            table@.len() == i,
            forall|k: int|
                0 <= k < i ==> {
                    &&& (#[trigger] table@[k]).name == p.lv@[k]
                    &&& p.lv@[k] == 0 ==> table@[k].r == 0
                    &&& p.lv@[k] != 0 ==> first_index(p.lv@, p.lv@[k], table@[k].r - 1)
                },
        decreases n - i,
    {
        let name = p.lv[i];
        let r: u16 = if name != 0 {
            proof {
                assert(p.lv@.contains(name)) by {
                    assert(p.lv@[i as int] == name);
                }
            }
            let idx = crate::pool::lv_idx(&p, name);
            idx as u16
        } else {
            0
        };
        table.push(mrb_locals { name, r });
        i = i + 1;
    }
    p.irep_lv = table;
    proof {
        let t = crate::model::lv_table(p.lv@);
        assert forall|k: int| 0 <= k < t.len() implies t[k] == p.irep_lv@[k] by {
            if p.lv@[k] != 0 {
                let j = choose|j: int| first_index(p.lv@, p.lv@[k], j);
                assert(first_index(p.lv@, p.lv@[k], p.irep_lv@[k].r - 1));
                assert(j == p.irep_lv@[k].r - 1) by {
                    if j < p.irep_lv@[k].r - 1 {
                        assert(p.lv@[j] == p.lv@[k]);
                    } else if j > p.irep_lv@[k].r - 1 {
                        assert(p.lv@[p.irep_lv@[k].r - 1] == p.lv@[k]);
                    }
                }
            }
        }
        assert(t =~= p.irep_lv@);
        let pu = p.up@.map_values(|v: Vec<u32>| v@);
        let qu = seq![prev.lv@] + prev.up@.map_values(|v: Vec<u32>| v@);
        assert forall|k: int| 0 <= k < pu.len() implies pu[k] == qu[k] by {
            if k > 0 {
                assert(p.up@[(k - 1) + 1]@ == prev.up@[k - 1]@);
            }
        }
        assert(pu =~= qu);
        assert(p.buf() =~= crate::model::cg_scope_new(crate::model::cg(prev), lv@).buf);
        assert(pool_lits(p.pool@) =~= Seq::<crate::pool::PoolLit>::empty());
        assert(p.reps@.map_values(|ir: mrb_irep| crate::model::irep_model(ir)) =~= Seq::<crate::model::IrepModel>::empty());
    }
    p
}

/// Records the finished nested body `irep` as the next child of `s`.
pub fn scope_add_irep(s: &mut scope, irep: mrb_irep)
    requires
        old(s).reps@.len() < 65535,
    ensures
        final(s).reps@ == old(s).reps@.push(irep),
        crate::model::cg(final(s)) == (crate::model::Cg {
            reps: crate::model::cg(old(s)).reps.push(crate::model::irep_model(irep)),
            ..crate::model::cg(old(s))
        }),
        final(s).same_code(old(s)),
        final(s).same_core(old(s)),
        final(s).sp == old(s).sp,
        final(s).nregs == old(s).nregs,
        final(s).pool@ == old(s).pool@,
        final(s).syms@ == old(s).syms@,
        final(s).loops@ == old(s).loops@,
        final(s).ensure_level == old(s).ensure_level,
{
    let ghost ir = irep;
    s.reps.push(irep);
    proof {
        assert(s.reps@.map_values(|x: mrb_irep| crate::model::irep_model(x)) =~= old(s).reps@.map_values(
            |x: mrb_irep| crate::model::irep_model(x),
        ).push(crate::model::irep_model(ir)));
    }
}

/// Closes the scope and returns the compiled body: the emitted
/// instructions (and their lines), literals, symbols, nested bodies, local
/// table and register counts.  Fails when the body has 1023 locals or more.
pub fn scope_finish(s: scope) -> (r: Result<mrb_irep, CodegenError>)
    requires
        s.wf(),
    ensures
        s.nlocals >= 0x3ff ==> r == Err::<mrb_irep, CodegenError>(CodegenError::TooManyLocalVariables),
        s.nlocals < 0x3ff ==> (r matches Ok(irep) && {
            &&& irep.iseq@ == s.iseq@.subrange(0, s.pc as int)
            &&& s.has_lines ==> (irep.lines matches Some(l) && l@ == s.lines@.subrange(0, s.pc as int))
            &&& !s.has_lines ==> irep.lines is None
            &&& irep.pool@ == s.pool@
            &&& irep.syms@ == s.syms@
            &&& irep.reps@ == s.reps@
            &&& irep.nlocals == s.nlocals
            &&& irep.nregs == s.nregs
            &&& irep.flags == 0
            &&& s.lv@.len() > 0 ==> (irep.lv matches Some(t) && t@ == s.irep_lv@)
            &&& s.lv@.len() == 0 ==> irep.lv is None
        }),
        match crate::model::cg_finish(crate::model::cg(&s)) {
            Ok(m) => r matches Ok(irep) && crate::model::irep_model(irep) == m,
            Err(e) => r == Err::<mrb_irep, CodegenError>(e),
        },
{
    if s.nlocals >= 0x3ff {
        return Err(CodegenError::TooManyLocalVariables);
    }
    let scope { iseq, has_lines, lines, pc, pool, syms, reps, nlocals, nregs, lv, irep_lv, .. } = s;
    let mut iseq = iseq;
    iseq.truncate(pc as usize);
    let lines_out = if has_lines {
        let mut l = lines;
        l.truncate(pc as usize);
        Some(l)
    } else {
        None
    };
    let lv_out = if lv.len() > 0 { Some(irep_lv) } else { None };
    let ir = mrb_irep {
        nlocals,
        nregs,
        flags: 0,
        iseq,
        lines: lines_out,
        pool,
        syms,
        reps,
        lv: lv_out,
    };
    proof {
        let m = crate::model::cg_finish(crate::model::cg(&s))->Ok_0;
        let x = crate::model::irep_model(ir);
        assert(x.reps =~= m.reps);
        assert(x.iseq =~= m.iseq);
        assert(x.lines == m.lines);
        assert(x == m);
    }
    Ok(ir)
}

} // verus!
