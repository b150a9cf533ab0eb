//! The literal pool, the symbol table and the local-variable lookup of a scope.

use vstd::prelude::*;
use crate::codegen::{scope, PoolValue, CodegenError, encode_1, genop_1};
use crate::opcode::OP_ERR;

verus! {

/// The value of a pool literal, with strings seen as their bytes.
pub enum PoolLit {
    Int(i64),
    Float(u64),
    Str(Seq<u8>),
}

/// The abstract value of a pool entry.
pub open spec fn lit_of(v: PoolValue) -> PoolLit {
    match v {
        PoolValue::Int(i) => PoolLit::Int(i),
        PoolValue::Float(f) => PoolLit::Float(f),
        PoolValue::Str(b) => PoolLit::Str(b@),
    }
}

/// The double with bit pattern `f` is a NaN: its exponent is all ones and
/// its fraction is not zero.
pub open spec fn is_nan_bits(f: u64) -> bool {
    (f >> 52u64) & 0x7ffu64 == 0x7ffu64 && f & 0xfffffffffffffu64 != 0
}

/// A pool entry `a` stands for the literal `b`: integers and strings that
/// are equal, floats that compare equal and have the same sign (the same
/// bit pattern, and not a NaN, which equals nothing).
pub open spec fn lit_matches(a: PoolLit, b: PoolLit) -> bool {
    match (a, b) {
        (PoolLit::Float(x), PoolLit::Float(y)) => x == y && !is_nan_bits(x),
        _ => a == b,
    }
}

/// Some entry of `lits` stands for `l`.
pub open spec fn has_match(lits: Seq<PoolLit>, l: PoolLit) -> bool {
    exists|k: int| 0 <= k < lits.len() && lit_matches(#[trigger] lits[k], l)
}

/// `k` is the first entry of `lits` that stands for `l`.
pub open spec fn first_match(lits: Seq<PoolLit>, l: PoolLit, k: int) -> bool {
    &&& 0 <= k < lits.len()
    &&& lit_matches(lits[k], l)
    &&& forall|j: int| 0 <= j < k ==> !lit_matches(#[trigger] lits[j], l)
}

/// The abstract values of a literal pool.
pub open spec fn pool_lits(p: Seq<PoolValue>) -> Seq<PoolLit> {
    p.map_values(|v: PoolValue| lit_of(v))
}

/// `k` is the first position of `x` in `s`.
pub open spec fn first_index<T>(s: Seq<T>, x: T, k: int) -> bool {
    &&& 0 <= k < s.len()
    &&& s[k] == x
    &&& forall|j: int| 0 <= j < k ==> s[j] != x
}

fn bytes_equal(a: &Vec<u8>, b: &Vec<u8>) -> (r: bool)
    ensures
        r == (a@ == b@),
{
    if a.len() != b.len() {
        return false;
    }
    let mut k: usize = 0;
    while k < a.len()
        invariant
            a@.len() == b@.len(),
            k <= a@.len(),
            forall|j: int| 0 <= j < k ==> a@[j] == b@[j],
        decreases a@.len() - k,
    {
        if a[k] != b[k] {
            return false;
        }
        k = k + 1;
    }
    assert(a@ =~= b@);
    true
}

fn same_literal(x: &PoolValue, y: &PoolValue) -> (r: bool)
    ensures
        r == lit_matches(lit_of(*x), lit_of(*y)),
{
    match (x, y) {
        (PoolValue::Int(i), PoolValue::Int(j)) => *i == *j,
        (PoolValue::Float(f1), PoolValue::Float(f2)) => {
            let nan = (*f1 >> 52u64) & 0x7ffu64 == 0x7ffu64 && *f1 & 0xfffffffffffffu64 != 0;
            *f1 == *f2 && !nan
        },
        (PoolValue::Str(a), PoolValue::Str(b)) => bytes_equal(a, b),
        _ => false,
    }
}

fn copy_literal(x: &PoolValue) -> (r: PoolValue)
    ensures
        lit_of(r) == lit_of(*x),
{
    match x {
        PoolValue::Int(i) => PoolValue::Int(*i),
        PoolValue::Float(f) => PoolValue::Float(*f),
        PoolValue::Str(b) => {
            let mut v: Vec<u8> = Vec::new();
            let mut k: usize = 0;
            while k < b.len()
                invariant
                    k <= b@.len(),
                    v@ == b@.subrange(0, k as int),
                decreases b@.len() - k,
            {
                v.push(b[k]);
                k = k + 1;
                proof {
                    assert(v@ =~= b@.subrange(0, k as int));
                }
            }
            proof {
                assert(v@ =~= b@);
            }
            PoolValue::Str(v)
        },
    }
}

/// A float literal whose bits are a NaN: exponent all ones, fraction not
/// zero.
pub open spec fn nan_value(v: PoolValue) -> bool {
    v matches PoolValue::Float(f) && (f >> 52u64) & 0x7ffu64 == 0x7ffu64 && f
        & 0xfffffffffffffu64 != 0
}

/// Returns the pool index of the literal `val`, adding it when no entry
/// stands for it yet (see [`lit_matches`]: a NaN is always added).
pub fn new_lit(s: &mut scope, val: &PoolValue) -> (r: i32)
    requires
        old(s).pool@.len() < 65535,
    ensures
        ({
            let lits = pool_lits(old(s).pool@);
            let l = lit_of(*val);
            &&& has_match(lits, l) ==> first_match(lits, l, r as int) && pool_lits(
                final(s).pool@,
            ) == lits
            &&& !has_match(lits, l) ==> r == lits.len() && pool_lits(final(s).pool@) == lits.push(
                l,
            )
        }),
        final(s).same_except_pool(old(s)),
        0 <= r < final(s).pool@.len(),
        pool_lits(final(s).pool@)[r as int] == lit_of(*val),
        pool_lits(old(s).pool@).contains(lit_of(*val)) && !nan_value(*val) ==> final(s).pool@
            == old(s).pool@,
        nan_value(*val) ==> r == old(s).pool@.len(),
{
    let ghost lits = pool_lits(s.pool@);
    let mut i: usize = 0;
    while i < s.pool.len()
        invariant
            s.pool@.len() < 65535,
            i <= s.pool@.len(),
            lits == pool_lits(s.pool@),
            *s == *old(s),
            forall|j: int| 0 <= j < i ==> !lit_matches(#[trigger] lits[j], lit_of(*val)),
        decreases s.pool@.len() - i,
    {
        if same_literal(&s.pool[i], val) {
            return i as i32;
        }
        i = i + 1;
    }
    let idx = s.pool.len();
    let c = copy_literal(val);
    s.pool.push(c);
    proof {
        assert(pool_lits(s.pool@) =~= lits.push(lit_of(*val)));
    }
    proof {
        assert(pool_lits(s.pool@)[idx as int] == lit_of(*val));
    }
    idx as i32
}

/// Returns the symbol-table index of `sym`, adding it when it is not there yet.
pub fn new_sym(s: &mut scope, sym: u32) -> (r: i32)
    requires
        old(s).syms@.len() < 65535,
    ensures
        old(s).syms@.contains(sym) ==> first_index(old(s).syms@, sym, r as int)
            && final(s).syms@ == old(s).syms@,
        !old(s).syms@.contains(sym) ==> r == old(s).syms@.len() && final(s).syms@
            == old(s).syms@.push(sym),
        final(s).same_except_syms(old(s)),
{
    let len = s.syms.len();
    let mut i: usize = 0;
    while i < len
        invariant
            len == s.syms@.len(),
            len < 65535,
            i <= len,
            *s == *old(s),
            forall|j: int| 0 <= j < i ==> s.syms@[j] != sym,
        decreases len - i,
    {
        if s.syms[i] == sym {
            return i as i32;
        }
        i = i + 1;
    }
    s.syms.push(sym);
    len as i32
}

/// The register of local variable `id`: its 1-based position among the
/// locals of the scope, or 0 when it is not a local.
pub fn lv_idx(s: &scope, id: u32) -> (r: i32)
    requires
        s.lv@.len() < 65535,
    ensures
        s.lv@.contains(id) ==> first_index(s.lv@, id, r - 1),
        !s.lv@.contains(id) ==> r == 0,
{
    let mut n: usize = 0;
    while n < s.lv.len()
        invariant
            s.lv@.len() < 65535,
            n <= s.lv@.len(),
            forall|j: int| 0 <= j < n ==> s.lv@[j] != id,
        decreases s.lv@.len() - n,
    {
        if s.lv[n] == id {
            return (n + 1) as i32;
        }
        n = n + 1;
    }
    0
}

/// What [`raise_error`] does to `old_s` for the message `msg`, giving
/// `new_s` and `r`.
pub open spec fn raised(old_s: &scope, new_s: &scope, msg: Seq<u8>, r: Result<(), CodegenError>) -> bool {
    let lits = pool_lits(old_s.pool@);
    let l = PoolLit::Str(msg);
    let idx = if has_match(lits, l) {
        choose|k: int| first_match(lits, l, k)
    } else {
        lits.len() as int
    };
    match old_s.emitted(encode_1(OP_ERR, idx as u16)) {
        None => r == Err::<(), CodegenError>(CodegenError::TooBigCodeBlock),
        Some(b) => {
            &&& r is Ok
            &&& has_match(lits, l) ==> pool_lits(new_s.pool@) == lits
            &&& !has_match(lits, l) ==> pool_lits(new_s.pool@) == lits.push(l)
            &&& new_s.buf() == b
            &&& new_s.pc == old_s.pc + encode_1(OP_ERR, idx as u16).len()
            &&& new_s.lastpc == old_s.pc
            &&& new_s.lastlabel == old_s.lastlabel
            &&& new_s.sp == old_s.sp
            &&& new_s.nregs == old_s.nregs
            &&& new_s.same_core(old_s)
            &&& new_s.syms@ == old_s.syms@
            &&& new_s.reps@ == old_s.reps@
            &&& new_s.loops@ == old_s.loops@
            &&& new_s.ensure_level == old_s.ensure_level
            &&& new_s.wf()
        },
    }
}

/// Emits code raising a `LocalJumpError` with message `msg` at run time:
/// the message goes to the literal pool and `OP_ERR` refers to it.
pub fn raise_error(s: &mut scope, msg: &Vec<u8>) -> (r: Result<(), CodegenError>)
    requires
        old(s).wf(),
        old(s).pool@.len() < 65535,
    ensures
        raised(old(s), final(s), msg@, r),
{
    let v = PoolValue::Str(copy_bytes(msg));
    let idx = new_lit(s, &v);
    let ghost mid = *s;
    proof {
        let lits = pool_lits(old(s).pool@);
        let l = PoolLit::Str(msg@);
        if has_match(lits, l) {
            let k = choose|k: int| first_match(lits, l, k);
            assert(k == idx) by {
                if k < idx {
                    assert(lit_matches(lits[k], l));
                } else if k > idx {
                    assert(lit_matches(lits[idx as int], l));
                }
            }
        }
    }
    genop_1(s, OP_ERR, idx as u16)
}

fn copy_bytes(b: &Vec<u8>) -> (r: Vec<u8>)
    ensures
        r@ == b@,
{
    let mut v: Vec<u8> = Vec::new();
    let mut k: usize = 0;
    while k < b.len()
        invariant
            k <= b@.len(),
            v@ == b@.subrange(0, k as int),
        decreases b@.len() - k,
    {
        v.push(b[k]);
        k = k + 1;
        proof {
            assert(v@ =~= b@.subrange(0, k as int));
        }
    }
    proof {
        assert(v@ =~= b@);
    }
    v
}

} // verus!
