use diamond::codegen::{genjmp, genop_1, looptype, mrb_locals, scope, CodegenError, PoolValue};
use diamond::irep::{mrb_irep, mrb_irep_remove_lv, scope_add_irep, scope_finish, scope_new, scope_new_root};
use diamond::loops::{loop_pop, loop_push};
use diamond::opcode::{OP_ERR, OP_JMP, OP_LOADI_1, OP_LOADNIL};
use diamond::pool::{lv_idx, new_lit, new_sym, raise_error};

fn fresh() -> scope {
    scope_new_root(0, 0, false, false)
}

fn code(s: &scope) -> Vec<u8> {
    s.iseq[..s.pc as usize].to_vec()
}

fn leaf(lv: Option<Vec<mrb_locals>>) -> mrb_irep {
    mrb_irep {
        nlocals: 2,
        nregs: 3,
        flags: 0,
        iseq: vec![OP_LOADNIL, 1],
        lines: None,
        pool: vec![],
        syms: vec![],
        reps: vec![],
        lv,
    }
}

#[test]
fn literals_are_shared() {
    let mut s = fresh();
    assert_eq!(new_lit(&mut s, &PoolValue::Int(5)), 0);
    assert_eq!(new_lit(&mut s, &PoolValue::Str(b"ab".to_vec())), 1);
    assert_eq!(new_lit(&mut s, &PoolValue::Int(5)), 0);
    assert_eq!(new_lit(&mut s, &PoolValue::Str(b"ab".to_vec())), 1);
    assert_eq!(new_lit(&mut s, &PoolValue::Str(b"abc".to_vec())), 2);
    assert_eq!(s.pool.len(), 3);
}

#[test]
fn symbols_are_shared() {
    let mut s = fresh();
    assert_eq!(new_sym(&mut s, 42), 0);
    assert_eq!(new_sym(&mut s, 7), 1);
    assert_eq!(new_sym(&mut s, 42), 0);
    assert_eq!(s.syms, vec![42, 7]);
}

#[test]
fn nested_scope_and_its_locals() {
    let root = fresh();
    let s = scope_new(&root, vec![5, 0, 5, 9]);
    assert_eq!(s.nlocals, 5);
    assert_eq!(s.sp, 5);
    assert_eq!(s.rlev, 1);
    assert_eq!(lv_idx(&s, 5), 1);
    assert_eq!(lv_idx(&s, 9), 4);
    assert_eq!(lv_idx(&s, 77), 0);
    let rs: Vec<u16> = s.irep_lv.iter().map(|l| l.r).collect();
    assert_eq!(rs, vec![1, 0, 1, 4]);
}

#[test]
fn raising_an_error_records_the_message() {
    let mut s = fresh();
    assert_eq!(raise_error(&mut s, &b"oops".to_vec()), Ok(()));
    assert_eq!(code(&s), vec![OP_ERR, 0]);
    assert_eq!(s.pool, vec![PoolValue::Str(b"oops".to_vec())]);
}

#[test]
fn finishing_a_scope() {
    let mut s = scope_new(&fresh(), vec![3]);
    assert_eq!(genop_1(&mut s, OP_LOADI_1, 1), Ok(()));
    scope_add_irep(&mut s, leaf(None));
    let irep = scope_finish(s).unwrap();
    assert_eq!(irep.iseq, vec![OP_LOADI_1, 1]);
    assert_eq!(irep.nlocals, 2);
    assert_eq!(irep.reps.len(), 1);
    assert_eq!(irep.lines, None);
    let lv = irep.lv.unwrap();
    assert_eq!(lv.len(), 1);
    assert_eq!((lv[0].name, lv[0].r), (3, 1));
}

#[test]
fn finishing_keeps_the_line_table() {
    let mut s = scope_new_root(8, 0, false, false);
    s.lineno = 12;
    assert_eq!(genop_1(&mut s, OP_LOADI_1, 1), Ok(()));
    let irep = scope_finish(s).unwrap();
    assert_eq!(irep.lines, Some(vec![12, 12]));
    assert_eq!(irep.lv.is_none(), true);
}

#[test]
fn too_many_locals() {
    let lv: Vec<u32> = (1..=1022).collect();
    let s = scope_new(&fresh(), lv);
    assert_eq!(s.nlocals, 1023);
    assert_eq!(scope_finish(s).err(), Some(CodegenError::TooManyLocalVariables));
}

#[test]
fn removing_local_tables() {
    let table = vec![mrb_locals { name: 4, r: 1 }];
    let mut child = leaf(Some(table.clone()));
    child.reps.push(leaf(Some(table.clone())));
    let mut top = leaf(Some(table));
    top.reps.push(child);
    mrb_irep_remove_lv(&mut top);
    assert!(top.lv.is_none());
    assert!(top.reps[0].lv.is_none());
    assert!(top.reps[0].reps[0].lv.is_none());
    assert_eq!(top.reps[0].iseq, vec![OP_LOADNIL, 1]);
}

#[test]
fn loops_record_where_they_start() {
    let mut s = fresh();
    s.sp = 4;
    assert_eq!(loop_push(&mut s, looptype::LOOP_NORMAL), 0);
    assert_eq!(loop_push(&mut s, looptype::LOOP_BEGIN), 1);
    assert_eq!(s.loops[0].acc, 4);
    assert_eq!(s.loops[1].type_0, looptype::LOOP_BEGIN);
    assert_eq!(loop_pop(&mut s, 0), Ok(()));
    assert_eq!(s.loops.len(), 1);
    assert_eq!(code(&s), vec![]);
}

#[test]
fn leaving_a_loop_resolves_its_breaks() {
    let mut s = fresh();
    loop_push(&mut s, looptype::LOOP_NORMAL);
    let pos = genjmp(&mut s, OP_JMP, 0).unwrap();
    s.loops[0].pc3 = pos as i32;
    assert_eq!(loop_pop(&mut s, 1), Ok(()));
    assert_eq!(code(&s), vec![OP_JMP, 0, 5, OP_LOADNIL, 0]);
    assert_eq!(s.sp, 1);
    assert!(s.loops.is_empty());
}

#[test]
fn float_literals_are_shared_by_value_and_sign() {
    let mut s = fresh();
    assert_eq!(new_lit(&mut s, &PoolValue::Float(1.5f64.to_bits())), 0);
    assert_eq!(new_lit(&mut s, &PoolValue::Int(1)), 1);
    assert_eq!(new_lit(&mut s, &PoolValue::Float(1.5f64.to_bits())), 0);
    assert_eq!(new_lit(&mut s, &PoolValue::Float(0.0f64.to_bits())), 2);
    assert_eq!(new_lit(&mut s, &PoolValue::Float((-0.0f64).to_bits())), 3);
    assert_eq!(new_lit(&mut s, &PoolValue::Float(1.0f64.to_bits())), 4);
    assert_eq!(s.pool.len(), 5);
}

#[test]
fn a_nan_literal_is_never_shared() {
    let mut s = fresh();
    let nan = f64::NAN.to_bits();
    assert_eq!(new_lit(&mut s, &PoolValue::Float(nan)), 0);
    assert_eq!(new_lit(&mut s, &PoolValue::Float(nan)), 1);
    assert_eq!(s.pool.len(), 2);
}

#[test]
fn nested_scopes_remember_the_enclosing_locals() {
    let outer = scope_new(&fresh(), vec![40, 41]);
    let mut mid = scope_new(&outer, vec![45]);
    assert_eq!(mid.up, vec![vec![40, 41], vec![]]);
    assert_eq!(mid.up_methods, vec![None, None]);
    mid.mscope = true;
    mid.ainfo = 128;
    let inner = scope_new(&mid, vec![50]);
    assert_eq!(inner.up, vec![vec![45], vec![40, 41], vec![]]);
    assert_eq!(inner.up_methods, vec![Some(128), None, None]);
    assert!(!inner.mscope);
    assert_eq!(inner.rlev, mid.rlev + 1);
}
