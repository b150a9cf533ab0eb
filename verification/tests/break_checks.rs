use diamond::codegen::{looptype, scope, PoolValue};
use diamond::irep::scope_new_root;
use diamond::loops::{find_break_target, loop_break, loop_pop, loop_push};
use diamond::opcode::{OP_BREAK, OP_EPOP, OP_ERR, OP_JMP, OP_LOADNIL, OP_MOVE, OP_POPERR};

fn fresh() -> scope {
    scope_new_root(0, 0, false, false)
}

fn code(s: &scope) -> Vec<u8> {
    s.iseq[..s.pc as usize].to_vec()
}

#[test]
fn which_loop_a_break_leaves() {
    let mut s = fresh();
    assert_eq!(find_break_target(&s.loops), None);
    loop_push(&mut s, looptype::LOOP_NORMAL);
    loop_push(&mut s, looptype::LOOP_BEGIN);
    loop_push(&mut s, looptype::LOOP_RESCUE);
    loop_push(&mut s, looptype::LOOP_BEGIN);
    assert_eq!(find_break_target(&s.loops), Some((0, 2)));
    loop_push(&mut s, looptype::LOOP_BLOCK);
    assert_eq!(find_break_target(&s.loops), Some((4, 0)));
}

#[test]
fn break_outside_a_loop_raises() {
    let mut s = fresh();
    assert_eq!(loop_break(&mut s, false), Ok(()));
    assert_eq!(code(&s), vec![OP_ERR, 0]);
    assert_eq!(s.pool, vec![PoolValue::Str(b"unexpected break".to_vec())]);
    let mut s = fresh();
    loop_push(&mut s, looptype::LOOP_BEGIN);
    assert_eq!(loop_break(&mut s, true), Ok(()));
    assert_eq!(code(&s), vec![OP_ERR, 0]);
}

#[test]
fn break_with_a_value_out_of_a_while_loop() {
    let mut s = fresh();
    s.sp = 2;
    loop_push(&mut s, looptype::LOOP_NORMAL);
    s.sp = 5;
    assert_eq!(loop_break(&mut s, true), Ok(()));
    assert_eq!(code(&s), vec![OP_MOVE, 2, 5, OP_JMP, 0, 0]);
    assert_eq!(s.loops[0].pc3, 4);
    assert_eq!(loop_break(&mut s, false), Ok(()));
    assert_eq!(code(&s), vec![OP_MOVE, 2, 5, OP_JMP, 0, 0, OP_JMP, 0, 4]);
    assert_eq!(s.loops[0].pc3, 7);
}

#[test]
fn break_pops_begin_regions_and_runs_ensures() {
    let mut s = fresh();
    loop_push(&mut s, looptype::LOOP_NORMAL);
    s.ensure_level = 1;
    loop_push(&mut s, looptype::LOOP_BEGIN);
    s.ensure_level = 3;
    assert_eq!(loop_break(&mut s, false), Ok(()));
    assert_eq!(code(&s), vec![OP_POPERR, 1, OP_EPOP, 2, OP_JMP, 0, 0]);
    assert_eq!(s.loops[0].pc3, 5);
    assert_eq!(s.loops[1].pc3, 0);
}

#[test]
fn break_out_of_a_block() {
    let mut s = fresh();
    s.sp = 1;
    loop_push(&mut s, looptype::LOOP_BLOCK);
    assert_eq!(loop_break(&mut s, false), Ok(()));
    assert_eq!(code(&s), vec![OP_LOADNIL, 1, OP_BREAK, 1]);
    let mut s = fresh();
    s.sp = 3;
    loop_push(&mut s, looptype::LOOP_FOR);
    assert_eq!(loop_break(&mut s, true), Ok(()));
    assert_eq!(code(&s), vec![OP_BREAK, 3]);
}

#[test]
fn leaving_the_loop_resolves_every_break() {
    let mut s = fresh();
    loop_push(&mut s, looptype::LOOP_NORMAL);
    assert_eq!(loop_break(&mut s, false), Ok(()));
    assert_eq!(loop_break(&mut s, false), Ok(()));
    assert_eq!(code(&s), vec![OP_JMP, 0, 0, OP_JMP, 0, 1]);
    assert_eq!(loop_pop(&mut s, 0), Ok(()));
    assert_eq!(code(&s), vec![OP_JMP, 0, 6, OP_JMP, 0, 6]);
    assert!(s.loops.is_empty());
}
