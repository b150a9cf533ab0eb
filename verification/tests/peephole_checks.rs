use diamond::codegen::{genop_1, genop_2, scope};
use diamond::irep::scope_new_root;
use diamond::opcode::{
    OP_ADD, OP_ADDI, OP_JMPIF, OP_LOADI, OP_LOADI_1, OP_LOADI_3, OP_LOADI__1, OP_MOVE, OP_NOP,
    OP_RETURN, OP_SUB,
};
use diamond::peephole::{
    gen_addsub, gen_move, gen_return, genjmp2, mrb_last_insn, no_optimize, no_peephole, on_eval,
};

fn fresh() -> scope {
    scope_new_root(0, 0, false, false)
}

fn code(s: &scope) -> Vec<u8> {
    s.iseq[..s.pc as usize].to_vec()
}

#[test]
fn flags_of_a_scope() {
    let s = scope_new_root(0, 0, true, true);
    assert!(no_optimize(&s));
    assert!(on_eval(&s));
    let t = fresh();
    assert!(!no_optimize(&t));
    assert!(!on_eval(&t));
}

#[test]
fn last_instruction() {
    let mut s = fresh();
    let d = mrb_last_insn(&s);
    assert_eq!(d.insn, OP_NOP);
    assert_eq!(genop_2(&mut s, OP_MOVE, 4, 5), Ok(()));
    let d = mrb_last_insn(&s);
    assert_eq!((d.insn, d.a, d.b), (OP_MOVE, 4, 5));
}

#[test]
fn peephole_is_off_at_the_start_and_at_labels() {
    let mut s = fresh();
    assert!(no_peephole(&s));
    assert_eq!(genop_1(&mut s, OP_LOADI_1, 1), Ok(()));
    assert!(!no_peephole(&s));
    s.lastlabel = s.pc;
    assert!(no_peephole(&s));
}

#[test]
fn plain_move() {
    let mut s = fresh();
    assert_eq!(gen_move(&mut s, 1, 2, 0), Ok(()));
    assert_eq!(code(&s), vec![OP_MOVE, 1, 2]);
}

#[test]
fn move_back_is_dropped() {
    let mut s = fresh();
    assert_eq!(gen_move(&mut s, 1, 2, 0), Ok(()));
    assert_eq!(gen_move(&mut s, 2, 1, 0), Ok(()));
    assert_eq!(code(&s), vec![OP_MOVE, 1, 2]);
    assert_eq!(gen_move(&mut s, 3, 3, 0), Ok(()));
    assert_eq!(code(&s), vec![OP_MOVE, 1, 2]);
}

#[test]
fn move_out_of_a_loaded_temporary_retargets_the_load() {
    let mut s = fresh();
    assert_eq!(genop_1(&mut s, OP_LOADI_1, 5), Ok(()));
    assert_eq!(gen_move(&mut s, 1, 5, 0), Ok(()));
    assert_eq!(code(&s), vec![OP_LOADI_1, 1]);
    let mut s = fresh();
    assert_eq!(genop_2(&mut s, OP_LOADI, 5, 99), Ok(()));
    assert_eq!(gen_move(&mut s, 2, 5, 0), Ok(()));
    assert_eq!(code(&s), vec![OP_LOADI, 2, 99]);
}

#[test]
fn nopeep_keeps_the_load() {
    let mut s = fresh();
    assert_eq!(genop_1(&mut s, OP_LOADI_1, 5), Ok(()));
    assert_eq!(gen_move(&mut s, 1, 5, 1), Ok(()));
    assert_eq!(code(&s), vec![OP_LOADI_1, 5, OP_MOVE, 1, 5]);
}

#[test]
fn moves_under_eval_are_padded() {
    let mut s = scope_new_root(0, 0, false, true);
    assert_eq!(gen_move(&mut s, 1, 2, 0), Ok(()));
    assert_eq!(code(&s), vec![OP_MOVE, 1, 2, OP_NOP]);
    assert_eq!(s.lastpc, 3);
}

#[test]
fn return_folds_a_preceding_move() {
    let mut s = fresh();
    assert_eq!(gen_return(&mut s, OP_RETURN, 3), Ok(()));
    assert_eq!(code(&s), vec![OP_RETURN, 3]);
    let mut s = fresh();
    assert_eq!(genop_2(&mut s, OP_MOVE, 4, 7), Ok(()));
    assert_eq!(gen_return(&mut s, OP_RETURN, 4), Ok(()));
    assert_eq!(code(&s), vec![OP_RETURN, 7]);
    assert_eq!(gen_return(&mut s, OP_RETURN, 1), Ok(()));
    assert_eq!(code(&s), vec![OP_RETURN, 7]);
}

#[test]
fn add_of_a_small_constant_becomes_addi() {
    let mut s = fresh();
    assert_eq!(genop_1(&mut s, OP_LOADI_3, 2), Ok(()));
    assert_eq!(gen_addsub(&mut s, OP_ADD, 1), Ok(()));
    assert_eq!(code(&s), vec![OP_ADDI, 1, 3]);
    let mut s = fresh();
    assert_eq!(genop_1(&mut s, OP_LOADI__1, 2), Ok(()));
    assert_eq!(gen_addsub(&mut s, OP_SUB, 1), Ok(()));
    assert_eq!(code(&s), vec![OP_ADDI, 1, 1]);
}

#[test]
fn add_of_a_large_constant_stays() {
    let mut s = fresh();
    assert_eq!(genop_2(&mut s, OP_LOADI, 2, 200), Ok(()));
    assert_eq!(gen_addsub(&mut s, OP_ADD, 1), Ok(()));
    assert_eq!(code(&s), vec![OP_LOADI, 2, 200, OP_ADD, 1]);
}

#[test]
fn conditional_jump_tests_the_moved_register() {
    let mut s = fresh();
    assert_eq!(genop_2(&mut s, OP_MOVE, 3, 1), Ok(()));
    assert_eq!(genjmp2(&mut s, OP_JMPIF, 3, 0, 0), Ok(2));
    assert_eq!(code(&s), vec![OP_JMPIF, 1, 0, 0]);
    let mut s = fresh();
    assert_eq!(genop_2(&mut s, OP_MOVE, 3, 1), Ok(()));
    assert_eq!(genjmp2(&mut s, OP_JMPIF, 3, 0, 1), Ok(5));
    assert_eq!(code(&s), vec![OP_MOVE, 3, 1, OP_JMPIF, 3, 0, 0]);
}
