use diamond::codegen::{
    dispatch, dispatch_linked, gen_B, gen_S, genjmp, genop_0, genop_1, genop_2, genop_2S, genop_3,
    genop_W, new_label, pop_n_, push_n_, scope, CodegenError,
};
use diamond::irep::scope_new_root;
use diamond::opcode::{
    OP_ENTER, OP_EXT1, OP_EXT2, OP_EXT3, OP_JMP, OP_JMPIF, OP_LOADI_1, OP_MOVE, OP_NOP, OP_SEND,
};

fn fresh() -> scope {
    scope_new_root(0, 0, false, false)
}

fn code(s: &scope) -> Vec<u8> {
    s.iseq[..s.pc as usize].to_vec()
}

#[test]
fn fresh_scope_has_an_empty_buffer() {
    let s = fresh();
    assert_eq!(s.pc, 0);
    assert_eq!(s.icapa, 1024);
    assert_eq!(s.iseq.len(), 1024);
    assert!(!s.has_lines);
    let t = scope_new_root(5, 2, true, false);
    assert!(t.has_lines);
    assert_eq!(t.lines.len(), 1024);
    assert!(t.no_optimize);
}

#[test]
fn single_bytes_and_words() {
    let mut s = fresh();
    assert_eq!(gen_B(&mut s, 9), Ok(()));
    assert_eq!(gen_S(&mut s, 0x1234), Ok(()));
    assert_eq!(code(&s), vec![9, 0x12, 0x34]);
}

#[test]
fn operands_that_fit_in_a_byte() {
    let mut s = fresh();
    assert_eq!(genop_0(&mut s, OP_NOP), Ok(()));
    assert_eq!(genop_1(&mut s, OP_LOADI_1, 3), Ok(()));
    assert_eq!(s.lastpc, 1);
    assert_eq!(genop_2(&mut s, OP_MOVE, 1, 2), Ok(()));
    assert_eq!(genop_3(&mut s, OP_SEND, 1, 2, 0), Ok(()));
    assert_eq!(code(&s), vec![OP_NOP, OP_LOADI_1, 3, OP_MOVE, 1, 2, OP_SEND, 1, 2, 0]);
    assert_eq!(s.lastpc, 6);
}

#[test]
fn wide_operands_get_a_prefix() {
    let mut s = fresh();
    assert_eq!(genop_1(&mut s, OP_LOADI_1, 300), Ok(()));
    assert_eq!(code(&s), vec![OP_EXT1, OP_LOADI_1, 0x01, 0x2c]);
    let mut s = fresh();
    assert_eq!(genop_2(&mut s, OP_MOVE, 256, 2), Ok(()));
    assert_eq!(code(&s), vec![OP_EXT1, OP_MOVE, 0x01, 0x00, 2]);
    let mut s = fresh();
    assert_eq!(genop_2(&mut s, OP_MOVE, 2, 256), Ok(()));
    assert_eq!(code(&s), vec![OP_EXT2, OP_MOVE, 2, 0x01, 0x00]);
    let mut s = fresh();
    assert_eq!(genop_2(&mut s, OP_MOVE, 257, 258), Ok(()));
    assert_eq!(code(&s), vec![OP_EXT3, OP_MOVE, 0x01, 0x01, 0x01, 0x02]);
}

#[test]
fn sixteen_and_twenty_four_bit_operands() {
    let mut s = fresh();
    assert_eq!(genop_2S(&mut s, OP_JMPIF, 4, 0x0506), Ok(()));
    assert_eq!(genop_W(&mut s, OP_ENTER, 0x123456), Ok(()));
    assert_eq!(code(&s), vec![OP_JMPIF, 4, 0x05, 0x06, OP_ENTER, 0x12, 0x34, 0x56]);
}

#[test]
fn buffer_grows_past_its_capacity() {
    let mut s = fresh();
    for _ in 0..1024 {
        assert_eq!(gen_B(&mut s, OP_NOP), Ok(()));
    }
    assert_eq!(s.icapa, 1024);
    assert_eq!(gen_B(&mut s, 7), Ok(()));
    assert_eq!(s.icapa, 2048);
    assert_eq!(s.iseq.len(), 2048);
    assert_eq!(s.pc, 1025);
    assert_eq!(s.iseq[1024], 7);
}

#[test]
fn jumps_and_their_resolution() {
    let mut s = fresh();
    let pos = genjmp(&mut s, OP_JMP, 0);
    assert_eq!(pos, Ok(1));
    assert_eq!(genop_0(&mut s, OP_NOP), Ok(()));
    assert_eq!(dispatch(&mut s, 1), Ok(0));
    assert_eq!(code(&s), vec![OP_JMP, 0, 4, OP_NOP]);
    assert_eq!(s.lastlabel, 4);
}

#[test]
fn a_chain_of_pending_jumps_is_resolved_to_here() {
    let mut s = fresh();
    let first = genjmp(&mut s, OP_JMP, 0).unwrap();
    let second = genjmp(&mut s, OP_JMP, first).unwrap();
    assert_eq!(second, 4);
    assert_eq!(code(&s), vec![OP_JMP, 0, 0, OP_JMP, 0, 1]);
    assert_eq!(dispatch_linked(&mut s, second), Ok(()));
    assert_eq!(code(&s), vec![OP_JMP, 0, 6, OP_JMP, 0, 6]);
    assert_eq!(s.lastlabel, 6);
}

#[test]
fn an_empty_chain_changes_nothing() {
    let mut s = fresh();
    assert_eq!(genop_0(&mut s, OP_NOP), Ok(()));
    assert_eq!(dispatch_linked(&mut s, 0), Ok(()));
    assert_eq!(code(&s), vec![OP_NOP]);
    assert_eq!(s.lastlabel, 0);
}

#[test]
fn labels_mark_the_current_position() {
    let mut s = fresh();
    assert_eq!(gen_B(&mut s, OP_NOP), Ok(()));
    assert_eq!(new_label(&mut s), 1);
    assert_eq!(s.lastlabel, 1);
}

#[test]
fn stack_registers() {
    let mut s = fresh();
    assert_eq!(push_n_(&mut s, 3), Ok(()));
    assert_eq!((s.sp, s.nregs), (3, 3));
    assert_eq!(pop_n_(&mut s, 2), Ok(()));
    assert_eq!((s.sp, s.nregs), (1, 3));
    assert_eq!(pop_n_(&mut s, 5), Err(CodegenError::StackPointerUnderflow));
    assert_eq!(push_n_(&mut s, 0xfffe), Err(CodegenError::TooComplexExpression));
    assert_eq!(s.sp, 1);
}
