use diamond::eval::{eval_outcome, EvalError, ParseResult};
use diamond::eval::syntax_error_message;
use diamond::codegen::mrb_locals;
use diamond::eval::{irep_argc, patch_irep, potential_upvar_p, search_irep, search_variable, PatchError};
use diamond::irep::mrb_irep;
use diamond::opcode::{
    OP_ENTER, OP_EPUSH, OP_EXT3, OP_GETUPVAR, OP_LAMBDA, OP_LOADI, OP_MOVE, OP_NOP, OP_RETURN, OP_SEND, OP_SETUPVAR,
};

fn body(nlocals: u16, names: &[u32], iseq: Vec<u8>) -> mrb_irep {
    let lv = if names.is_empty() {
        None
    } else {
        Some(
            names
                .iter()
                .enumerate()
                .map(|(k, n)| mrb_locals { name: *n, r: (k + 1) as u16 })
                .collect(),
        )
    };
    mrb_irep {
        nlocals,
        nregs: nlocals + 2,
        flags: 0,
        iseq,
        lines: None,
        pool: vec![],
        syms: vec![],
        reps: vec![],
        lv,
    }
}

#[test]
fn argument_counts() {
    assert_eq!(irep_argc(&vec![OP_ENTER, 0x04, 0x00, 0x00]), 2);
    assert_eq!(irep_argc(&vec![OP_ENTER, 0x08, 0x20, 0x80]), 5);
    assert_eq!(irep_argc(&vec![OP_ENTER, 0, 0, 0]), 1);
    assert_eq!(irep_argc(&vec![OP_NOP, 0x04, 0, 0]), 0);
    assert_eq!(irep_argc(&vec![]), 0);
}

#[test]
fn which_registers_may_be_outer_locals() {
    assert!(potential_upvar_p(3, 1, 5));
    assert!(!potential_upvar_p(1, 1, 5));
    assert!(!potential_upvar_p(5, 0, 5));
    assert!(!potential_upvar_p(0, 0, 5));
}

#[test]
fn looking_up_enclosing_locals() {
    let a = body(3, &[10, 20], vec![OP_RETURN, 0]);
    let b = body(2, &[30], vec![OP_RETURN, 0]);
    let closures = vec![a, b];
    assert_eq!(search_variable(&closures, 20, 0), 2 << 8);
    assert_eq!(search_variable(&closures, 10, 0), 1 << 8);
    assert_eq!(search_variable(&closures, 30, 1), (1 << 8) | 2);
    assert_eq!(search_variable(&closures, 99, 0), 0);
    assert_eq!(search_variable(&vec![], 10, 0), 0);
}

#[test]
fn locals_beyond_the_count_are_not_searched() {
    let a = body(2, &[10, 20], vec![OP_RETURN, 0]);
    assert_eq!(search_variable(&vec![a], 20, 0), 0);
}

#[test]
fn choosing_the_enclosing_body() {
    assert_eq!(search_irep(3, 1), 2);
    assert_eq!(search_irep(3, 2), 1);
    assert_eq!(search_irep(3, 3), 0);
    assert_eq!(search_irep(3, 5), 2);
    assert_eq!(search_irep(1, 1), 0);
}

#[test]
fn a_call_without_arguments_becomes_a_variable_read() {
    let mut top = body(1, &[], vec![OP_SEND, 1, 0, 0, OP_RETURN, 1]);
    top.syms = vec![20];
    let closures = vec![body(3, &[10, 20], vec![OP_RETURN, 0])];
    assert_eq!(patch_irep(&mut top, &closures), Ok(()));
    assert_eq!(top.iseq, vec![OP_GETUPVAR, 1, 2, 0, OP_RETURN, 1]);
}

#[test]
fn a_call_with_arguments_is_left_alone() {
    let mut top = body(1, &[], vec![OP_SEND, 1, 0, 1, OP_RETURN, 1]);
    top.syms = vec![20];
    let closures = vec![body(3, &[10, 20], vec![OP_RETURN, 0])];
    assert_eq!(patch_irep(&mut top, &closures), Ok(()));
    assert_eq!(top.iseq, vec![OP_SEND, 1, 0, 1, OP_RETURN, 1]);
}

#[test]
fn a_move_from_an_outer_local_becomes_a_read() {
    let mut top =
        body(3, &[10, 20], vec![OP_ENTER, 0, 0, 0, OP_MOVE, 3, 2, OP_RETURN, 3]);
    let closures = vec![body(2, &[20], vec![OP_RETURN, 0])];
    assert_eq!(patch_irep(&mut top, &closures), Ok(()));
    assert_eq!(top.iseq, vec![OP_ENTER, 0, 0, 0, OP_GETUPVAR, 3, 1, 0, 3]);
}

#[test]
fn a_move_into_an_outer_local_becomes_a_write() {
    let mut top = body(3, &[10, 20], vec![OP_MOVE, 2, 4, OP_NOP, OP_RETURN, 2]);
    let closures = vec![body(2, &[20], vec![OP_RETURN, 0])];
    assert_eq!(patch_irep(&mut top, &closures), Ok(()));
    assert_eq!(top.iseq, vec![OP_SETUPVAR, 4, 1, 0, OP_RETURN, 2]);
}

#[test]
fn nested_bodies_reach_through_their_parents() {
    let child = body(1, &[], vec![OP_GETUPVAR, 1, 1, 0, OP_RETURN, 1]);
    let mut top = body(2, &[10], vec![OP_LAMBDA, 1, 0, OP_RETURN, 1]);
    top.reps.push(child);
    let closures = vec![body(2, &[10], vec![OP_RETURN, 0])];
    assert_eq!(patch_irep(&mut top, &closures), Ok(()));
    assert_eq!(top.iseq, vec![OP_LAMBDA, 1, 0, OP_RETURN, 1]);
    assert_eq!(top.reps[0].iseq, vec![OP_GETUPVAR, 1, 1, 1, OP_RETURN, 1]);
}

#[test]
fn without_enclosing_closures_nothing_changes() {
    let child = body(1, &[], vec![OP_GETUPVAR, 1, 1, 0, OP_RETURN, 1]);
    let mut top = body(3, &[10, 20], vec![OP_LAMBDA, 1, 0, OP_MOVE, 2, 1, OP_LOADI, 1, 5]);
    top.syms = vec![10];
    top.reps.push(child);
    assert_eq!(patch_irep(&mut top, &vec![]), Ok(()));
    assert_eq!(top.iseq, vec![OP_LAMBDA, 1, 0, OP_MOVE, 2, 1, OP_LOADI, 1, 5]);
    assert_eq!(top.reps[0].iseq, vec![OP_GETUPVAR, 1, 1, 0, OP_RETURN, 1]);
}

#[test]
fn syntax_error_messages() {
    assert_eq!(
        syntax_error_message(&Some(b"x.rb".to_vec()), 3, &b"syntax error".to_vec()),
        b"file x.rb line 3: syntax error".to_vec()
    );
    assert_eq!(syntax_error_message(&None, 12, &b"oops".to_vec()), b"line 12: oops".to_vec());
}

#[test]
fn an_ensure_body_is_patched_through_its_one_byte_index() {
    let ensure = body(1, &[], vec![OP_GETUPVAR, 1, 1, 0, OP_RETURN, 1]);
    let other = body(1, &[], vec![OP_GETUPVAR, 1, 1, 0, OP_RETURN, 1]);
    let mut top = body(2, &[10], vec![OP_EPUSH, 1, OP_RETURN, 1]);
    top.reps.push(other);
    top.reps.push(ensure);
    let closures = vec![body(2, &[10], vec![OP_RETURN, 0])];
    assert_eq!(patch_irep(&mut top, &closures), Ok(()));
    assert_eq!(top.iseq, vec![OP_EPUSH, 1, OP_RETURN, 1]);
    assert_eq!(top.reps[0].iseq, vec![OP_GETUPVAR, 1, 1, 0, OP_RETURN, 1]);
    assert_eq!(top.reps[1].iseq, vec![OP_GETUPVAR, 1, 1, 1, OP_RETURN, 1]);
}

#[test]
fn prefixed_instructions_are_stepped_over() {
    let mut top = body(1, &[], vec![OP_EXT3, 34, 1, 2, 3, OP_SEND, 1, 0, 0]);
    top.syms = vec![20];
    let closures = vec![body(3, &[10, 20], vec![OP_RETURN, 0])];
    assert_eq!(patch_irep(&mut top, &closures), Ok(()));
    assert_eq!(top.iseq, vec![OP_EXT3, 34, 1, 2, 3, OP_GETUPVAR, 1, 2, 0]);
}

#[test]
fn malformed_bodies_are_refused() {
    let closures = vec![body(3, &[10, 20], vec![OP_RETURN, 0])];
    let mut short = body(1, &[], vec![OP_SEND, 1, 0]);
    short.syms = vec![20];
    assert_eq!(patch_irep(&mut short, &closures), Err(PatchError::MalformedBody));
    let mut no_child = body(1, &[], vec![OP_LAMBDA, 1, 3, OP_RETURN, 1]);
    assert_eq!(patch_irep(&mut no_child, &closures), Err(PatchError::MalformedBody));
    let mut empty = body(1, &[], vec![]);
    assert_eq!(patch_irep(&mut empty, &closures), Err(PatchError::MalformedBody));
    let mut unknown = body(1, &[], vec![200, 0]);
    assert_eq!(patch_irep(&mut unknown, &closures), Err(PatchError::MalformedBody));
    let mut top_upvar = body(1, &[], vec![OP_GETUPVAR, 1, 1, 0]);
    assert_eq!(patch_irep(&mut top_upvar, &closures), Err(PatchError::MalformedBody));
}

#[test]
fn short_closure_tables_are_refused() {
    let closures = vec![body(4, &[10], vec![OP_RETURN, 0])];
    let mut top = body(1, &[], vec![OP_RETURN, 1]);
    assert_eq!(patch_irep(&mut top, &closures), Err(PatchError::MalformedClosure));
    assert_eq!(top.iseq, vec![OP_RETURN, 1]);
}

#[test]
fn eval_strings_are_checked_in_order() {
    assert_eq!(eval_outcome(false, &None, &ParseResult::Parsed, true), Err(EvalError::BindingNotNil));
    assert_eq!(eval_outcome(true, &None, &ParseResult::NoParser, true), Err(EvalError::NoParserState));
    assert_eq!(
        eval_outcome(true, &Some(b"e.rb".to_vec()), &ParseResult::Errors(2, b"bad".to_vec()), true),
        Err(EvalError::Syntax(b"file e.rb line 2: bad".to_vec()))
    );
    assert_eq!(
        eval_outcome(true, &None, &ParseResult::Errors(4, b"bad".to_vec()), true),
        Err(EvalError::Syntax(b"line 4: bad".to_vec()))
    );
    assert_eq!(eval_outcome(true, &None, &ParseResult::Parsed, false), Err(EvalError::Codegen));
    assert_eq!(eval_outcome(true, &None, &ParseResult::Parsed, true), Ok(()));
}
