use diamond::args::{enter_aspec, ArgSpec};
use diamond::codegen::{scope, CodegenError, PoolValue};
use diamond::eval::irep_argc;
use diamond::irep::{scope_new, scope_new_root};
use diamond::opcode::{
    OP_ADDI, OP_ENTER, OP_EXT2, OP_GETGV, OP_JMP, OP_JMPNOT, OP_LAMBDA, OP_LOADI, OP_LOADI_0,
    OP_LOADI_1, OP_LOADI_2, OP_LOADI_3, OP_LOADL, OP_LOADNIL, OP_LOADSELF, OP_RETURN, OP_SEND,
    OP_BLOCK, OP_GETUPVAR, OP_MOVE, OP_ARRAY, OP_JMPIF, OP_ERR, OP_STRING, OP_STRCAT, OP_TCLASS, OP_METHOD, OP_DEF, OP_LOADSYM, OP_ALIAS, OP_UNDEF, OP_HASH, OP_BLKPUSH, OP_LOADINEG, OP_OCLASS, OP_GETMCNST, OP_CLASS, OP_MODULE, OP_EXEC, OP_ARGARY, OP_SUPER, OP_SETGV, OP_ONERR, OP_POPERR, OP_EXCEPT, OP_LOADF, OP_GETCONST, OP_SETCONST,
};
use diamond::opcode::{OP_DIV, OP_EQ, OP_GE, OP_GT, OP_LE, OP_LT, OP_MUL};
use diamond::walk::{
    codegen, gen_call, lambda_body, ClassBase, LambdaDef, Node, OperatorSyms, OptArg, Params, ScopeBody,
};

fn ops() -> OperatorSyms {
    OperatorSyms { call: 10, uminus: 11, oror: 12, andand: 13, add: 1, sub: 2, mul: 3, div: 4, lt: 5, le: 6, gt: 7, ge: 8, eq: 9 }
}

fn body(lv: Vec<u32>) -> scope {
    scope_new(&scope_new_root(0, 0, false, false), lv)
}

fn code(s: &scope) -> Vec<u8> {
    s.iseq[..s.pc as usize].to_vec()
}

fn lit(d: &[u8]) -> Node {
    Node::Int(d.to_vec(), 10, 0)
}

#[test]
fn argument_specification_and_count() {
    let a = ArgSpec { ma: 2, oa: 1, ra: false, pa: 1, ka: 0, kd: false, ba: true };
    let x = enter_aspec(&a).unwrap();
    assert_eq!(x, (2 << 18) | (1 << 13) | (1 << 7) | 1);
    let insn = vec![OP_ENTER, (x >> 16) as u8, (x >> 8) as u8, x as u8];
    assert_eq!(irep_argc(&insn), 5);
    let big = ArgSpec { ma: 32, oa: 0, ra: false, pa: 0, ka: 0, kd: false, ba: false };
    assert_eq!(enter_aspec(&big), Err(CodegenError::TooManyFormalArguments));
}

#[test]
fn nil_for_its_value_and_for_its_effect() {
    let mut s = body(vec![]);
    assert_eq!(codegen(&mut s, &Node::Nil, true, &ops()), Ok(()));
    assert_eq!(code(&s), vec![OP_LOADNIL, 1]);
    assert_eq!(s.sp, 2);
    assert_eq!(codegen(&mut s, &Node::Nil, false, &ops()), Ok(()));
    assert_eq!(s.pc, 2);
    assert_eq!(s.sp, 2);
    assert_eq!(s.rlev, 1);
}

#[test]
fn integer_literals() {
    let mut s = body(vec![]);
    assert_eq!(codegen(&mut s, &lit(b"5"), true, &ops()), Ok(()));
    assert_eq!(codegen(&mut s, &lit(b"300"), true, &ops()), Ok(()));
    assert_eq!(code(&s), vec![OP_LOADI_0 + 5, 1, OP_EXT2, OP_LOADI, 2, 1, 44]);
    let bits = 0x4415af1d78b58c40u64;
    let big = Node::Int(b"99999999999999999999".to_vec(), 10, bits);
    assert_eq!(codegen(&mut s, &big, true, &ops()), Ok(()));
    assert_eq!(s.pool, vec![PoolValue::Float(bits)]);
    assert_eq!(code(&s)[7..].to_vec(), vec![OP_LOADL, 3, 0]);
    assert_eq!(s.sp, 4);
    let bad = Node::Int(b"12".to_vec(), 40, 0);
    assert_eq!(codegen(&mut s, &bad, true, &ops()), Err(CodegenError::MalformedReadintInput));
}

#[test]
fn an_addition_of_a_small_constant_folds_into_addi() {
    let mut s = body(vec![]);
    let t = Node::Call(Box::new(lit(b"1")), 1, vec![lit(b"2")], None);
    assert_eq!(codegen(&mut s, &t, true, &ops()), Ok(()));
    assert_eq!(code(&s), vec![OP_LOADI_1, 1, OP_ADDI, 1, 2]);
    assert_eq!(s.sp, 2);
}

#[test]
fn a_method_call_sends_its_arguments() {
    let mut s = body(vec![]);
    let args = vec![lit(b"1")];
    assert_eq!(gen_call(&mut s, &Node::SelfValue, 77, &args, &None, false, false, &ops()), Ok(()));
    assert_eq!(code(&s), vec![OP_LOADSELF, 1, OP_LOADI_1, 2, OP_SEND, 1, 0, 1]);
    assert_eq!(s.syms, vec![77]);
    assert_eq!(s.sp, 1);
}

#[test]
fn if_else_jumps_around_the_branches() {
    let mut s = body(vec![]);
    let t = Node::If(Box::new(Node::GVar(9)), Some(Box::new(lit(b"1"))), Some(Box::new(lit(b"2"))));
    assert_eq!(codegen(&mut s, &t, true, &ops()), Ok(()));
    assert_eq!(
        code(&s),
        vec![OP_GETGV, 1, 0, OP_JMPNOT, 1, 0, 12, OP_LOADI_1, 1, OP_JMP, 0, 14, OP_LOADI_2, 1]
    );
    assert_eq!(s.sp, 2);
    let mut s = body(vec![]);
    let t = Node::If(Box::new(Node::True), Some(Box::new(lit(b"1"))), Some(Box::new(lit(b"2"))));
    assert_eq!(codegen(&mut s, &t, true, &ops()), Ok(()));
    assert_eq!(code(&s), vec![OP_LOADI_1, 1]);
}

#[test]
fn locals_of_this_body_and_of_enclosing_ones() {
    let outer = body(vec![40, 41]);
    let mut s = scope_new(&outer, vec![50]);
    assert_eq!(codegen(&mut s, &Node::LVar(50), true, &ops()), Ok(()));
    assert_eq!(codegen(&mut s, &Node::LVar(41), true, &ops()), Ok(()));
    assert_eq!(code(&s), vec![OP_MOVE, 2, 1, OP_GETUPVAR, 3, 2, 0]);
    assert_eq!(s.sp, 4);
}

#[test]
fn array_literal() {
    let mut s = body(vec![]);
    let t = Node::Array(vec![lit(b"1"), lit(b"2")]);
    assert_eq!(codegen(&mut s, &t, true, &ops()), Ok(()));
    assert_eq!(code(&s), vec![OP_LOADI_1, 1, OP_LOADI_2, 2, OP_ARRAY, 1, 2]);
    assert_eq!(s.sp, 2);
}

#[test]
fn a_lambda_becomes_a_nested_body() {
    let mut s = body(vec![]);
    let def = LambdaDef {
        locals: vec![5, 6, 7],
        params: Some(Params { mandatory: 2, optional: vec![], rest: false, post: 1, block: false }),
        body: Node::Nil,
    };
    assert_eq!(codegen(&mut s, &Node::Lambda(Box::new(def)), true, &ops()), Ok(()));
    assert_eq!(code(&s), vec![OP_LAMBDA, 1, 0]);
    assert_eq!(s.reps.len(), 1);
    let child = &s.reps[0];
    assert_eq!(child.iseq, vec![OP_ENTER, 0x08, 0x00, 0x80, OP_LOADNIL, 4, OP_RETURN, 4]);
    assert_eq!(irep_argc(&child.iseq), 4);
}

#[test]
fn optional_arguments_get_a_jump_table() {
    let mut s = body(vec![]);
    let def = LambdaDef {
        locals: vec![5],
        params: Some(Params {
            mandatory: 0,
            optional: vec![OptArg { name: 5, default: lit(b"3") }],
            rest: false,
            post: 0,
            block: false,
        }),
        body: Node::Nil,
    };
    assert_eq!(lambda_body(&mut s, &def, true, &ops()), Ok(0));
    let child = &s.reps[0];
    assert_eq!(
        child.iseq,
        vec![OP_ENTER, 0, 0x20, 0, OP_JMP, 0, 10, OP_JMP, 0, 12, OP_LOADI_3, 1, OP_LOADNIL, 2, OP_RETURN, 2]
    );
    assert_eq!(irep_argc(&child.iseq), 2);
    assert_eq!(codegen(&mut s, &Node::Block(Box::new(LambdaDef { locals: vec![], params: None, body: Node::Nil })), true, &ops()), Ok(()));
    assert_eq!(code(&s), vec![OP_BLOCK, 1, 1]);
    assert_eq!(s.reps[1].iseq, vec![OP_ENTER, 0, 0, 0, OP_LOADNIL, 1, OP_RETURN, 1]);
    assert_eq!(irep_argc(&s.reps[1].iseq), 1);
}

#[test]
fn too_many_formal_arguments() {
    let mut s = body(vec![]);
    let def = LambdaDef {
        locals: vec![],
        params: Some(Params { mandatory: 32, optional: vec![], rest: false, post: 0, block: false }),
        body: Node::Nil,
    };
    assert_eq!(lambda_body(&mut s, &def, false, &ops()), Err(CodegenError::TooManyFormalArguments));
}

#[test]
fn too_deep_nesting_is_too_complex() {
    let mut s = body(vec![]);
    s.rlev = 1024;
    assert_eq!(codegen(&mut s, &Node::Nil, true, &ops()), Err(CodegenError::TooComplexExpression));
}

#[test]
fn while_loop_jumps_to_its_condition_first() {
    let mut s = body(vec![]);
    let call = Node::Call(Box::new(Node::SelfValue), 77, vec![], None);
    let t = Node::While(Box::new(Node::GVar(9)), Box::new(call));
    assert_eq!(codegen(&mut s, &t, true, &ops()), Ok(()));
    assert_eq!(
        code(&s),
        vec![OP_JMP, 0, 9, OP_LOADSELF, 1, OP_SEND, 1, 0, 0, OP_GETGV, 1, 1, OP_JMPIF, 1, 0, 3, OP_LOADNIL, 1]
    );
    assert_eq!(s.syms, vec![77, 9]);
    assert_eq!(s.sp, 2);
    assert!(s.loops.is_empty());
}

#[test]
fn redo_jumps_back_into_the_body() {
    let mut s = body(vec![]);
    let t = Node::While(Box::new(Node::GVar(9)), Box::new(Node::Redo));
    assert_eq!(codegen(&mut s, &t, false, &ops()), Ok(()));
    assert_eq!(code(&s), vec![OP_JMP, 0, 6, OP_JMP, 0, 3, OP_GETGV, 1, 0, OP_JMPIF, 1, 0, 3]);
    assert_eq!(s.sp, 1);
}

#[test]
fn next_outside_a_loop_raises() {
    let mut s = body(vec![]);
    assert_eq!(codegen(&mut s, &Node::Next(None), false, &ops()), Ok(()));
    assert_eq!(code(&s), vec![OP_ERR, 0]);
    assert_eq!(s.pool, vec![PoolValue::Str(b"unexpected next".to_vec())]);
}

#[test]
fn interpolated_string_is_concatenated() {
    let mut s = body(vec![]);
    let t = Node::DStr(vec![Node::Str(b"a".to_vec()), Node::GVar(9)]);
    assert_eq!(codegen(&mut s, &t, true, &ops()), Ok(()));
    assert_eq!(code(&s), vec![OP_STRING, 1, 0, OP_GETGV, 2, 0, OP_STRCAT, 1]);
    assert_eq!(s.sp, 2);
}

#[test]
fn method_definition() {
    let mut s = body(vec![]);
    let def = LambdaDef { locals: vec![], params: None, body: Node::Nil };
    assert_eq!(codegen(&mut s, &Node::Def(5, Box::new(def)), true, &ops()), Ok(()));
    assert_eq!(code(&s), vec![OP_TCLASS, 1, OP_METHOD, 2, 0, OP_DEF, 1, 0, OP_LOADSYM, 1, 0]);
    assert_eq!(s.reps[0].iseq, vec![OP_ENTER, 0, 0, 0, OP_LOADNIL, 1, OP_RETURN, 1]);
    assert_eq!(s.sp, 2);
}

#[test]
fn alias_and_undef() {
    let mut s = body(vec![]);
    assert_eq!(codegen(&mut s, &Node::Alias(3, 4), false, &ops()), Ok(()));
    assert_eq!(codegen(&mut s, &Node::Undef(vec![3, 7]), true, &ops()), Ok(()));
    assert_eq!(code(&s), vec![OP_ALIAS, 0, 1, OP_UNDEF, 0, OP_UNDEF, 2, OP_LOADNIL, 1]);
    assert_eq!(s.syms, vec![3, 4, 7]);
}

#[test]
fn hash_literal() {
    let mut s = body(vec![]);
    let t = Node::Hash(vec![(Node::Sym(1), lit(b"2"))]);
    assert_eq!(codegen(&mut s, &t, true, &ops()), Ok(()));
    assert_eq!(code(&s), vec![OP_LOADSYM, 1, 0, OP_LOADI_2, 2, OP_HASH, 1, 1]);
    assert_eq!(s.sp, 2);
    assert_eq!(codegen(&mut s, &Node::Hash(vec![]), true, &ops()), Ok(()));
    assert_eq!(code(&s)[8..].to_vec(), vec![OP_HASH, 2, 0]);
}

#[test]
fn yield_pushes_the_block_of_the_enclosing_method() {
    let mut s = body(vec![]);
    let def = LambdaDef {
        locals: vec![8],
        params: Some(Params { mandatory: 1, optional: vec![], rest: false, post: 0, block: false }),
        body: Node::Yield(vec![]),
    };
    assert_eq!(codegen(&mut s, &Node::Def(5, Box::new(def)), false, &ops()), Ok(()));
    assert_eq!(
        s.reps[0].iseq,
        vec![OP_ENTER, 4, 0, 0, OP_BLKPUSH, 2, 8, 0, OP_SEND, 2, 0, 0, OP_RETURN, 2]
    );
    assert_eq!(s.reps[0].syms, vec![10]);
    let mut t = body(vec![]);
    assert_eq!(codegen(&mut t, &Node::Yield(vec![]), false, &ops()), Ok(()));
    assert_eq!(code(&t), vec![OP_BLKPUSH, 1, 0, 2, OP_SEND, 1, 0, 0]);
}

#[test]
fn negation_and_scoped_constants() {
    let mut s = body(vec![]);
    assert_eq!(codegen(&mut s, &Node::Negate(Box::new(lit(b"5"))), true, &ops()), Ok(()));
    assert_eq!(codegen(&mut s, &Node::Negate(Box::new(Node::GVar(9))), true, &ops()), Ok(()));
    assert_eq!(codegen(&mut s, &Node::Colon3(4), true, &ops()), Ok(()));
    assert_eq!(
        code(&s),
        vec![OP_LOADINEG, 1, 5, OP_GETGV, 2, 1, OP_SEND, 2, 0, 0, OP_OCLASS, 3, OP_GETMCNST, 3, 2]
    );
    assert_eq!(s.syms, vec![11, 9, 4]);
    assert_eq!(s.sp, 4);
    let mut t = body(vec![]);
    assert_eq!(codegen(&mut t, &Node::Negate(Box::new(Node::Float(0x3ff0000000000000))), true, &ops()), Ok(()));
    assert_eq!(t.pool, vec![PoolValue::Float(0xbff0000000000000)]);
    assert_eq!(code(&t), vec![OP_LOADL, 1, 0]);
}

#[test]
fn classes_and_modules() {
    let mut s = body(vec![]);
    let empty = ScopeBody { locals: vec![], body: Node::Begin(vec![]) };
    assert_eq!(codegen(&mut s, &Node::Class(ClassBase::Here, 20, None, Box::new(empty)), false, &ops()), Ok(()));
    assert_eq!(code(&s), vec![OP_LOADNIL, 1, OP_LOADNIL, 2, OP_CLASS, 1, 0, OP_LOADNIL, 1]);
    assert_eq!(s.sp, 1);
    let mut t = body(vec![]);
    let b = ScopeBody { locals: vec![], body: Node::Nil };
    assert_eq!(codegen(&mut t, &Node::Module(ClassBase::Toplevel, 21, Box::new(b)), true, &ops()), Ok(()));
    assert_eq!(code(&t), vec![OP_OCLASS, 1, OP_MODULE, 1, 0, OP_EXEC, 1, 0]);
    assert_eq!(t.reps[0].iseq, vec![OP_LOADNIL, 1, OP_RETURN, 1]);
    assert_eq!(t.sp, 2);
}

fn method(body: Node) -> Node {
    Node::Def(
        5,
        Box::new(LambdaDef {
            locals: vec![8],
            params: Some(Params { mandatory: 1, optional: vec![], rest: false, post: 0, block: false }),
            body,
        }),
    )
}

#[test]
fn super_calls() {
    let mut s = body(vec![]);
    assert_eq!(codegen(&mut s, &method(Node::Super(vec![lit(b"1")], None)), false, &ops()), Ok(()));
    assert_eq!(
        s.reps[0].iseq,
        vec![OP_ENTER, 4, 0, 0, OP_ARGARY, 3, 0, 0, OP_LOADI_1, 3, OP_LOADNIL, 4, OP_SUPER, 2, 1, OP_RETURN, 2]
    );
    assert_eq!(codegen(&mut s, &method(Node::ZSuper(None)), false, &ops()), Ok(()));
    assert_eq!(s.reps[1].iseq, vec![OP_ENTER, 4, 0, 0, OP_ARGARY, 3, 8, 0, OP_SUPER, 2, 127, OP_RETURN, 2]);
}

#[test]
fn operator_assignments() {
    let mut s = body(vec![]);
    let t = Node::OpAsgn(Box::new(Node::GVar(9)), 1, Box::new(lit(b"1")));
    assert_eq!(codegen(&mut s, &t, false, &ops()), Ok(()));
    assert_eq!(code(&s), vec![OP_GETGV, 1, 0, OP_ADDI, 1, 1, OP_SETGV, 1, 0]);
    assert_eq!(s.sp, 1);
    let mut s = body(vec![40]);
    let t = Node::OpAsgn(Box::new(Node::LVar(40)), 12, Box::new(lit(b"2")));
    assert_eq!(codegen(&mut s, &t, false, &ops()), Ok(()));
    assert_eq!(code(&s), vec![OP_JMPIF, 1, 0, 6, OP_LOADI_2, 1]);
    assert_eq!(s.sp, 2);
    let mut s = body(vec![]);
    let t = Node::OpAsgn(Box::new(Node::Const(7)), 12, Box::new(lit(b"3")));
    assert_eq!(codegen(&mut s, &t, false, &ops()), Ok(()));
    assert_eq!(
        code(&s),
        vec![
            OP_ONERR, 0, 11, OP_GETCONST, 1, 0, OP_POPERR, 1, OP_JMP, 0, 15, OP_EXCEPT, 1, OP_LOADF, 1,
            OP_JMPIF, 1, 0, 24, OP_LOADI_3, 1, OP_SETCONST, 1, 0
        ]
    );
    assert!(s.loops.is_empty());
}

#[test]
fn binary_operators_get_their_own_instructions() {
    let table = [(3, OP_MUL), (4, OP_DIV), (5, OP_LT), (6, OP_LE), (7, OP_GT), (8, OP_GE), (9, OP_EQ)];
    for (mid, insn) in table {
        let mut s = body(vec![]);
        let args = vec![lit(b"2")];
        assert_eq!(gen_call(&mut s, &Node::SelfValue, mid, &args, &None, true, false, &ops()), Ok(()));
        assert_eq!(code(&s), vec![OP_LOADSELF, 1, OP_LOADI_2, 2, insn, 1]);
        assert!(s.syms.is_empty());
        assert_eq!(s.sp, 2);
    }
    let mut s = body(vec![]);
    let args = vec![lit(b"2"), lit(b"3")];
    assert_eq!(gen_call(&mut s, &Node::SelfValue, 3, &args, &None, true, false, &ops()), Ok(()));
    assert_eq!(code(&s), vec![OP_LOADSELF, 1, OP_LOADI_2, 2, OP_LOADI_3, 3, OP_SEND, 1, 0, 2]);
}

#[test]
fn leaf_expressions_for_their_value() {
    let mut s = body(vec![]);
    assert_eq!(codegen(&mut s, &Node::Sym(42), true, &ops()), Ok(()));
    assert_eq!(codegen(&mut s, &Node::GVar(43), true, &ops()), Ok(()));
    assert_eq!(code(&s), vec![OP_LOADSYM, 1, 0, OP_GETGV, 2, 1]);
    assert_eq!(s.syms, vec![42, 43]);
    assert_eq!(s.sp, 3);
    assert_eq!(s.rlev, 1);
}
