use diamond::opcode::{
    insn_len, mrb_decode_insn, plain_format, widen, InsnFormat, OP_ENTER, OP_EXT1, OP_EXT2,
    OP_EXT3, OP_JMP, OP_JMPIF, OP_LOADI_3, OP_MOVE, OP_NOP, OP_SEND,
};

#[test]
fn plain_formats_of_some_opcodes() {
    assert_eq!(plain_format(OP_NOP), InsnFormat::Z);
    assert_eq!(plain_format(OP_MOVE), InsnFormat::BB);
    assert_eq!(plain_format(OP_LOADI_3), InsnFormat::B);
    assert_eq!(plain_format(OP_SEND), InsnFormat::BBB);
    assert_eq!(plain_format(OP_JMP), InsnFormat::S);
    assert_eq!(plain_format(OP_JMPIF), InsnFormat::BS);
    assert_eq!(plain_format(OP_ENTER), InsnFormat::W);
}

#[test]
fn widening_prefixes() {
    assert_eq!(widen(OP_EXT1, InsnFormat::BB), InsnFormat::SB);
    assert_eq!(widen(OP_EXT1, InsnFormat::B), InsnFormat::S);
    assert_eq!(widen(OP_EXT2, InsnFormat::BBB), InsnFormat::BSB);
    assert_eq!(widen(OP_EXT2, InsnFormat::B), InsnFormat::B);
    assert_eq!(widen(OP_EXT3, InsnFormat::BS), InsnFormat::BS);
    assert_eq!(widen(OP_EXT3, InsnFormat::B), InsnFormat::B);
}

#[test]
fn decode_plain_instructions() {
    let d = mrb_decode_insn(&[OP_MOVE, 3, 4], 0);
    assert_eq!((d.insn, d.a, d.b, d.c), (OP_MOVE, 3, 4, 0));
    let d = mrb_decode_insn(&[OP_NOP, OP_SEND, 1, 2, 3], 1);
    assert_eq!((d.insn, d.a, d.b, d.c), (OP_SEND, 1, 2, 3));
    let d = mrb_decode_insn(&[OP_JMP, 0x01, 0x02], 0);
    assert_eq!((d.insn, d.a), (OP_JMP, 0x0102));
    let d = mrb_decode_insn(&[OP_JMPIF, 7, 0x10, 0x20], 0);
    assert_eq!((d.insn, d.a, d.b), (OP_JMPIF, 7, 0x1020));
}

#[test]
fn decode_keeps_low_bits_of_wide_operand() {
    let d = mrb_decode_insn(&[OP_ENTER, 0x12, 0x34, 0x56], 0);
    assert_eq!((d.insn, d.a), (OP_ENTER, 0x3456));
}

#[test]
fn decode_extended_instructions() {
    let d = mrb_decode_insn(&[OP_EXT1, OP_MOVE, 0x01, 0x02, 5], 0);
    assert_eq!((d.insn, d.a, d.b), (OP_MOVE, 258, 5));
    let d = mrb_decode_insn(&[OP_EXT2, OP_MOVE, 9, 0x01, 0x00], 0);
    assert_eq!((d.insn, d.a, d.b), (OP_MOVE, 9, 256));
    let d = mrb_decode_insn(&[OP_EXT3, OP_SEND, 0, 1, 0, 2, 3], 0);
    assert_eq!((d.insn, d.a, d.b, d.c), (OP_SEND, 1, 2, 3));
}

#[test]
fn decode_reads_zero_past_the_end() {
    let d = mrb_decode_insn(&[OP_MOVE, 7], 0);
    assert_eq!((d.insn, d.a, d.b), (OP_MOVE, 7, 0));
}

#[test]
fn instruction_lengths() {
    assert_eq!(insn_len(&[OP_MOVE, 1, 2], 0), 3);
    assert_eq!(insn_len(&[OP_NOP], 0), 1);
    assert_eq!(insn_len(&[OP_ENTER, 0, 0, 0], 0), 4);
    assert_eq!(insn_len(&[OP_EXT2, OP_SEND, 0, 0, 0, 0], 0), 6);
    assert_eq!(insn_len(&[OP_EXT3, OP_SEND, 0, 0, 0, 0, 0], 0), 7);
}

#[test]
fn ext3_leaves_a_byte_and_word_layout_alone() {
    let d = mrb_decode_insn(&[OP_EXT3, OP_JMPIF, 1, 2, 3, 4], 0);
    assert_eq!((d.insn, d.a, d.b, d.c), (OP_JMPIF, 1, 0x0203, 0));
    assert_eq!(insn_len(&[OP_EXT3, OP_JMPIF, 1, 2, 3, 4], 0), 5);
}
