//! RiteVM operation codes, their operand layouts, and the instruction decoder.
//!
//! An instruction is an opcode byte followed by its operands.  Operands are
//! 8-bit (`B`), 16-bit big-endian (`S`) or 24-bit (`W`).  The prefixes
//! `OP_EXT1`, `OP_EXT2` and `OP_EXT3` widen the first, the second, or the
//! first two 8-bit operands of the instruction that follows to 16 bits.

use vstd::prelude::*;

verus! {

pub const OP_NOP: u8 = 0;
pub const OP_MOVE: u8 = 1;
pub const OP_LOADL: u8 = 2;
pub const OP_LOADI: u8 = 3;
pub const OP_LOADINEG: u8 = 4;
pub const OP_LOADI__1: u8 = 5;
pub const OP_LOADI_0: u8 = 6;
pub const OP_LOADI_1: u8 = 7;
pub const OP_LOADI_2: u8 = 8;
pub const OP_LOADI_3: u8 = 9;
pub const OP_LOADI_4: u8 = 10;
pub const OP_LOADI_5: u8 = 11;
pub const OP_LOADI_6: u8 = 12;
pub const OP_LOADI_7: u8 = 13;
pub const OP_LOADSYM: u8 = 14;
pub const OP_LOADNIL: u8 = 15;
pub const OP_LOADSELF: u8 = 16;
pub const OP_LOADT: u8 = 17;
pub const OP_LOADF: u8 = 18;
pub const OP_GETGV: u8 = 19;
pub const OP_SETGV: u8 = 20;
pub const OP_GETSV: u8 = 21;
pub const OP_SETSV: u8 = 22;
pub const OP_GETIV: u8 = 23;
pub const OP_SETIV: u8 = 24;
pub const OP_GETCV: u8 = 25;
pub const OP_SETCV: u8 = 26;
pub const OP_GETCONST: u8 = 27;
pub const OP_SETCONST: u8 = 28;
pub const OP_GETMCNST: u8 = 29;
pub const OP_SETMCNST: u8 = 30;
pub const OP_GETUPVAR: u8 = 31;
pub const OP_SETUPVAR: u8 = 32;
pub const OP_JMP: u8 = 33;
pub const OP_JMPIF: u8 = 34;
pub const OP_JMPNOT: u8 = 35;
pub const OP_JMPNIL: u8 = 36;
pub const OP_ONERR: u8 = 37;
pub const OP_EXCEPT: u8 = 38;
pub const OP_RESCUE: u8 = 39;
pub const OP_POPERR: u8 = 40;
pub const OP_RAISE: u8 = 41;
pub const OP_EPUSH: u8 = 42;
pub const OP_EPOP: u8 = 43;
pub const OP_SENDV: u8 = 44;
pub const OP_SENDVB: u8 = 45;
pub const OP_SEND: u8 = 46;
pub const OP_SENDB: u8 = 47;
pub const OP_CALL: u8 = 48;
pub const OP_SUPER: u8 = 49;
pub const OP_ARGARY: u8 = 50;
pub const OP_ENTER: u8 = 51;
pub const OP_KEY_P: u8 = 52;
pub const OP_KEYEND: u8 = 53;
pub const OP_KARG: u8 = 54;
pub const OP_RETURN: u8 = 55;
pub const OP_RETURN_BLK: u8 = 56;
pub const OP_BREAK: u8 = 57;
pub const OP_BLKPUSH: u8 = 58;
pub const OP_ADD: u8 = 59;
pub const OP_ADDI: u8 = 60;
pub const OP_SUB: u8 = 61;
pub const OP_SUBI: u8 = 62;
pub const OP_MUL: u8 = 63;
pub const OP_DIV: u8 = 64;
pub const OP_EQ: u8 = 65;
pub const OP_LT: u8 = 66;
pub const OP_LE: u8 = 67;
pub const OP_GT: u8 = 68;
pub const OP_GE: u8 = 69;
pub const OP_ARRAY: u8 = 70;
pub const OP_ARRAY2: u8 = 71;
pub const OP_ARYCAT: u8 = 72;
pub const OP_ARYPUSH: u8 = 73;
pub const OP_ARYDUP: u8 = 74;
pub const OP_AREF: u8 = 75;
pub const OP_ASET: u8 = 76;
pub const OP_APOST: u8 = 77;
pub const OP_INTERN: u8 = 78;
pub const OP_STRING: u8 = 79;
pub const OP_STRCAT: u8 = 80;
pub const OP_HASH: u8 = 81;
pub const OP_HASHADD: u8 = 82;
pub const OP_HASHCAT: u8 = 83;
pub const OP_LAMBDA: u8 = 84;
pub const OP_BLOCK: u8 = 85;
pub const OP_METHOD: u8 = 86;
pub const OP_RANGE_INC: u8 = 87;
pub const OP_RANGE_EXC: u8 = 88;
pub const OP_OCLASS: u8 = 89;
pub const OP_CLASS: u8 = 90;
pub const OP_MODULE: u8 = 91;
pub const OP_EXEC: u8 = 92;
pub const OP_DEF: u8 = 93;
pub const OP_ALIAS: u8 = 94;
pub const OP_UNDEF: u8 = 95;
pub const OP_SCLASS: u8 = 96;
pub const OP_TCLASS: u8 = 97;
pub const OP_DEBUG: u8 = 98;
pub const OP_ERR: u8 = 99;
pub const OP_EXT1: u8 = 100;
pub const OP_EXT2: u8 = 101;
pub const OP_EXT3: u8 = 102;
pub const OP_STOP: u8 = 103;

/// Decoded form of one instruction: its opcode and up to three operands.
#[allow(non_camel_case_types)]
#[derive(Clone, Copy, Debug, PartialEq, Eq, Structural)]
pub struct mrb_insn_data {
    pub insn: u8,
    pub a: u16,
    pub b: u16,
    pub c: u8,
}

/// The operand layout of an instruction (after any widening prefix).
#[derive(Clone, Copy, Debug, PartialEq, Eq, Structural)]
pub enum InsnFormat {
    Z,
    B,
    BB,
    BBB,
    BS,
    S,
    W,
    SB,
    SBB,
    SS,
    SSB,
    BSB,
}

/// The operand layout of an opcode when no widening prefix precedes it.
pub open spec fn spec_plain_format(op: u8) -> InsnFormat {
    if op == 1 || op == 2 || op == 3 || op == 4 || op == 14 || (19 <= op && op <= 30) || op == 39
        || op == 44 || op == 45 || op == 49 || op == 52 || op == 54 || op == 60 || op == 62
        || op == 70 || op == 79 || op == 81 || op == 82 || (84 <= op && op <= 86) || (90 <= op
        && op <= 94) {
        InsnFormat::BB
    } else if (5 <= op && op <= 13) || (15 <= op && op <= 18) || op == 38 || (40 <= op && op
        <= 43) || (55 <= op && op <= 57) || op == 59 || op == 61 || (63 <= op && op <= 69) || (72
        <= op && op <= 74) || op == 78 || op == 80 || op == 83 || (87 <= op && op <= 89) || (95
        <= op && op <= 97) || op == 99 {
        InsnFormat::B
    } else if op == 31 || op == 32 || op == 46 || op == 47 || op == 71 || op == 75 || op == 76
        || op == 77 || op == 98 {
        InsnFormat::BBB
    } else if op == 33 || op == 37 {
        InsnFormat::S
    } else if op == 34 || op == 35 || op == 36 || op == 50 || op == 58 {
        InsnFormat::BS
    } else if op == 51 {
        InsnFormat::W
    } else {
        InsnFormat::Z
    }
}

/// Whether `b` is one of the operand-widening prefixes.
pub open spec fn is_ext_prefix(b: u8) -> bool {
    b == OP_EXT1 || b == OP_EXT2 || b == OP_EXT3
}

/// The layout after a widening prefix: `OP_EXT1` widens the first 8-bit
/// operand, `OP_EXT2` the second, `OP_EXT3` the first two (single-operand
/// layouts, and `BS` whose second operand is already 16-bit, are left
/// alone by `OP_EXT3`).
pub open spec fn spec_widen(ext: u8, f: InsnFormat) -> InsnFormat {
    if ext == OP_EXT1 {
        match f {
            InsnFormat::B => InsnFormat::S,
            InsnFormat::BB => InsnFormat::SB,
            InsnFormat::BBB => InsnFormat::SBB,
            InsnFormat::BS => InsnFormat::SS,
            _ => f,
        }
    } else if ext == OP_EXT2 {
        match f {
            InsnFormat::BB => InsnFormat::BS,
            InsnFormat::BBB => InsnFormat::BSB,
            _ => f,
        }
    } else if ext == OP_EXT3 {
        match f {
            InsnFormat::BB => InsnFormat::SS,
            InsnFormat::BBB => InsnFormat::SSB,
            _ => f,
        }
    } else {
        f
    }
}

/// Number of operand bytes of a layout.
pub open spec fn format_width(f: InsnFormat) -> nat {
    match f {
        InsnFormat::Z => 0,
        InsnFormat::B => 1,
        InsnFormat::S => 2,
        InsnFormat::W => 3,
        InsnFormat::BB => 2,
        InsnFormat::SB => 3,
        InsnFormat::BS => 3,
        InsnFormat::SS => 4,
        InsnFormat::BBB => 3,
        InsnFormat::SBB => 4,
        InsnFormat::BSB => 4,
        InsnFormat::SSB => 5,
    }
}

/// The byte at `i`, reading zero outside the sequence.
pub open spec fn byte_at(code: Seq<u8>, i: int) -> u8 {
    if 0 <= i < code.len() {
        code[i]
    } else {
        0
    }
}

/// An 8-bit operand at `i`.
pub open spec fn read_b(code: Seq<u8>, i: int) -> u16 {
    byte_at(code, i) as u16
}

/// A 16-bit big-endian operand at `i`.
pub open spec fn read_s(code: Seq<u8>, i: int) -> u16 {
    (byte_at(code, i) as int * 256 + byte_at(code, i + 1) as int) as u16
}

/// A 24-bit operand at `i`, kept to its low 16 bits.
pub open spec fn read_w(code: Seq<u8>, i: int) -> u16 {
    read_s(code, i + 1)
}

/// The operands `(a, b, c)` of layout `f` whose first operand byte is at `at`.
pub open spec fn decode_operands(f: InsnFormat, code: Seq<u8>, at: int) -> (u16, u16, u8) {
    match f {
        InsnFormat::Z => (0, 0, 0),
        InsnFormat::B => (read_b(code, at), 0, 0),
        InsnFormat::S => (read_s(code, at), 0, 0),
        InsnFormat::W => (read_w(code, at), 0, 0),
        InsnFormat::BB => (read_b(code, at), read_b(code, at + 1), 0),
        InsnFormat::SB => (read_s(code, at), read_b(code, at + 2), 0),
        InsnFormat::BS => (read_b(code, at), read_s(code, at + 1), 0),
        InsnFormat::SS => (read_s(code, at), read_s(code, at + 2), 0),
        InsnFormat::BBB => (read_b(code, at), read_b(code, at + 1), byte_at(code, at + 2)),
        InsnFormat::SBB => (read_s(code, at), read_b(code, at + 2), byte_at(code, at + 3)),
        InsnFormat::BSB => (read_b(code, at), read_s(code, at + 1), byte_at(code, at + 3)),
        InsnFormat::SSB => (read_s(code, at), read_s(code, at + 2), byte_at(code, at + 4)),
    }
}

/// The opcode of the instruction at `pc` (the one after a widening prefix).
pub open spec fn spec_insn_opcode(code: Seq<u8>, pc: int) -> u8 {
    if is_ext_prefix(byte_at(code, pc)) {
        byte_at(code, pc + 1)
    } else {
        byte_at(code, pc)
    }
}

/// The operand layout of the instruction at `pc`.
pub open spec fn spec_insn_format(code: Seq<u8>, pc: int) -> InsnFormat {
    let first = byte_at(code, pc);
    if is_ext_prefix(first) {
        spec_widen(first, spec_plain_format(byte_at(code, pc + 1)))
    } else {
        spec_plain_format(first)
    }
}

/// Number of bytes before the operands of the instruction at `pc`.
pub open spec fn spec_insn_header(code: Seq<u8>, pc: int) -> nat {
    if is_ext_prefix(byte_at(code, pc)) {
        2
    } else {
        1
    }
}

/// Total length in bytes of the instruction at `pc`.
pub open spec fn spec_insn_len(code: Seq<u8>, pc: int) -> nat {
    spec_insn_header(code, pc) + format_width(spec_insn_format(code, pc))
}

/// The instruction at `pc`, decoded.
pub open spec fn spec_decode_insn(code: Seq<u8>, pc: int) -> mrb_insn_data {
    let ops = decode_operands(
        spec_insn_format(code, pc),
        code,
        pc + spec_insn_header(code, pc),
    );
    mrb_insn_data { insn: spec_insn_opcode(code, pc), a: ops.0, b: ops.1, c: ops.2 }
}

/// The operand layout of `op` when no widening prefix precedes it.
pub fn plain_format(op: u8) -> (f: InsnFormat)
    ensures
        f == spec_plain_format(op),
{
    match op {
        1..=4 | 14 | 19..=30 | 39 | 44 | 45 | 49 | 52 | 54 | 60 | 62 | 70 | 79 | 81 | 82
        | 84..=86 | 90..=94 => InsnFormat::BB,
        5..=13 | 15..=18 | 38 | 40..=43 | 55..=57 | 59 | 61 | 63..=69 | 72..=74 | 78 | 80 | 83
        | 87..=89 | 95..=97 | 99 => InsnFormat::B,
        31 | 32 | 46 | 47 | 71 | 75 | 76 | 77 | 98 => InsnFormat::BBB,
        33 | 37 => InsnFormat::S,
        34 | 35 | 36 | 50 | 58 => InsnFormat::BS,
        51 => InsnFormat::W,
        _ => InsnFormat::Z,
    }
}

/// The layout of `f` after the widening prefix `ext`.
pub fn widen(ext: u8, f: InsnFormat) -> (g: InsnFormat)
    ensures
        g == spec_widen(ext, f),
{
    if ext == OP_EXT1 {
        match f {
            InsnFormat::B => InsnFormat::S,
            InsnFormat::BB => InsnFormat::SB,
            InsnFormat::BBB => InsnFormat::SBB,
            InsnFormat::BS => InsnFormat::SS,
            _ => f,
        }
    } else if ext == OP_EXT2 {
        match f {
            InsnFormat::BB => InsnFormat::BS,
            InsnFormat::BBB => InsnFormat::BSB,
            _ => f,
        }
    } else if ext == OP_EXT3 {
        match f {
            InsnFormat::BB => InsnFormat::SS,
            InsnFormat::BBB => InsnFormat::SSB,
            _ => f,
        }
    } else {
        f
    }
}

/// The byte `off` places after `pc`, or zero past the end of `code`.
fn fetch(code: &[u8], pc: usize, off: usize) -> (r: u8)
    requires
        pc < code@.len(),
        off <= 8,
    ensures
        r == byte_at(code@, pc + off),
{
    if off < code.len() - pc {
        code[pc + off]
    } else {
        0
    }
}

/// A 16-bit big-endian operand `off` places after `pc`.
fn fetch_s(code: &[u8], pc: usize, off: usize) -> (r: u16)
    requires
        pc < code@.len(),
        off <= 7,
    ensures
        r == read_s(code@, pc + off),
{
    let hi = fetch(code, pc, off) as u16;
    let lo = fetch(code, pc, off + 1) as u16;
    hi * 256 + lo
}

/// Decodes the instruction that starts at `code[pc]`.  Operand bytes past the
/// end of `code` read as zero.
pub fn mrb_decode_insn(code: &[u8], pc: usize) -> (data: mrb_insn_data)
    requires
        pc < code@.len(),
    ensures
        data == spec_decode_insn(code@, pc as int),
{
    let first = fetch(code, pc, 0);
    let insn;
    let f;
    let at: usize;
    if first == OP_EXT1 || first == OP_EXT2 || first == OP_EXT3 {
        insn = fetch(code, pc, 1);
        f = widen(first, plain_format(insn));
        at = 2;
    } else {
        insn = first;
        f = plain_format(first);
        at = 1;
    }
    let mut a: u16 = 0;
    let mut b: u16 = 0;
    let mut c: u8 = 0;
    match f {
        InsnFormat::Z => {},
        InsnFormat::B => {
            a = fetch(code, pc, at) as u16;
        },
        InsnFormat::S => {
            a = fetch_s(code, pc, at);
        },
        InsnFormat::W => {
            a = fetch_s(code, pc, at + 1);
        },
        InsnFormat::BB => {
            a = fetch(code, pc, at) as u16;
            b = fetch(code, pc, at + 1) as u16;
        },
        InsnFormat::SB => {
            a = fetch_s(code, pc, at);
            b = fetch(code, pc, at + 2) as u16;
        },
        InsnFormat::BS => {
            a = fetch(code, pc, at) as u16;
            b = fetch_s(code, pc, at + 1);
        },
        InsnFormat::SS => {
            a = fetch_s(code, pc, at);
            b = fetch_s(code, pc, at + 2);
        },
        InsnFormat::BBB => {
            a = fetch(code, pc, at) as u16;
            b = fetch(code, pc, at + 1) as u16;
            c = fetch(code, pc, at + 2);
        },
        InsnFormat::SBB => {
            a = fetch_s(code, pc, at);
            b = fetch(code, pc, at + 2) as u16;
            c = fetch(code, pc, at + 3);
        },
        InsnFormat::BSB => {
            a = fetch(code, pc, at) as u16;
            b = fetch_s(code, pc, at + 1);
            c = fetch(code, pc, at + 3);
        },
        InsnFormat::SSB => {
            a = fetch_s(code, pc, at);
            b = fetch_s(code, pc, at + 2);
            c = fetch(code, pc, at + 4);
        },
    }
    mrb_insn_data { insn, a, b, c }
}

/// Length in bytes of the instruction that starts at `code[pc]`.
pub fn insn_len(code: &[u8], pc: usize) -> (n: usize)
    requires
        pc < code@.len(),
    ensures
        n == spec_insn_len(code@, pc as int),
{
    let first = fetch(code, pc, 0);
    let f;
    let header: usize;
    if first == OP_EXT1 || first == OP_EXT2 || first == OP_EXT3 {
        f = widen(first, plain_format(fetch(code, pc, 1)));
        header = 2;
    } else {
        f = plain_format(first);
        header = 1;
    }
    let w: usize = match f {
        InsnFormat::Z => 0,
        InsnFormat::B => 1,
        InsnFormat::S => 2,
        InsnFormat::W => 3,
        InsnFormat::BB => 2,
        InsnFormat::SB => 3,
        InsnFormat::BS => 3,
        InsnFormat::SS => 4,
        InsnFormat::BBB => 3,
        InsnFormat::SBB => 4,
        InsnFormat::BSB => 4,
        InsnFormat::SSB => 5,
    };
    header + w
}

} // verus!
