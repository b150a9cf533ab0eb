//! Verified core of a small Ruby bytecode toolchain: the CRC used to seal
//! compiled images, the instruction decoder, the bytecode emitter of a
//! method body (jumps, peephole rewrites, literals, loops and `break`), the
//! rewriting of code compiled by `eval`, and the text of error messages,
//! exceptions and backtraces.

pub mod crc;
pub mod opcode;
pub mod codegen;
pub mod peephole;
pub mod roundtrip;
pub mod pool;
pub mod readint;
pub mod irep;
pub mod loops;
pub mod vformat;
pub mod eval;
pub mod error;
pub mod backtrace;
pub mod args;
pub mod model;
pub mod steps;
pub mod walk;
pub mod compile;
