# diamond

The verified core of a Ruby bytecode compiler and of its runtime
helpers, written in Verus.

Modules (under `src/`):

- `crc` — the CRC-16/CCITT checksum that seals compiled images.
- `opcode` — the instruction set: opcodes, operand layouts, widening
  prefixes, and the instruction decoder.
- `codegen`, `peephole`, `pool`, `loops`, `irep` — the bytecode emitter of
  a method body: the growable instruction buffer and its line table, the
  instruction encoders, jump chains and their resolution, the peephole
  rewrites, the literal and symbol tables, loop records and `break`, and the
  creation and finishing of scopes into compiled bodies.
- `walk`, `steps`, `args` — the syntax-tree walker: literals, variables
  (local, enclosing, global, instance, class, constant), assignments and
  operator assignments,
  conditionals, `while`/`until` with `next` and `redo`, calls (operators
  with instructions of their own, safe navigation), `yield` and `super`,
  array and hash literals, string interpolation, lambda, block and method
  bodies with their argument specification (`OP_ENTER`) and
  optional-argument jump tables, and class, module and singleton-class
  bodies.
- `roundtrip` — laws tying the encoders to the decoder.
- `readint` — integer literals.
- `vformat` — `printf`-like formatting of error messages.
- `eval` — rewriting a body compiled by `eval` so that it reaches the local
  variables of the closures it runs in.
- `error`, `backtrace` — printable forms of exceptions, what `raise` does
  with its arguments, and backtraces.

The parser and the virtual machine (object model, symbol table, debug
line tables) are not part of this crate: the functions here take what
those parts compute as plain values (a syntax tree with interned symbols,
the symbols of the operators, rendered objects).
