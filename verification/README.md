# rlox

A bytecode compiler and virtual machine for a small Lox-like expression
language (numbers, strings with `${...}` interpolation, `true`/`false`/`nil`,
unary minus and the four arithmetic operators), written in Verus.

Layout:

- `src/` — the verified library.
  - `compiler/` — tokens, the scanner (a mode machine for string
    interpolation), precedences, compile errors and the Pratt compiler. Each
    scanner and compiler function is proved equal to a spec function over the
    source characters.
  - `bytecode/` — the instruction set, chunks (code, constant pool, line table)
    and values.
  - `line.rs` — the run-length line table.
  - `runtime/` — runtime errors and the virtual machine. `Vm::step` runs one
    instruction; the work on doubles is handed back as a `NumericOp`.
  - `debug/` — the disassembler, which decides what a listing row says.
- `app/` — the program: argument handling, floating-point arithmetic and
  formatting, printing of listings, traces and errors.
- `tests/` — tests of the library.
