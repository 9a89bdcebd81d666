# sysy_compiler

A compiler for a small subset of SysY (one function, `int` constants and
variables, nested blocks, assignments, `return`, and the usual arithmetic,
relational and logical operators), written in Verus.

Pipeline: source text → tokens (`lexer`) → abstract syntax (`parser`) →
constant folding (`ast`) → an in-memory IR shaped after Koopa IR (`irgen`,
`ir`) → RISC-V assembly (`riscv`, and the return-only generator of
`basic_riscv`), or → Koopa IR text (`koopa_text`, which builds the program
in the `koopa` crate, one call at a time, and has koopa's generator write
it).

What is proved, besides the contract of every function:

- `parser`, `recognizer`, `readback`: tokens are parsed into a unit exactly
  when they spell a unit of the grammar, and the unit parsed is spelled by
  them.
- `semantics`, `execution`: the run-time meaning of source expressions,
  statements and blocks, and of the IR; the code generated for a function
  does what its body does.
- `machine`: the meaning of the RISC-V code; the code of each binary
  operation computes it on 32-bit machine integers, wrapping included; the
  code generated for a basic block returns the value of the block's first return (where the operands
  of its `and` and `or` are `0` or `1`: the IR computes these bit by bit,
  the assembly as logical operators).
- `pipeline`: both together: when a function's body returns a value, the
  generated assembly returns it too.  The IR generator compares the
  operands of `&&` and `||` with `0` before its `and` and `or`, so the
  condition of `machine` always holds of generated code.
- `registers`: the register map stays sound, and new registers are fresh.
- `symtable`, `laws`: scoping of names (a lookup after any sequence of
  table operations), and what IR generation keeps.

`app/main.rs` is the command-line driver:
`sysy_compiler -koopa|-riscv INPUT -o OUTPUT`.
