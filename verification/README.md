# mf66

The verified core of MF66, an optimizing subroutine-threaded Forth for AArch64.

- `src/` is the library. Its functions carry contracts proved by Verus; the one
  trusted item is `text::string_push`, which calls `String::push`.
  - `aenc`, `abi`, `asm_macros`: A64 instruction encoders, word bodies, the
    register convention and the kernel's `stk` stack-effect macro.
  - `codearena`: where committed bodies go in the executable arena.
  - `opt`, `stack_model`: the token IR, the peephole reducer and what a run means.
  - `lowering`, `discipline`: lowering a run to machine words over a virtual stack,
    and the register discipline it keeps.
  - `colon`, `compile`, `vocab`: colon definitions, control flow, how body tokens
    are taken, and which primitives inline.
  - `outer`, `interp`, `number`: the outer interpreter's decision for each word,
    reading source text, and Forth numbers.
  - `oop`: classes, instance variables, selectors and method binding.
  - `editor`, `fsyntax`, `keys`, `workspace`, `script`: the editor buffer and
    formatter, syntax classes, key mapping, the workspace's REPL state, and the
    checks a workspace script makes.
- `tests/` runs the library on concrete cases.
- `app/` is the host: the JIT session, the kernel assembler and the UI drivers.
  It performs what the library decides, and keeps what needs the JIT's memory
  (dictionary lookups and running words, float parsing), floating-point
  layout, and I/O.
