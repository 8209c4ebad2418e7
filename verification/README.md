# koi

Code generation for the Koi language: terms of a small dependently typed
intermediate representation are compiled to LLVM IR through inkwell.

- `src/hir` is the intermediate representation.
- `src/codegen` compiles it. A term becomes calls of LLVM's builder; lambdas
  become closures, inductive types become tagged structures, and a match becomes a
  switch on the tag. A fixpoint mentions itself by its name.
- `src/llvm` is what the compiler asks of LLVM. `trace.rs` is the vocabulary in
  which the contracts say which calls are made; `session.rs` holds the calls
  themselves, whose contracts are trusted.
- `src/laws.rs` and `src/laws` state what holds of the library as a whole.
- `src/run.rs` names the files, commands and steps by which a module is run.
- `app` compiles and runs whole programs.

A contract such as that of `Context::codegen_hir` says exactly which calls are made
of LLVM, in which order and with which arguments, in terms of LLVM's answers to the
earlier calls. Whether a program can be compiled is a plain property of the program
and of what has been compiled before (`src/codegen/shape.rs`), and
`Context::can_compile` decides it.
