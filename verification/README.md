# minilang

A small compiled language with structs, first-class function pointers and
`print`, and a verified front end for it:

- `src/grammar.rs` states the grammar as a parsing-expression grammar over the
  UTF-8 bytes of the source; `src/lexer.rs` and `src/parse.rs` implement it and
  are proved to give exactly what the grammar gives (`parse::program`).
- `src/semantics.rs` states what compiling means: which programs are accepted,
  the first error of those that are not, and the code plan (`src/ir.rs`) of
  those that are. `src/compile.rs` implements it (`compile::Compiler`) and is
  proved to follow it exactly.
- `src/laws.rs` and `src/typing.rs` prove properties of every compilation:
  definitions persist, a compiled program has a `main` of type `fun(): Unit`,
  the code plan is always well formed and well typed, types compare
  with struct fields taken as maps, whatever their order (for the types the
  compiler makes, that is equality), compiling a function
  only appends to it (also when it stops at an error), and the type table
  only holds structs under their own names with distinct fields built from
  earlier structs. `src/type_syntax.rs` proves that the text of a type is
  source syntax that reads back, through the grammar and the type table, as
  the type. `src/spans.rs`
  proves that every span of a parsed program, and every error that compiling
  it reports, lies within the source text.
- `src/lower.rs` maps each instruction of the plan to one plain LLVM
  instruction (a wrapping `add`, a `printf` of `"%d\n"`, ...), with an exact
  contract. `src/llvm.rs` owns the LLVM module and records what each inkwell
  call builds in it. `src/codegen.rs` emits the plan and states what that
  record holds: `printf`, then the plan's functions under their names, then
  for each instruction its LLVM instruction handed the values its operands
  stand for. A builder error comes only after inkwell refused a call; a
  well-formed plan never meets a missing operand, and a plan whose functions
  are empty is always emitted.
- `app/main.rs` is the command-line driver: it reads a file, reports errors
  with ariadne, prints the LLVM module and runs `main` in a JIT.

Struct fields are kept in an `IndexMap`; LLVM 14 is used through inkwell.
