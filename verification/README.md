# fp_study

Functional-programming patterns in Rust — pure functions, immutable updates,
closures, iterators, algebraic data types, error handling, composition,
traits, recursion, type-state, lenses, monad transformers, a free monad, an
effect system and streams — written as a library whose behaviour is stated in
`requires` / `ensures` contracts and proved with Verus.

## Layout

- `src/` — the verified library. One module per topic (`basics`,
  `immutability`, `closures`, `iterators`, `adt`, `bst`, `error_handling`,
  `composition`, `traits`, `practice`, `recursion`, `concurrency`,
  `type_state`, `project`, `oop_vs_fp`, `lenses`, `monad_transformer`,
  `free_monad`, `effect_system`, `stream`) and `exercises` for the small
  exercise programs. `text`, `seqs` and `numparse` hold the shared models of
  strings, integer sequences and integer parsing. Laws that relate several
  functions (lens and prism laws, functor and monad laws, composition laws,
  the Fibonacci streams, the storage interpreters) are public proof
  functions beside the code they speak of.
- `tests/` — the test suite, run against the compiled library.
- `app/` — a demonstration program with what the verifier does not take:
  printing, the clock, threads, interior mutability, floating-point
  arithmetic, and the `thiserror` / `anyhow` faces of the error types.
