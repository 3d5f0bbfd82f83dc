# temp_reversi

Reversi (Othello) on 64-bit boards, verified with Verus: the rules of the
game, the flow of a game, board symmetries, the pattern features read by the
evaluation functions, their packing up to mirror symmetry, and the training
samples taken from recorded games.

- `src/` is the verified library. Each module states its behaviour in
  `requires`/`ensures` over spec functions; the laws that span several
  functions are public proof functions (`lemma_*`).
- `tests/` runs the library on concrete boards and games.
- `app/` is the command-line program around it: terminal input and output,
  progress bars, and the floating-point evaluation model with its storage.
