# zkc

A small zero-knowledge-oriented circuit language and its compiler, written in Verus. Source
text is lexed, parsed, typechecked into a typed intermediate form, lowered into a wire-based
arithmetic circuit over the BN254 scalar field, and then executed, traced, optimized, turned
into rank-one constraints, and proved (with a transparent debug backend, or Groth16 through
arkworks).

## Layout

- `src/` is the verified library. Each module states its behaviour in `requires` / `ensures`
  over spec functions, and proves it:
  - `lexer`, `parser`: tokens as spans of the source, and syntax trees as what token ranges
    spell;
  - `typecheck`, `builtins`: elaboration of source expressions into typed ones;
  - `ir`: lowering, with the values each output and constraint takes in any run;
  - `trace`, `eval`, `backend`: execution and witness traces;
  - `optimize`: constant folding, dead-code removal and renumbering that keep every run's
    outcome;
  - `groth16`, `r1cs`: the rank-one constraint plan, why a successful run satisfies it, and
    Groth16 verification of a proof bundle against a verifying key (arkworks behind one
    trusted wrapper);
  - `debug_proof`, `records`, `listing`, `serialize`, `constraint`, `analysis`, `pretty`,
    `source`: artifacts, reports and module resolution.
- `tests/` runs the library on concrete programs.
- `app/` is the command-line program: file and directory access, arkworks setup and proving
  (which draw randomness), and printing.
