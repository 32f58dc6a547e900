# stlsat

A satisfiability checker for Signal Temporal Logic (STL) and Mission-time LTL (MLTL)
formulas, written in Verus. A formula is parsed, normalised (negation normal form, the
discrete reading of until and release, simplification, flattening, bound shifting) and
explored with a tableau: nodes are expanded by rewriting and decomposition rules, each
instant's propositional and real-valued constraints are checked (the latter with z3), and
refuted nodes at later instants are remembered so that equivalent nodes are not explored
twice.

Layout:

- `src/` — the verified library. `formula`, `interval`, `parser`, `display` hold the
  formula model, its text form and its grammar; `transform`, `simplify`, `shift`,
  `rewrite` the rewritings; `node`, `decompose`, `tableau`, `recursive` the tableau;
  `solver` and `smt` the consistency checks (z3 behind trusted wrappers); `store`,
  `unsat_core`, `trace`, `signature`, `statistics`, `util`, `graph` the bookkeeping
  around it; `config` and `sat` the run settings, and `sat::jump` the length of a jump.
- `tests/` — executable tests of the library.
- `app/` — the command-line program: argument parsing, reading the formula file,
  printing the verdict, writing the graph.
