# ferrix

A finite element solver for CalculiX/Abaqus style `.inp` decks.

## Layout

- `src/` — the library, verified with Verus. It reads decks: the
  normalisation of the raw text (`solver::parser::preprocess_inp`), keyword
  cards and their arguments, and the parser that turns a deck into a
  `Project` (mesh, sets, materials, steps, loads, boundary conditions,
  amplitudes, output requests). `solver::deck` states what the parser does
  as a state machine over plain values; `Parser::parse` is proved to return
  what that machine gives, and the laws at the end of `solver::deck` are
  proved over it. Number literals of the deck are kept as text once their
  syntax has been checked against the grammar of `f64::from_str`.
- `app/` — the solver program: command line, file input and output, the
  numeric model read from the library's project, shape functions and element
  matrices, assembly, the direct and iterative linear solvers, the static
  step's Newton-Raphson loop and the VTK writer. All floating-point
  computation lives here.
- `tests/` — tests of the library.
