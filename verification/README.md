# lib — a verified optimizer core for a JavaScript intermediate representation

The crate holds an SSA-style intermediate representation of JavaScript programs and the
optimization passes that work on it, each proved with Verus against a specification of what
it does.

Layout of `src/`:

- `ir.rs` — the IR (blocks of statements over SSA values, mutable bindings and labels),
  references, use counts, and the spec functions describing the structure of statements.
- `visit.rs`, `traverse.rs` — a generic analysis traversal (a `Visitor` trait whose steps are
  spec functions, and the proof that `visit_block` follows them), and helpers for rewriting the
  blocks a statement holds.
- `collections.rs` — `ZeroOneMany`, `Either`, `StackedMap` (scoped maps) and `InvertibleSet`.
- `scope.rs` — unique and minified name generation for printing.
- `print.rs` — the textual form of the IR, specified character by character.
- `ssa.rs` — the analysis deciding which SSA values can be inlined when leaving SSA form.
- `anal/` — which functions never use `this`; which refs are used in one function scope only.
- `ast.rs` — a JavaScript syntax tree (names as strings, numbers as bit patterns) and the
  scope of names used while lowering it.
- `hoist.rs` — hoisting: the `var`, function and `let`/`const` declarations of a body, declared
  before its first statement runs, and function declarations moved to the front.
- `ast_opt.rs` — the passes on the syntax tree: `if` to conditional assignment, loop tests
  moved back into `for` headers, and merging of adjacent declarations.
- `opt/` — the passes: dead code elimination, mutable-to-SSA downleveling, read forwarding,
  constant propagation, redundant load/store elimination for mutables and for object
  properties, scalar replacement of objects, loop unrolling, write-only object removal and
  inlining; `opt.rs` runs the pipeline.

Numbers are carried as IEEE-754 bit patterns; arithmetic on them is done by an evaluator the
caller supplies, whose results the specifications name.

What the crate does not hold: parsing JavaScript, lowering statements and expressions of the
syntax tree to the IR (hoisting is here), raising the IR back to a syntax tree, and emitting
code. Nothing here runs a whole source file end to end.
