# willow

The front half of the Willow compiler's middle end: it turns the syntax tree
of a Willow program into its high-level intermediate representation, one
control-flow graph in SSA form per function, and records the semantic errors
it finds on the way. Every function of the library is verified with Verus.

## Layout

- `ast` — the syntax tree: expressions, statements, declarations, type
  annotations, source positions; `ast::measure` describes a tree's size and
  the functions declared in it, which bounds what building it may cost.
- `compile::interner` — the string interner: handles for strings, stable once
  handed out.
- `compile` — the kinds of compiler error, and the key by which
  `compile::report_errors` orders them for the report (spanned errors first,
  by file and offset; then the global ones: unreadable or missing files and a
  missing `main`).
- `globals` — state shared by a compilation: the declaration counter and the
  interner.
- `tokenize` — numeric literals as the tokenizer produces them.
- `hir::instructions` — instructions, basic blocks and function graphs.
- `hir::scope` — nested scopes and name lookup.
- `hir::builders` — the program under construction and the builder: SSA
  construction of variables and of memory versions (reads, writes, phis,
  sealing), control flow, memory instructions, constants, the standard
  library's imports.
- `hir::expressions` — building each kind of expression, code blocks and
  function bodies.

## Main properties

- The builder's graph stays well formed through every operation: blocks are
  stored under their ids, predecessor lists are sorted sets of blocks that
  jump there, instruction ids are positions, every phi waiting in an unsealed
  block gets exactly one operand per predecessor when the block is sealed.
- A read of a variable (or of the memory version) gives back what was last
  written for it in that block.
- A read that finds nothing in its block looks through the predecessors: in
  a block that is not sealed it creates a phi (or memory phi) that waits for
  its operands; in a sealed block with one predecessor it gives the value
  there; otherwise it creates a phi with one operand per predecessor, each
  the value read there. Sealing a block fills every phi waiting in it.
- Once a block has a terminator it never changes; `seal_block` does exactly
  what moving to the block, sealing it and moving back does.
- Every memory version recorded for a block was handed out by its graph, so
  an instruction that writes memory gets a version other than the one it read.
- Building an expression only appends instructions, blocks and errors; the
  value it returns is an instruction of the graph of the instruction kind its
  operator calls for.
- An operand that is a name is what reading the name gives: the function it
  names, or the variable's or parameter's definition where it is read (or the
  phi the read makes); so `a - b` subtracts `b` from `a`, and a function whose
  body is a parameter's name returns that parameter.
- Each condition of an `if` ends its block with a conditional jump on its
  value, to its body's block when it holds and to the next condition's (or
  the `else` body's) block otherwise; the bodies meet in a sealed merge block.
- Interning is injective and stable; lookups in a scope see the innermost
  binding of a name.
- Declaration ids handed out in a row are distinct.

Tests under `tests/` run the library on concrete programs.

Lowering to LLVM, printing diagnostics and driving a compilation over files
and threads are not part of this library. Neither are the emitters that
check and adjust the types of operands, indexing and template strings, the
type interner and the pass that builds a whole program from its parsed
modules: they rest on a typed intermediate representation, on the syntax of
top-level statements and on builders for type aliases and `from` imports,
none of which this library defines.
