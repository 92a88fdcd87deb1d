# jsbf

A small compiler from a subset of JavaScript to brainfuck, with its logic
verified by Verus.

- `src/ir`: the front end. `ast` is the syntax tree it reads (names as
  interned symbols), `lower` states in spec functions what each construct
  becomes, and `expr`, `stmt`, `stmt_item` and `parse_to_ir` carry it out
  into the intermediate representation of `ir`.
- `src/compile`: lays out variables in memory cells, scope by scope, and
  emits assembly operations; `layout` proves that the code names only cells
  below the static memory size it reports, and that the code of an
  expression leaves the expression's value in its target cell.
- `src/assembly`: turns the operations into brainfuck text; `wellformed`
  proves the text is a brainfuck program, `cells` and `tracking` that code
  on static cells never overflows and moves the head where it is recorded,
  and `loops` that each loop of that text brings the head back to the cell
  it tests; `machine` runs brainfuck text on a tape and proves that the text
  of straight-line operations does what `semantics` says they do.
- `src/ir/source`: calls `boa_parser` on the source bytes and converts its
  syntax tree.
- `app/main.rs`: reads the source file, shows the parsed syntax tree, and
  prints the compiled program.
