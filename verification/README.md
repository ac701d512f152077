# not-perl

The front end, the lowering back end and the memory layer of a small scripting language,
verified with Verus.

- `src/syntax`: the lexer (each token as a function of the text, `lex_token`/`lex_from`, and
  the canonical text of a token lexing back to it, for every kind of token but string literals
  and variables, whose text goes through `Debug` formatting and a sigil), the grammar of
  expressions and statements over tokens (`grammar.rs`: where each item ends and the tree it stands for), and the
  recursive-descent parser, whose every reading function succeeds exactly where the grammar
  finds an item, builds the tree that the grammar gives for it, and keeps every meaningful
  token of the text in that tree.
- `src/common`: operators, source positions and ranges, and the layered read-only scopes.
- `src/ir`: the intermediate representation. Expressions become values and statements become
  actions (`action_from_stmt`): a `while` loop is a loop around a condition block that breaks
  when the condition fails, and `if`/`elif`/`else` chains become nested condition blocks.
  `ir::compile` lowers values and comparisons to bytecode.
- `src/compile`: symbol allocators and the scopes of functions, variables, types and labels;
  value contexts that resolve names through those scopes (`ValueContext::try_transform`); and
  the lowering of actions to labelled thunks of bytecode (`RootBlock::try_transform_mut`), where
  a `break` or `continue` outside any loop is an error. Every lowering is stated as a function
  over the shapes of its input and output; the bytecode's shape leaves register numbers out.
- `src/vm`: the bytecode (`vm::bc`) and conditions the lowering produces; symbols, types,
  labels, stack storage, and the heap: a buddy allocator whose live blocks never overlap, and
  arrays that reserve a block of it for their elements and length (the values themselves are
  kept in a vector beside the heap bytes). Array lists move to a bigger block of the allocator
  when they outgrow theirs.
- `app/`: the command-line driver that reads a file, parses it and lowers it to actions.
- `tests/`: tests run against the compiled library.
