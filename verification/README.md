# tt_rust

A small Smalltalk-like language with terminal forms, a data layer and a download agent.
The library in `src/` is verified with Verus; `app/` holds the programs around it.

- `parser.rs`, `grammar.rs`: the lexer and the recursive-descent parser, with the grammar
  the parsed trees are proved to match.
- `code.rs`, `method_cache.rs`: the compiler from trees to block operations, the runner of
  compiled methods, and a cache of compiled methods by name.
- `lib.rs`, `evaluation.rs`, `runtime/`: the tree evaluator, its heap of objects and the
  objects' answers, with the evaluation relation that the evaluator is proved to follow.
- `ui/`: widgets of terminal forms and the event loop of a form.
- `dbx/`, `data/`: rows built from serialized values, copy rules and the data model.
- `agent/`: the messages between download agents, the coordinator's state and the naming
  and hashing of downloaded files.
- `tsort.rs`: a topological sort.

`app/` reads terminals, files, sockets and databases and calls the library with plain
values; `tests/` runs the library on concrete inputs.
