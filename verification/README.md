# calvin_rs

A small functional language with Hindley-Milner types, structured storage
and a network REPL protocol. The library under `src/` is written in Verus:
each public function states its behaviour in `requires`/`ensures` over
mathematical models, and Verus proves it.

Layout of `src/`:

- `text.rs`, `name_map.rs` — character sequences, decimal text, and the
  name-ordered maps that records, environments and metadata are keyed by.
- `types/` — monotypes, schemes, substitutions, unification (with its
  soundness law), type environments and the built-in environment.
- `expr/` — the syntax tree, its rendering and copying.
- `parser/` — the grammar as `spec` functions and the parser that follows
  them: identifiers and literals, types, patterns, expressions, module
  definitions, and the token classification.
- `compiler/` — the evaluator: its errors, its scoped runtime environment,
  its values (floating-point numbers kept as their bits) and the
  tree-walking evaluation, with `spec_eval` as the model it follows.
  What computes on floating-point numbers, and printing, is asked of a
  `Host`.
- `storage/` — storage file headers, series encoding and decoding, storage
  types and groups.
- `net/` — message framing, addresses, and the server's and client's
  decisions on each message.
- `repl/` — shell configuration and the reading of shell lines and
  commands.

`app/` holds the programs `hi` (the shell) and `hog` (the recorder): the
evaluator's host (floating-point arithmetic, reading and printing), sockets,
files, memory maps, JSON, line editing and command-line parsing, all
calling the library for the logic.
