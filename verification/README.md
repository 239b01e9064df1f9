# terebinth

The front end of the Terebinth language, written in Verus: every function of
the library carries a contract that Verus proves.

## Layout

- `src/` — the verified library.
  - `ast/` — the Terebinth language itself: the lexer (`lexer.rs`), the
    syntax-tree arena (`mod.rs`), the grammar as spec functions and the trees
    that arena nodes stand for (`syntax.rs`), the recursive-descent parser
    (`parser.rs`), a colouring pretty-printer (`printer.rs`) and an evaluator
    whose results are those of a big-step semantics (`evaluator.rs`).
  - `compilation_unit.rs` — scopes, the two resolution passes and the
    pipeline from source text to a checked program, which can then be run;
    `resolution.rs` states what resolution makes of a tree, as spec functions.
  - `diagnostics.rs`, `typings.rs`, `text.rs`, `idx_vec.rs` — reports, types,
    text spans and typed arenas shared by the above.
  - `terebinth_lexer/` — the lexer of the Rust-like surface syntax, its
    grammar stated over characters.
  - `terebinth_span/` — byte and character positions, compressed spans and
    their interner, symbols and their interner, editions, and source files
    (line normalization, display widths, content hashes, and the lookup of
    a position's line and column).
  - `terebinth_ast/` — operators, literals, paths and the attributes of
    automatic differentiation of the surface syntax; literal escaping.
  - `parse/`, `terebinth_serialize/`, `terebinth_data_structures.rs` — small
    helpers: NFC normalization of identifiers, arithmetic that must not
    overflow, and the like.
- `tests/` — tests run against the compiled library.
- `app/` — the `terebinth` command: reads a `.ter` file, prints its tree and
  any diagnostics, and runs it.

Calls into outside crates (Unicode tables, hashing, terminal colours) go
through small wrappers whose contracts state what those crates document.
