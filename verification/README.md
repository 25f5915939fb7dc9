# verse_lsp

Language support for Verse (the scripting language of Unreal Editor for
Fortnite), built on the API digests Epic publishes: a digest parser and symbol
database, and the analyses behind completion, hover, go-to-definition,
signature help, diagnostics and symbol search.

The digest files (`Verse.digest.verse`, `Fortnite.digest.verse`,
`UnrealEngine.digest.verse`) are not part of the crate. The server reads them
from the directory named by `VERSE_DIGESTS` (default `digests`) and builds the
database with `SymbolDb::load_digests`; without them it falls back to
`SymbolDb::load_bundled`, which holds the three API modules empty.

The unknown-type check of `diagnostics` matches `var` declarations with a
verified matcher; the one thing it asks of the `regex` crate is whether a
character is a word character (`\w`), and that answer is taken on trust.
Case-insensitive comparisons lower-case text with `str::to_lowercase`, whose
contract states how ASCII text is mapped and leaves other characters unsaid.

The library under `src/` is verified with Verus; every public function states
what it computes over a mathematical model of its inputs (text as sequences of
characters, byte columns from UTF-8 widths).

- `text`, `pattern`: character-level text operations and the line grammar of
  digest files.
- `symbol`, `lexer`: symbols, tags and token kinds.
- `parser`, `database`: the digest parser and the symbol database.
- `util`, `definition`, `hover`, `signature_help`, `completion`,
  `diagnostics`, `workspace`, `documents`, `requests`: the editor analyses.

`app/` holds the language server: the protocol plumbing around the library.
