# xz_cli

The front end of the Xz compiler, verified with Verus: lexer, parser, name
resolution, type checker, intent checker, formatter, language-server core and
package-interface validation. Every function in `src/` carries a contract
that Verus proves.

## Layout

- `src/` — the verified library.
  - `text`, `chars`, `textsearch`: string helpers over `String`/`Vec<char>`.
  - `token`, `keywords`, `lexer`: source text to tokens and comments.
  - `ast`, `parser`: tokens to a syntax tree.
  - `names`: sets and maps keyed by names.
  - `resolve`: unknown and duplicate names; its result is stated exactly
    by spec functions over the tree.
  - `kind`, `env`, `typecheck`: type kinds, flow-typing environments and
    the type checker.
  - `intent`: `@effects` profiles derived from bodies, checked against the
    declared ones; the check passes exactly when no item fails.
  - `diagnostic`, `driver`: the pipeline and its JSON/plain reports.
  - `format`: the canonical printer.
  - `lsp`, `symbols`, `rpc`: the language server: its documents, requests
    and replies (diagnostics, hover, completion, definition, formatting),
    and the JSON-RPC text, read through `serde_json` and written by hand.
  - `pkg`, `paths`: interface validation and output paths.
  - `show`: token names for the `lex` command.
- `tests/`: tests of the library.
- `app/`: the command-line program: argument handling, files, the
  language-server stdio loop (message framing), fetching
  interfaces from a registry. The LLVM backend (`build`, `run`) needs an
  LLVM 17 installation and is not part of this crate.

Laws of the library are public proof functions named `law_*`.
