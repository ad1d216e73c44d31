# fy-docs

`cargo fy-docs` builds, previews and scaffolds Typst specification documents
(HTML pages and PDF 2.0) with multi-language support.

## Layout

- `src/` — the library, verified with Verus: language tags and target
  selection (`project`), the absolute-import scan and compile-root choice
  (`project::imports`), template arguments, the package metadata read from `Cargo.toml` with
  workspace inheritance (`project::cargo_meta`, parsed by the `toml` crate),
  the decomposition of a typst HTML
  export and the shaping of its diagnostics (`compiler`), the page shell, the
  language menu, HTML escaping and the routing landing page (`assets`), paths
  (`paths`), the watcher's source filter and debounce (`watcher`), the
  command line's decisions (`cli`) and the starter entry (`scaffold`).
- `app/` — the `cargo fy-docs` binary: argument parsing, the file system,
  the `typst` processes, the dev server, the file watcher and the terminal.
- `tests/` — tests of the library on concrete values.
