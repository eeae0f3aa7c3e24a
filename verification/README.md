# foxguard

A security linter for JavaScript/TypeScript and Python sources, written as a
Verus library with a thin command-line program around it.

## Layout

- `src/` — the verified library.
  - `finding.rs` — languages, severities and findings.
  - `text.rs` — character-level helpers (white space, trimming, searching,
    splitting into lines) with their mathematical meaning.
  - `ignore.rs` — inline `foxguard: ignore` / `foxguard-ignore` directives:
    their grammar, the line each one targets, and the filtering of findings.
  - `syntax.rs` — a syntax tree held as plain values and its preorder walk.
  - `parse.rs` — parsing with tree-sitter and copying the tree.
  - `rules/` — the built-in rules for Python and JavaScript, each specified
    node by node, and the regular expressions they use.
  - `engine/` — choosing files, scanning one file, and the report order.
- `tests/` — tests of the library.
- `app/` — the `foxguard` command: arguments, directory walk, parallel file
  reading, terminal and JSON output.
