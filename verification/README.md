# code_scan

Indexes the functions, bindings and exports of a TypeScript/JavaScript
codebase, checks them against a few lint rules, and prints the result as JSON
(`code-scan index`, `code-scan rules`).

The library under `src/` is written in Verus and verified:

- `text` — string comparison, prefixes, ASCII case, sorted string vectors.
- `index` — the index types, function-kind filters, and the byte-offset to
  line/column lookup.
- `extract` — the collector that turns the events of a syntax-tree walk into
  functions and exports, and symbols into bindings.
- `parse` — the index of one parsed file.
- `rules` — the lint rules and running a chosen set of them.
- `walk` — which files a scan keeps (extensions, excluded folders, size).
- `scan` — assembling a scan's result: rules, path order, counts.
- `namemap`, `output` — the documents of each output mode.

`app/` is the command-line program around it: argument parsing, the walk of
the disk, reading and parsing files with oxc, and writing JSON.
