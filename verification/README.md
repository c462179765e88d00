# weaveback

A literate-programming toolchain: documents carry named code chunks in
noweb syntax, and the chunks named `@file path` are tangled into source
files. Everything that decides (reading chunk definitions, expanding
references, the writer's refusals and hand-edit protection, source maps,
block splitting, linting, the edits of the documentation server, the
dispatch and tool table of the MCP server) is a
library written in Verus with its contracts proved.

Layout:

- `src/` — the verified library; each module opens with what it covers.
  Public proof functions named `law_*` state properties across calls
  (expanding under an indentation prefixes every line, `@replace` drops earlier
  definitions, hand-edited generated files are never overwritten unless
  forced, a formatter's rewrite keeps an origin for every line, ...).
- `tests/` — tests of the library on concrete inputs.
- `app/` — the `weaveback` command: command line, files, the SQLite
  database of source maps, the documentation server and the MCP server on
  stdin and stdout.
