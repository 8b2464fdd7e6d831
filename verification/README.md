# analyzer-core

Static analysis of a TypeScript (Elysia) backend and its Prisma schema. The
library reads source text only; it never runs the project. For each file it
records imports, declarations, calls and routes; for each route it builds a
contract graph: the endpoint, its middleware and schemas, the services it
invokes and the Prisma operations they perform, each with a readable
SQL-shaped preview.

The library in `src/` is verified with Verus: every public function states
what it returns, and the laws of the analysis (contracts never invent an
edge, reports do not depend on discovery order, leaving a scope undoes
entering it, ...) are proof functions beside the code they speak of.

## Layout

- `src/text.rs` – text as sequences of characters: search, trimming,
  decimal numbers, UTF-8 lengths, lines, ordering.
- `src/object_literal.rs` – a shallow reader of object literals in source.
- `src/sql_interpreter.rs` – SQL-shaped previews of Prisma calls.
- `src/prisma.rs` – models and enums of a Prisma schema.
- `src/oxc_facts.rs` – the fact collector that a syntax-tree walk drives.
- `src/relations.rs` – symbol indexes and the contract graph of each route.
- `src/analyzer.rs` – choosing files, limits, totals and the report.
- `src/ollama.rs` – model selection, status and prompts for a local model.
- `src/sort.rs`, `src/digest.rs`, `src/paths.rs` – stable sorting, content
  digests and file-path parts.
- `app/` – the command-line program: walks the directory, parses scripts
  with Oxc, drives the collector, prints the report as JSON; and the
  commands that talk to a local Ollama.
