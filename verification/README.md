# kozue

Diagram source text in, diagram documents out.

Mermaid and PlantUML text is parsed into a semantic diagram. Diagrams and their layouts are
written as Graphviz, draw.io, Excalidraw, PowerPoint, SVG and plain text. The same input always
produces the same output, byte for byte. An editor gets diagnostics, hovers and formatting through
a language server.

## Layout

- `src/` is the library. What it returns and changes is stated in contracts that Verus proves.
  - `mermaid`, `plantuml`: the frontends. What is read, and every error with its place.
  - `ir`, `layout`: diagrams, and diagrams that are laid out.
  - `dot`, `drawio`, `excalidraw`, `pptx` (with `zip`), `svg`, `term`: the exporters.
  - `lsp`, `position`, `wasm`, `measure`: what editors, browsers and the layout engine ask for.
  - `sound`: what holds of every diagram that a frontend accepts.
- `app/` is ordinary Rust around the library: floating-point coordinates, fonts, pixels, JSON, the
  language server's input and output, and the browser's entry points.
- `tests/` runs the library.

Kozue's own language and the layout engine are crates of their own. A host installs them through
`app/engine.rs`; until then the server answers for Mermaid and PlantUML documents only.

## What is trusted

The library calls `indexmap`, `unicode-width`, `ttf-parser` and `url` (through `tower-lsp`) behind
small functions whose contracts are believed, not proved. Each says in its comment what it claims.
