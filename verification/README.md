# miru

Render markdown in the terminal with mermaid diagrams drawn inline as text.
The library is written in Verus: its functions state what they compute in
`requires`/`ensures` over mathematical models, and Verus proves them. What
Verus does not prove is kept to a few small trusted wrappers: `String::push`,
and comrak's markdown parse and the reading of its node kinds
(`src/markdown.rs`), whose contracts say only what comrak's source shows.

## Layout

- `src/text.rs`: the `str` operations the parsers use (trimming, searching,
  splitting, UTF-8 byte counts), stated over `Seq<char>`.
- `src/parser/`: mermaid flowcharts (`graph TD`, `flowchart LR`, node shapes,
  labelled and chained edges) and sequence diagrams (participants, messages).
- `src/layout/`: placement of boxes on a character grid; `PositionMap` keeps
  positions by id.
- `src/render/`: the character canvas and the drawing of both diagram kinds,
  with box-drawing or plain ASCII characters.
- `src/markdown.rs`: a markdown document (parsed with comrak) written out as
  terminal text, mermaid blocks drawn in place.
- `src/lib.rs`: `render`, which parses, lays out and draws a diagram, and the
  laws of the whole pipeline: no output line is longer than `max_width`, ASCII
  mode with an ASCII source gives ASCII text, surrounding whitespace is
  ignored.
- `app/`: the `miru` command line program (`--print`, `--ascii`).
- `tests/`: tests on concrete values.

## Usage

```
miru document.md --print          # render to stdout
miru document.md --print --ascii  # ASCII-only (no Unicode box drawing)
```
