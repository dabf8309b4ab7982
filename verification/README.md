# zensical-asciidoctor-backend

AsciiDoc support for Zensical sites, written in Verus. The library plans
`asciidoctor` command lines, interprets what a run produced, and rewrites
Asciidoctor's HTML so that it matches the Material theme: metadata and a
nested table of contents are extracted, headings get ids, admonitions,
callout lists, code blocks, tables and figures are converted, and links are
rewritten for directory-URL routing.

## Layout

- `src/` — the verified library.
  - `config.rs`, `renderer.rs` — configuration, argument building, and the
    outcome of an `asciidoctor` run turned into HTML or an error.
  - `html.rs` — document types, metadata, table of contents, `process`.
  - `transform.rs` — the HTML-rewriting passes.
  - `xref.rs`, `paths.rs` — link rewriting and POSIX path helpers.
  - `pattern.rs`, `dom.rs` — the calls into `regex` and `scraper`, and the
    verified assembly of text around the matches they report.
  - `blocks.rs`, `text.rs` — `<div>` block scanning and string helpers.
- `app/` — spawning the `asciidoctor` process and the `thiserror` error type.
- `tests/` — unit tests of the processor and renderer, concrete instances of the laws, and
  edge cases.

Every public function states its result exactly, over specification
functions; where the result comes from `regex` or `scraper`, it is stated
over a named result of that crate's call. The laws (table-of-contents order,
nesting and parents, the first balanced closing `</div>`, path
normalisation and relative-path round trips, link resolution, attribute
order, escaping, argument shape) are public proof functions next to the
code they speak of.
