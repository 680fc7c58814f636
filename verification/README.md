# gpml

GPML is a small component markup language for declarative user interfaces:
XML-like elements, `def Name(params) { ... }` component definitions, `import
PATH as Alias`, and `${name}` interpolation. This crate is its verified core:
the parsers, component resolution, the canvas and hot-reload state, a JSON UI
description with component references, and the small UI models around them
(search and replace in a text, double-buffered framebuffers, clipboard and
placement state). Every function in `src/` is checked by Verus against its
`requires`/`ensures` contract; the `law_*` proof functions state properties
that span several functions.

Layout:

- `src/` the verified library, one module per concern (`parser`, `parser_nom`,
  `xml`, `component`, `canvas`, `hot_reload`, `bundled_assets`, `search`,
  `viewport`, `json_ui/`, ...). Calls into outside crates (quick-xml,
  aho-corasick, `std::path`) go through small trusted wrappers whose
  contracts are stated beside them.
- `tests/` ordinary Rust tests of the library.
- `app/` a command-line front end: it reads files, watches them with
  `notify`, embeds bundled files with `rust-embed`, reads JSON UI files with
  `serde_json`, and hands the library plain values.
