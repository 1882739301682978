# evk

The library of Evk, a Markdown editor that reuses the text model of a collaborative
editor. Every module under `src/` is written in Verus: its functions carry `requires` /
`ensures` contracts over mathematical models (byte sequences, maps, multisets), and Verus
proves the code against them.

Layout:

- `src/` — the verified library (see the module list in `src/lib.rs`). Laws that relate
  several functions are public proof functions, for instance `summary_law::text_metrics_concat`
  (the summary of two texts is the sum of their summaries), `layout_law::parse_format_roundtrip`
  `settings_value::local_value_read_after_write` and `buffer::anchor_resolves_to_its_offset`
  (an anchor made for an offset resolves back to it).
- `tests/` — tests of the library on concrete values.
- `app/` — the editor window around the library (GPUI), file dialogs and file I/O, and the
  environment lookup of the HTTP proxy.

Calls into outside crates (`heapless`, `smallvec`, `http`, `url`; `serde_json` for a type only) and a few `std` items go
through small trusted wrappers, each documented with what its contract claims.
