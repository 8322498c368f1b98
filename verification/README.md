# egeria_adapter_zeroclaw

Reading and writing ZeroClaw SOP sources: a `SOP.toml` manifest beside a
`SOP.md` step list. The library is written in Verus; every function in
`src/` carries a contract that Verus proves.

## Layout

- `src/text.rs` — the string operations the format needs (trimming,
  splitting, searching, decimal numbers), each stated over `Seq<char>`.
- `src/grammar.rs` — the line-level grammar of `SOP.md`: step items, bold
  titles, bullet keys and the values bullets carry.
- `src/json.rs` — the calls into `serde_json` and `toml`, each behind a
  small wrapper whose result is named.
- `src/parse.rs` — the reader: `parse_steps`, specified as a state machine
  over the document's lines.
- `src/print.rs` — the writer: `print_steps`, with a diagnostic for every
  value the format cannot carry.
- `src/roundtrip.rs`, `src/parsed.rs` — the format's laws: printed steps
  read back unchanged, and parsed steps print back unchanged unless a
  title that cannot be written in bold is reported.
- `src/manifest.rs` — the unknown-key check on a `SOP.toml` text, read
  through `toml`.
- `src/sop.rs` — resolving a SOP from its two files and rendering it back.
- `src/model.rs`, `src/diagnostic.rs` — the data model and diagnostics.
- `app/` — serde forms of the model, the error types, and file I/O.
