# unslop

A textlint-compatible linter for Japanese technical writing in Markdown,
with auto-fix, whose core is verified with Verus.

- `src/` — the verified library: the Markdown document model (text segments
  and positions), the rules of the `preset-ai-writing`,
  `preset-ja-technical-writing` and `preset-ja-spacing` presets, the prh
  dictionary rule and `no-mid-sentence-break`, the lint/fix pipeline and its
  fix application, the configuration reader, the report format and the run
  log record. Markdown parsing (comrak), regular expressions (fancy-regex)
  and Unicode normalization (unicode-normalization) are called through
  trusted wrappers whose contracts are stated in `src/`.
- `app/` — the `unslop` command: argument parsing, file I/O, reading
  `.textlintrc.json` and prh YAML dictionaries, the lindera analyser behind
  the `Tokenizer` trait, and the JSON Lines run log (`UNSLOP_LOG`).
- `tests/` — tests of the library.

Exit status: 0 when no issue remains, 1 when some does, 2 on an I/O or
configuration error.
