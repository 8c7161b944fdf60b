# simdutf8 (verified)

UTF-8 validation in two flavours, proved against vstd's `valid_utf8`, and
the property checks that compare them with `core::str::from_utf8`.

- `src/spec.rs`: the byte grammar of UTF-8 (Unicode table 3-7), its
  agreement with vstd's scalar definition, the longest valid prefix and
  the length std reports for an invalid sequence.
- `src/window.rs`: validity as a check of every four-byte window plus the
  last three bytes; the proof that this check decides UTF-8.
- `src/checker.rs`: the block checker (64-byte blocks, ASCII fast path,
  pending incomplete sequence folded in at the end).
- `src/basic.rs`, `src/compat.rs`: `from_utf8` that only accepts or
  rejects, and one that reports `valid_up_to` and `error_len` as std does.
- `src/std_utf8.rs`: the one trusted call, `core::str::from_utf8`.
- `src/etna.rs`: the property checks and their outcomes.
- `src/text.rs`, `src/report.rs`, `src/mutate.rs`: messages, the JSON report
  line of a run, and the biased inputs and their mutation for the search
  runners; `text.rs` also proves that a JSON literal it writes reads back.
- `app/`: the command-line runner over proptest, quickcheck and crabcheck.
