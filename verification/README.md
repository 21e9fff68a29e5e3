# brodo_utils

A small set of command-line utilities, with their logic verified in Verus.

- `hasher`: hashes a file, or the files of a directory, with MD5, SHA-1,
  SHA-2 (224/256/384/512, 512/256), BLAKE2s, BLAKE2b or BLAKE3, and prints
  `<digest> - <file>` lines.
- `minecraft order`: sorts a server log by the `[dd/mm/yyyy - HH:MM:SS]`
  timestamps at the start of its lines (a stable sort), and lists the lines
  without a timestamp at the end.
- Death and kill tallies of `'<killer>' killed '<victim>'` log lines.

Layout:

- `src/` — the verified library: `text` (lines, decimal numbers, padding),
  `sort` (stable ordering by key), `hasher` (algorithm names, streaming
  hashers over the digest crates, messages), `minecraft` (log ordering,
  kill-line recognition, tallies and reports).
- `app/` — the command-line program: argument parsing, file and directory
  access, printing.
- `tests/` — tests of the library, several of them against direct
  computations with `regex`, `chrono` and the digest crates.
