# unearth

A parallel recursive file searcher. This crate holds its rules as a
verified library, and a thin command around it.

- `src/` — the library, checked by Verus:
  - `text`, `number`: text and integer helpers with their specifications.
  - `pattern`: the name and search-dir pattern language (shorthands,
    wildcards, quoting, regex mode) and term selectivity.
  - `options`: the command-line grammar.
  - `modes`, `search`: which search runs, and what each sets up before and
    does after its directory walk.
  - `walk`, `ignore`: what a walk does with each entry.
  - `order`, `ranges`, `results`, `sizes`, `output`, `render`: ordering,
    filtering and pruning results, sizes and the totals cache, folder
    summaries, colors, highlighting and hyperlinks.
  - `mounts`, `ledger`: the mount table and NTFS scan bookkeeping, and the
    raw match cache.
  - `matcher`: regular expressions through the `regex` crate.
- `app/main.rs` — the command: arguments, parallel walks, disk and NTFS
  reads, time and size formatting, printing.
- `tests/` — tests of the library.
