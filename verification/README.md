# pagedb_compaction

Full one-shot compaction of a paged store, with its decisions verified by Verus.

- `src/` is the library. `full::compact_now` starts a pass: a state machine that
  names the work it waits for and moves on with the answer. `segment` is the
  repack of one segment file, `catalog` the keys and the cursor of segment rows,
  `paths` and `text` the paths and names involved, `types` the public budgets
  and reports.
- The modules ending in `_laws` state and prove what holds of whole runs: no
  error is swallowed (`segment_laws`, `full_laws`), nothing is touched under a
  pinned reader or without both guards, the trees are rewritten at most once and
  the report is exact (`full_laws`),
  every data page is copied (`segment_laws`), every segment is visited once
  (`stream_laws`), the same names stay linked (`catalog_laws`), the count is that
  of the wasteful segments and a pass ends (`count_laws`).
- `app/` runs a pass against a store: locks, files and the tracing span.
- `tests/` runs passes against a store in memory.
