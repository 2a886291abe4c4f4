# lance_plaid

CPU-only PLAID storage and search primitives for late-interaction retrieval in
a columnar database, written and verified in Verus.

- `src/` is the verified library. `codec`, `postings`, `index` and `format` hold
  a segment and its file format; `search`, `adaptive`, `pipeline` and
  `exhaustive` its search; `vector_index`, `training`, `policy`, `hits`, `exec`
  and `metrics` the index of a database and its queries; `whole_query` what a
  query over all segments returns; `take`, `take_plan`, `grouped_read` and
  `reader_cache` the reading of rows.
- Single-precision numbers are held as their bit patterns. Dot products, sums
  and other floating-point arithmetic are done by the caller: a search hands out
  what to score, takes the scores back and goes on.
- Calls into the roaring, permutation, byteorder and rand crates stand behind
  small declarations in `bitmap`, `arrangement`, `little_endian` and `random`,
  whose contracts say what is taken from those crates.
- `app/` does the arithmetic, reads and writes files, converts Arrow columns and
  keeps readers open.
- `tests/` runs the library on concrete values.
