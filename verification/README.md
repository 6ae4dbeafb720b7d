# photon

A verified core for a small data runtime, in two parts:

- **Object storage** (`src/object_store.rs`, `src/segment_allocator.rs`):
  content-addressed stores (IDs are blake3 hashes) kept in memory or in the
  pages of a memory-mapped segment handed out by a bump allocator.
- **A columnar query engine** (`src/engine/`): a type system of columns and
  record batches, data sources, logical plans built through a DataFrame
  API, a planner that resolves column names to indices, and physical
  operators (scan, projection, selection, hash aggregation) that run them.
  CSV sources hold their file's bytes; arrow's CSV reader infers their
  schema and decodes them at each scan, converting only the projected
  columns (`src/engine/csv.rs`).
  Floating-point values travel as their IEEE 754 bits and are computed on
  through `rustc_apfloat`.

Every verified function under `src/` carries a contract. Verus proves the library's
own functions against theirs; the trusted items that call outside code
are assumed, not proved: the `#[verifier::external_body]` wrappers around
`blake3`, `memmap2`, `rustc_apfloat`, arrow's CSV reader and schema
inference (with the converters between arrow's types and the engine's),
`String::push` and `str`'s `Debug`, the declared
outside types, and the `uninterp spec fn` names for what those calls
return. Their doc comments say what each one claims. The
`law_*` proof functions state what holds across calls (what a store gives
back after a put, that ranges a segment hands out never overlap, what a
GROUP BY feeds each group, what SUM, MIN, MAX,
COUNT and AVG give over a sequence of values, that any two physical plans
for one query agree).

`app/` is the Python extension module and the I/O around the library:
mapping segment files, reading CSV files' bytes and parquet files into sources, the
Tokio runtime, and float constants. `tests/` exercises the library.
