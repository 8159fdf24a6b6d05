# uffs_mft

A verified library for reading the master file table of NTFS volumes.

* `src/` is the library. Every function in it carries a contract that Verus
  proves: the file formats of saved tables and captures, allocation bitmaps,
  extents, the upper-case table, the change journal, the figures of directory
  trees, and the decisions of a read (which reader runs, what happens when it
  fails, when a cached index is served, updated or rebuilt).
* `tests/` runs the library on concrete values.
* `app/` is ordinary Rust around it: files, devices, threads, the async runtime,
  logging and floating-point figures.

Laws that relate several functions are public proof functions whose names begin
with `law_`.

The library does no I/O. Where a read or a control request is due, a function of
the library says what is to be done, and the caller hands back what came of it.
Compression is left to `zstd`; the contracts of `src/codec.rs` say what is
believed of it. Those of `src/text.rs` and `src/reader/read_mode.rs` say what is
believed of three functions of std.
