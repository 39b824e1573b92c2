# bitdb

A Bitcask-style key-value store: every write appends a checksummed record
to the active data file, an in-memory KeyDir maps each key to its latest
record, hint files summarise data files for fast startup, and merge
rewrites only the live records.  A second program, `tracer`, generates a
dataset and visualises a serial and a parallel startup rebuild side by
side.

## Layout

- `src/` — the verified library (Verus).
  - `record.rs`, `codec.rs`, `crc.rs` — the record format; decoding is
    proved to invert encoding.
  - `index/keydir.rs` — the KeyDir, a hash-indexed map with an exact
    `Map` view.
  - `storage/` — file names and ids, the catalog of data files (a
    `BTreeSet` of ids) with rotation, and the hint file format.
  - `recovery.rs` — scanning data and hint files and rebuilding the
    KeyDir; the last record written for a key wins, applying files one by
    one equals applying them all at once, and a hint file is used only
    when it reaches the end of its data file, so it never changes what a
    scan finds.
  - `engine.rs` — the store's state (`EngineCore`) and its model: a read
    returns what the last write wrote, however much is appended later;
    put and delete move a key between the live and tombstone counts; and
    reopening data files written in order, with or without hint files
    (including stale ones), rebuilds the KeyDir the writes built.
  - `merge.rs` — which records a merge rewrites; merging preserves every
    read and the live keys, leaves no tombstone, and a second merge
    changes nothing.
  - `tui/app.rs` — the interactive console's state machine.
  - `tracer/` — the tracer's work assignment, the state machines of its
    screens, and the switching between screens.
  - `bench.rs`, `text.rs`, `config.rs`, `error.rs`.
- `app/` — the programs: command line, terminal user interfaces, file and
  thread handling, timing.  They carry out the library's decisions.
- `tests/` — tests of the library, including the store driven end to end
  over an in-memory directory.
