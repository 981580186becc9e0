# arachne_incremental

Incremental file change detection over the NTFS update sequence (USN)
journal: instead of walking a directory tree, a scan reads the journal from
a saved cursor, turns its records into change events under a root directory,
and keeps a cache from file reference numbers to paths so that renames can
report where a file came from.

The library under `src/` is verified with Verus:

- `bytes` — little-endian integers in byte buffers;
- `text` — UTF-16 decoding and encoding, ASCII case folding, substring search,
  NUL removal;
- `journal` — the device path of a volume, the journal query, the read
  request, the decoding of record batches, and the decisions of the read loop;
- `changes` — the kinds of change, turning records into events against the
  cache, and the cache a scan starts from;
- `paths` — the file name at the end of a path;
- `filter` — selecting events by kind and by glob patterns;
- `session` — the decisions of a scan and of a watch: journal identity,
  cursor movement, summaries and log lines;
- `volume` — the drive letter of a canonical path;
- `bench` — the computations of the benchmark.

`app/` is the command-line program around it: argument parsing, JSON files,
the console, the clock and the calls to the volume device.
