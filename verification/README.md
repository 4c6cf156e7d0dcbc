# tpt-diskview

The verified core of a disk space analyzer (a TreeSize / WinDirStat
alternative): the size-annotated file tree that a scan builds, the rules of
the cleanup detectors, the scan status kept between requests, and the small
encoders used to produce the application icons. Every function in `src/` is
verified with Verus against the contract in its header, except two
wrappers whose contracts are trusted: `blake3_hash` in
`src/cleanup/duplicate.rs` (around `blake3::hash`) and `encode_ico` in
`src/icon.rs` (around the `ico` crate's encoder). Each names its result as a
function of its arguments.

## Layout

- `src/tree.rs` — `FileNode`, `FileNodeType`, `Tree`; totals counted from the
  leaves (`total_size`, `total_items`); `add_child` and `sort_children`, which
  a scan uses to aggregate a directory; copies proved field for field down
  the whole tree (`same_tree`); laws showing that a directory built
  this way records the totals of its contents.
- `src/sort.rs` — a stable merge sort by size, largest first, proved equal to
  a simple insertion-order specification; laws: sorted, a permutation, stable.
- `src/scanner.rs` — scan options and progress reports; which paths a scan
  skips; how a scanned directory is assembled from its children; node types of file system objects; Windows extended-length paths.
- `src/state.rs` — the scan status state machine (start, progress, failure,
  cancel) with its laws.
- `src/error.rs` — scan errors and their messages.
- `src/cleanup/` — the temporary-file, browser-cache, Docker and duplicate
  detectors, all of them together (`report.rs`), and the summary of a
  removal. Directory listings, file contents and existence checks are
  passed in as plain values; duplicates are found by size, then by BLAKE3
  digest (computed through the `blake3` crate).
- `src/icon.rs` — CRC-32, Adler-32 and the stored-block PNG writer, the
  raw RGBA pixels of the icons, and the ICO file that holds them.
- `src/text.rs` — path joining per platform, prefix tests, decimal numbers.
- `app/` — the command line program: file system walks (`ignore`, `rayon`),
  reading files, deleting to the trash (`trash`), writing the icon files and
  JSON output (`serde`, `serde_json`).
- `tests/` — tests of the library on concrete values.
