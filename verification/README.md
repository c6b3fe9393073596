# audionautica-core

A loop harvester for Ableton Live projects: it finds the consolidated audio
files of a project, identifies them by their BLAKE3 content hash, copies them
into a year/category library (`Loops/<year>/<category>/`) and into mirror
folders, and never modifies the Ableton sources.

## Layout

- `src/` — the library, verified with Verus.
  - `domain`, `error` — vocabulary, records and user-facing errors.
  - `text`, `pathname` — character-sequence helpers and `Path` semantics.
  - `naming` — library file names: timestamp stripping, normalisation, collisions.
  - `fsutil::paths`, `fsutil::stability`, `fsutil::copy` — path components,
    deciding when a file being written has settled, verified copies.
  - `hash` — content identity (BLAKE3, lowercase hex).
  - `storage` — library-relative paths, taxonomy folders, storage providers.
  - `ableton` — project layout, set decoding, tempo candidates.
  - `recent` — recently opened sets.
  - `harvest` — storage locations of an ingest, the ingest run and its
    report, file names, session outcomes, discovery of candidates, historical
    scans.
  - `library` — removing, renaming and recategorising assets.
- `app/` — the SQLite catalogue, filesystem and audio I/O, logging, and the
  operations that drive the library's decisions with real files.
- `tests/` — tests of the library's public functions.
