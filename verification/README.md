# bliss_mixer

The verified core of a music-mixing service that reads song analysis from an
SQLite database.

- `src/` (Verus): the text rules that the database layer applies to what it
  reads. `fields` splits text at a separator, `trim` strips Unicode white
  space, `genres` turns genre cells (`"Rock; Electronic"`) into the set of
  genres, `weights` picks the metric weights out of a comma-separated setting
  and writes them over the current ones, `rowid` gives the row id of a lookup.
- `app/`: the SQLite queries (rusqlite), the floating-point weighting of the
  metrics, and the adaptive matrix selection, which calls the project's core
  scoring crate.
- `tests/`: tests of the library.
