# snapshot_commit

Planning of table snapshots that add and remove files, verified with Verus.

- `src/` is the library. Each operation is a sequence of steps. A step names what is to be read,
  written or evaluated next, and is resumed with the result; its contract says exactly which step
  follows, as a function of everything that was read so far. `src/laws/` states what holds across
  steps: no file is lost or invented, removed files are gone, later attempts reuse what earlier
  ones have written, and what the checks before a commit establish.
- `app/` carries the steps out: asynchronous actions over a `TableStorage`, with a cache that is
  shared by the attempts of one commit.
- `tests/` runs whole operations against a table that is kept in memory, and single steps on chosen
  values.

Two functions are trusted, both in `src/ids.rs`: a new UUID of version 7, and the text of a UUID.
