# FolderPlay

A music player that plays local songs by the folders they lie in.

- `src/` is the library: the folders and songs that are known, what is shown of
  them, what is played next, and how folders are scanned and covers found. Each
  function states what it does, and Verus proves it.
- `app/` is the player around it: the window (GTK and libadwaita), the sound
  (GStreamer), the disk and the settings.
- `tests/` runs the library.

The songs are kept in an SQLite database. What the database answers is not
known beforehand, so the view of the library is the list of exchanges with it.
The contracts of its functions say which requests are made, in which order, and
how the replies are read. `tables.rs` says what a database that does as it is
told keeps in its tables and how it answers; `matching.rs` says how it compares
texts. The modules `promises`, `query_promises`, `scan_promises`, `deep_promises`,
`alike_promises` and `tree_promises` hold what follows for it: what was kept is found
again, lists hold each song once and in order, a scan brings the tables in line with
the disk, a second scan changes nothing, a deep scan leaves the same with reports and
without, and the folders in which there is sound are marked.

Points in time and durations are integers in nanoseconds.
