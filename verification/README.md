# Filament

A keyboard-driven mind-map canvas for the terminal: a forest of labelled
nodes with links between them, tags and time tags, an archive of notes, and
projects saved to disk.

## Layout

- `src/` is the library, written in Verus and verified: the node forest and
  its operations (insert, edit, reparent, delete, undo), the tree layout, the
  link router, the text buffers, the keyboard map and the state machine of
  the modes, the status queries, the synchronisation of the nodes that mirror
  time tags, the project files' contents, the start menu and the table of
  built-in colour palettes.  Every public
  function states what it returns or changes; the laws that relate several
  operations are public proof functions beside them.
- Calls into other crates (chrono and chrono-english for dates, crossterm
  for the terminal size, dirs for the home directory) and into parts of std
  that Verus has no specification for stand behind small trusted functions
  whose doc comments say what their contracts claim.
- `app/` is the terminal program: reading keys and turning them into the
  library's key presses, drawing with ratatui, and the file and database
  I/O (serde, toml, rusqlite).
- `tests/` runs the library on concrete values.
