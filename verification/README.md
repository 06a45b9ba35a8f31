# Velo

A small file manager with a verified core.

- `src/` is the core, proved with Verus: the state of the window, the order and the
  filter of the list, going back and forward, jumping by typing, the address and the
  breadcrumb bar, and the texts of a row.
- `app/` is the program around it: the window, reading and watching directories, opening
  files.
- `tests/` runs the core.

A path is held as its components and the text in which it is written, a point in time as nanoseconds since the start of
1970 in UTC. What the core takes from outside without proof are a few functions of std
(`str::to_lowercase`, `str::trim`, `String::push`, `String::from_utf8_lossy`,
`Path::components`, the clock)
and of chrono (the local time zone, the text of a date).
