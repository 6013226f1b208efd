# hunter_files

The part of a terminal file manager that decides: which files of a directory
are shown and in what order, how a listing follows the changes of the file
system, what is tagged, how sizes, permissions and times read, and where the
columns of the screen stand. It is written in Rust and verified with Verus.

- `src/` is the library. Every function states what it returns or changes, and
  the laws that hold between functions stand beside them as proof functions.
  What it takes from other crates and from `std::path` goes through a few small
  functions, each marked and documented as not proved.
- `tests/` runs the library on concrete values.
- `app/` reads directories and metadata, keeps the threads and the shared state,
  and hands the library plain values.

Metadata arrives late. A file therefore holds the number of a slot, and the
slots live in an `FsCache` that is passed to whoever needs them.
