# Zhtta

A small web server whose logic is verified with Verus.

- `src/` is the library: parsing requests, paths in normal form, the queue of requests for static
  files, the cache of pages, the pages themselves, the command line, and the server as a state
  machine from events to actions. `src/laws.rs` proves what holds of the server as a whole.
- `src/outside.rs` holds every call into code that is not verified: `std::str::from_utf8` and the
  `getopts` crate.
- `app/` is the program: sockets, files, threads and the shell for dynamic pages.
- `tests/` runs the library on concrete values.

The options of the program are `--ip`, `--port`, `--www`, `--task`, `--cache`, `-h` and `--help`.
