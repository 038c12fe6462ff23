# leo_debugger

A source-level debugger for Leo programs, verified with Verus.

- `src/` is the library. Each function states what it does in `requires` and `ensures`, and each public
  `law_...` proof function states a property of the library as a whole.
  - `text`, `paths`, `literals`: texts, file names, string literals
  - `debug_map`, `debug_info`, `records`, `precedence`, `breakpoints`, `locate`: debug maps,
    and the way from a source line to an instruction
  - `hook`, `session`, `vm`: where execution stops, the stages of a call, and the parsers of the virtual
    machine
  - `tui`, `panes`, `layout`: the terminal interface
  - `debug`: the `debug` command
- `app/` holds what the library cannot: files, threads, the virtual machine, the terminal.
- `tests/` runs the library.
