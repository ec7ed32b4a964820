# aw_manager

A process manager for ActivityWatch. It finds the programs that are modules,
starts and stops them, keeps track of their state, and restarts those that
crash.

- `src/`: the decisions, verified with Verus. Nothing in it touches the
  operating system; `src/lib.rs` says which module decides what, and
  `src/outside.rs` lists the functions of other crates whose behaviour is
  taken on trust.
- `app/`: the operating system and the desktop around the decisions.
- `tests/`: tests of the library on concrete values.

## Crashes

A module that ends with an error is restarted, if the user agrees, after two,
four and eight seconds. After the third restart it is given up. A module that
was asked to stop is left alone.
