# cargo minimize

`cargo minimize` takes the dependencies of a Cargo package, or of all packages of a workspace, down
to the lowest versions that their requirements admit.

- `src/` is the library, verified with Verus. It reads the crate specifiers of the user, picks the
  dependencies that they concern, and decides each step of a run (`session`). What it takes from
  other crates stands in `outside`, with what is believed of it. `laws` and `runs` state what holds
  of the upgrades and of whole runs.
- `tests/` runs the library.
- `app/` is the command: it parses the command line and takes the steps that the library decides on,
  which touch files, the network and the terminal.
