# kennel

The host-side tools of a sandbox whose workloads get what a signed policy grants, and nothing else.

- `src/` is the library: everything that is decided, parsed, encoded or said, as functions on plain
  values, verified with [Verus](https://github.com/verus-lang/verus). Each public function has a
  contract over sequences of characters and bytes that says what it returns, each error included.
  Statements over several functions are the proof functions named `law_…`.
- `tests/` runs the library on concrete values, with the outside crates it calls.
- `app/` is the programs around it: files, sockets, devices, threads and other processes. The name
  that the binary is started under selects the program; `app/workspace.rs` holds the calls into the
  sibling crates of the workspace, which have to be present to build it.

The library calls outside crates through a few trusted functions, each marked and documented where it
stands: `lexopt` (command lines, in `cli/options.rs`), `serde_json` (the configuration of an image,
in `cli/oci.rs`), `basic-toml` with `serde_json` (configuration files, in `config.rs`) and `object`
(program sections, in `bpf.rs`).
