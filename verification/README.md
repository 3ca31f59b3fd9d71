# tension_core

The host side of an interpreter that runs a game's WebAssembly guest: the
shared-memory session between host and guest, the solver's configuration
wire format, and the world compiler and loader. The logic is a Verus
library; each public function states its behaviour in `requires` and
`ensures`, and Verus proves it.

## Layout

- `src/bytes.rs`, `src/text.rs`: little-endian reads and writes, decimal
  and hexadecimal text, and the spec vocabulary the layouts are stated in.
- `src/session/`: the arena's frozen layout (`arena`), the session
  configuration's wire format and its validation (`config`), the pending
  submissions (`apply`), the per-class event queues (`posting`), the event
  sub-rings in the arena (`subring`), an epoch's publish and call planning
  (`epoch`), and the session's lifecycle and guest-facing verbs (`mod`,
  `host`).
- `src/solver/`: the solver configuration's wire format (`config`) and the
  scan of a JSON config for its `source` (`probe`).
- `src/world/`: the world compiler from YAML (`yaml`, `parse`, `templates`,
  `document`), the binary format it emits (`compiler`) and its reader
  (`eval`), and the laws that tie them: what the emitter writes, the reader
  loads (`round_trip`), and what the compiler accepts, it can emit and load
  (`compiled`).
- `app/`: what the library does not hold: linking the guest with wasmtime,
  the wait on the guest thread, the C solver's bridge, the floating-point
  evaluation of a loaded world, and the error types' `Display`.
- `tests/`: the library's tests, run against the compiled crate.

`yaml-rust2` loads the author's YAML; the library calls it through a few
trusted wrappers in `src/world/yaml.rs`, whose contracts state what the
loader gives back.
