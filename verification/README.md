# scope2000

Host-side logic of Scope2000, the PC instrument for the Viewer2000
rapid-control-prototyping firmware, written in Verus: the functions carry
`requires`/`ensures` contracts and Verus proves the code against them.

## Layout

- `src/` — the verified library.
  - `codec.rs`: the native wire format (COBS framing, CRC-32C, frame
    decoder, every request and response payload), with round-trip lemmas.
  - `session.rs`, `link.rs`: acknowledgements, device identity checks,
    catalog enumeration, capture assembly and replay, the link state that
    each received frame updates.
  - `source.rs`: the device's values (descriptors, status, scope blocks,
    commands and events).
  - `inspector.rs`, `tree.rs`, `natural.rs`: the variable catalog, its
    naturally sorted name tree, pins, watches and read batches.
  - `acquisition.rs`, `capture.rs`: wave start checks, scope bindings and
    configurations, capture windows around the trigger.
  - `state/`: the hardware, calibration, ABZ zeroing, SRM open-loop and
    workspace-autosave state machines.
  - `events.rs`: how each device event changes that state.
  - `project.rs`: project names, the project registry and status, the CCS
    `.project` reading, baker build reports.
  - `console.rs`, `display.rs`, `template.rs`, `release.rs`, `text.rs`,
    `clock.rs`: logs, panel texts, file name templates, update checks,
    decimal and hexadecimal text, clock readings.
- `app/` — a headless command-line monitor around the library: serial
  transport, the device worker thread, configuration files and CSV export.
- `tests/` — scenario tests of the library.

Calls into outside crates (`chrono`, `dirs`, `roxmltree`, `semver`) and the
few standard-library functions Verus has no specification for stand behind
small trusted wrappers, each with a doc comment saying what its contract
claims.
