# vyuta

Sidecars of the Vyuta drone IDE — telemetry/parameter gateway (`maestros`),
simulation control (`sim-manager`), flight-log analysis (`logbook`), the
companion-computer agent and the probe-rs debug bridge — with their logic
written as a Verus-verified library.

## Layout

- `src/` — the verified library (`vyuta`):
  - `ulog`, `ulog_write` — PX4 ULog reader (framing, formats, info,
    subscriptions, record decoding, flight-mode runs) and writers, with
    read-back laws between them.
  - `params` — the parameter store: sorted cache, change tracking, named
    snapshots and diffs, MAVLink id encoding.
  - `preflight` — the pre-arm checklist.
  - `px4` — PX4 custom-mode encoding and names.
  - `worlds`, `backend`, `session` — simulator catalogue, launch backends and
    the simulation session's lifecycle decisions.
  - `companion`, `graph`, `frames` — companion-agent lifecycle, ROS 2 graph
    parsing, shared frames and the bounded log ring.
  - `series` — index arithmetic for downsampling and flag spans.
  - `probe` — chip families from probe-rs, as JSON.
  - `text` — character-level string helpers and their lemmas.
- `tests/` — tests of the library.
- `app/` — the `vyuta` binary: sockets, processes, MAVLink, clocks, JSON and
  the floating-point parts (telemetry, mock flight physics, log review), built
  on the library.
