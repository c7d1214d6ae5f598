# devtop

A developer-focused terminal system monitor: per-core CPU sparklines,
memory and swap gauges, network throughput, a process list with developer
context badges (Rust, Node, Python, Docker) that can be sorted and filtered,
and a Docker container panel.

## Layout

- `src/` — the library, whose functions carry machine-checked contracts:
  - `types.rs`: the records the collectors produce; process classification,
    badges, sort modes.
  - `process.rs`: the stable sort of the process list and the name filter,
    with their laws (sorted, permutation, stable, idempotent; subsequence).
  - `app.rs`: the monitor state, how collector updates and key presses
    change it, and the CPU history window.
  - `docker.rs`: CPU deltas between container readings, the table of
    previous readings, container naming.
  - `devices.rs`: loopback and system-volume filters, device names, the
    disk order.
  - `layout.rs`: how the screen is divided into panels.
  - `units.rs`: the unit in which byte counts and rates are shown.
  - `text.rs`: substring, prefix, trimming and truncation on characters.
- `app/` — the program: terminal setup, the event loop, the collectors
  (sysinfo, Docker), and drawing with ratatui.
- `tests/` — tests of the library.

Floating-point values (CPU percentages) travel through the library as the
bit patterns of the floats; the library orders or stores them without
computing on them.
