# process_monitor

A terminal process monitor: it lists the running processes, scores each one
for risk (CPU, memory, suspicious names), reports newly started and risky
processes in an event log, and charts CPU, memory, GPU and disk activity.

The decision-making part is a library verified with Verus (`src/`); the
terminal program around it (`app/`) reads the operating system and draws the
screen.

## Layout

- `src/models.rs` – processes, samples, risk levels, events, and their views.
- `src/analyzer.rs` – the risk score and level of a sample, in exact
  integer arithmetic on the exact readings, with the factors shown to the
  user.
- `src/float.rs` – CPU readings held by the bits of their `f32`: their
  value, order, and rounding of integers to a float's significant bits.
- `src/app.rs` – the monitor's state; key handling, row selection, sorting
  column, bounded histories.
- `src/tick.rs` – what one refresh does: new-process and anomaly reports
  (with a ten-second cooldown per process), per-process histories, sorting,
  selection that follows the selected pid, refresh schedules, disk totals.
- `src/sorting.rs` – the order of the process list, with pid tie-breaks.
- `src/collector.rs` – parsing and arithmetic on what the system reports
  (CPU frequency counters, `cpufreq` files, memory inventory text, disks).
- `src/gpu.rs` – adapter de-duplication and the GPU performance counters
  (overall and per-process load and memory).
- `src/logger.rs` – log level and line of an event.
- `src/dashboard.rs` – the dashboard's counts and its top-risk, top-GPU and
  top-VRAM lists.
- `src/text.rs` – decimal numerals, searching, trimming and number parsing.
- `src/laws.rs` – properties that hold across calls and states.
- `app/` – the program: `sysinfo`, WMI, `wgpu`, the clock, and the
  `ratatui`/`crossterm` user interface.
- `tests/` – tests of the library on concrete values.
