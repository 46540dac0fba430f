# spectraguard

RF spectrum monitoring for HackRF sweeps: parsing the sweep rows, detecting
peaks, tracking occupancy, recognising bursts and repeated pulses, raising
alerts, correlating them into IGOR assessments, and recording and replaying
telemetry.

## Layout

- `src/` is the library, verified with Verus. Every public function states
  its result in its contract; the laws of the library are public proof
  functions beside the code they speak of.
  - `sdr/`: sweep row parsing, capture arguments and stderr retention, the
    supervisor's state machine and its reports.
  - `detection/`: peak runs, occupancy counting, burst and pulse tracking,
    alert decisions.
  - `igor/`: band correlation, risk scoring and assessment emission.
  - `recording.rs`, `models.rs`: event kinds, migration of recorded events,
    recording summaries.
  - `config.rs`, `simulator.rs`, `native.rs`, `ml.rs`, `power.rs`, `text.rs`,
    `buffers.rs`, `telemetry/`, `ids.rs`: configuration checks, scripted
    attack plans, spectrum sizes, dataset tallies, order keys for power
    readings, text rendering, bounded buffers, log records and identifiers.
- `tests/`: tests of the library on concrete values.
- `app/`: the service around the library (process handling, files, HTTP and
  WebSocket, the async supervisor loop, floating-point statistics and the
  classifier). It calls the library for every decision it makes.
