# fleet_keel

Self-orientation of a fleet of agents from internal dynamics alone, with its
integer core verified by Verus.

- `src/sign_pattern.rs` — `SignPattern<N>`: the ±1 orientation of each agent,
  its label, and its cut of the complete coupling graph `K_N` (the number of
  crossing edges, `positive * negative`, at most `floor(N/2) * ceil(N/2)`,
  with equality exactly for balanced patterns).
- `src/zone.rs` — `FleetZone` and the stability rule.
- `src/keel.rs` — `Keel<S, AGENTS>`: the calibration state (baseline, baseline
  pattern, previous step, step count) over opaque agent states `S`, the
  perturbation vote and the lateness rule.
- `app/lib.rs` — the floating-point measurements (energy, velocity, strain,
  alignment, zones, convergence estimate) and the full `Keel<N, AGENTS>` API
  over `f64` states, built on the verified core.
