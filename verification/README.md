# robotrace_sim

The verified core of RoboTraceSim, a fixed-step simulator of line-following
robots. Every function under `src/` is checked by Verus against its contract.

- `src/race.rs`: start, checkpoint and finish gates, lap counting and area
  exits, as a state machine over ordered gate crossings.
- `src/history.rs`: bounded undo/redo histories of the robot and track editors.
- `src/definition.rs`, `src/assembly.rs`, `src/sensing.rs`: validation of
  track definitions, robot assemblies and sensor acquisition timing.
- `src/track_rules.rs`, `src/models.rs`: names of rule modes, directions,
  marker sides, contact and actuator models; segment naming.
- `src/fidelity.rs`: physics presets and consistent model choices.
- `src/power.rs`: actuator commands delayed by their latency, and the
  sticky fault record of the powertrain.
- `src/replay.rs`: the legacy replay log: little-endian integers, the
  header, and records written and read back (floating-point channels as
  their bit patterns).
- `src/components.rs`: the robot's components by id (with the assembly
  derived from the legacy drivetrain where none is explicit): listing,
  finding, duplicating and removing them with the masses and optical
  settings that refer to them.
- `src/stepping.rs`: the sticky failure record of a run.
- `src/run_loop.rs`: when a logged run records a state and when it stops.
- `src/rng.rs`: the xorshift64* generator behind repeatable noise.
- `src/sim.rs`: run metadata, the models and seeds a run uses, and the
  strict-mode gate before a run.
- `src/files.rs`, `src/text.rs`: file names from user names, trimming,
  character classes and decimal text.

`app/` holds the parts that compute in floating point or touch files: the
geometry of gate crossings, Gaussian noise, the checks on actuator duties,
and the replay file writer and reader.
