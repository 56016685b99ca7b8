# soma_health

Health aggregation for a robot body with one or more Piper arms, verified with
Verus.

Health primitives send frames of named readings. From the latest frame of every
connected primitive the library makes one snapshot of the body: its component
tree, its actuators, its faults, and what it may safely do.

- `src/number.rs`: IEEE 754 numbers as bit patterns
- `src/text.rs`: searching, replacing and ordering text; numerals
- `src/model.rs`, `src/codes.rs`: the messages and their codes
- `src/readout.rs`: from the readings of a frame to the state of an arm
- `src/snapshot.rs`: the snapshot of a single arm
- `src/providers.rs`: the latest frame of every provider
- `src/merge.rs`: the snapshot of the whole body
- `src/dial.rs`, `src/collector.rs`: following the providers, event by event
- `src/clock.rs`: time stamps
- `src/arm_laws.rs`, `src/body_laws.rs`, `src/collector_laws.rs`: what holds of
  the whole
- `app/`: discovery, gRPC streams, tasks and timers around the library
