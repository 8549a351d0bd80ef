# horust

The core of a process supervisor, written in Rust and verified with Verus.

- `src/bus.rs`: the bus that the components talk over.
- `src/repository.rs`: the services as the components share them.
- `src/runtime/`: the state machine that every service goes through. `model.rs` says what it is,
  `mod.rs` runs it, `repo.rs` holds the services, and `laws.rs` proves what holds of it as a whole.
- `src/service_handler.rs`, `src/formats.rs`, `src/clock.rs`: what is known of a service, the
  values that are exchanged, and time.
- `app/`: the loop around the runtime, which sends the signals and reaps the processes.

The proofs rest on what is stated of `crossbeam`'s channels (in `src/bus.rs`) and of std's
durations and clock (in `src/clock.rs`).
