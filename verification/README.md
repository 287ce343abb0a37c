# plato-engine-block

A room runtime: sensors are read on every tick, ticks are kept in a bounded
history, alarm rules run a state machine with a cooldown, actuators accept or
refuse values, and a line-based text protocol drives the engine.

`src/` is the library, verified with Verus. It is generic in the reading type
`V` and in the callback types, so it holds no floating point: the callers
supply tick timestamps and, for the protocol, the functions that parse and
print readings.

- `history.rs` — circular buffer; keeps exactly the most recent items.
- `alarm.rs` — alarm states and transitions; fires are spaced by the cooldown.
- `tick.rs`, `sensor.rs`, `actuator.rs` — readings and named callbacks.
- `engine.rs` — the engine and its builder.
- `protocol.rs` — command parsing, dispatch and reply texts.
- `text.rs` — whitespace, words, decimal numbers.

`app/` instantiates the engine with `f64` readings (timestamps from the tick
rate, replies with fixed decimals) and holds the tokio TCP server.
