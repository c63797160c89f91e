# pelican

The verified core of a telemetry ingestor.

- `src/ring.rs`: the bounded ring (`Inner`), its cache-line-aligned slots and
  counters, and the first-in-first-out law over any sequence of operations.
- `src/spsc.rs`: the producer and consumer handles of a channel, which share
  one ring under a verified spin lock, so an operation may wait for the other
  side (the queue is not lock-free).
- `src/wire.rs`: the 64-byte `VersionedTelemetryFrame` and its decoder, whose
  contract fixes every error and every decoded field.
- `src/checksum.rs`: the CRC-32C check value, computed by the `crc32c` crate.
- `src/cache_line.rs`: the 64-byte-aligned type that pads the hot fields.
- `app/`: an `f32` view of the frame and a `channel` that checks its argument.
