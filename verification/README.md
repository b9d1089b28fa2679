# distributed_pipeline

A FizzBuzz pipeline split over two pods. The publisher counts heartbeats,
generates the numbers 0, 1, 2, ... in batches, and frames both streams as
big-endian bytes with a parallel stream of fragment lengths. The subscriber
reads the frames back, checks that each stream arrives in order, stops after
the shutdown signal has come on both streams, and turns every number into a
FizzBuzz message.

- `src/` is the verified library: byte encoding (`wire`), framing and
  unframing (`framing`), ordered streams (`sequence`), and the state of each
  actor (`generator`, `heartbeat`, `deserialize`, `worker`, `logger`), with
  the run parameters (`config`).
- `app/` runs the actors on the `steady_state` framework and the Aeron
  transport, parses the command line with `clap`, and starts both pods.
- `tests/` exercise the library on concrete values.
