# vision_ingest

Bounded ingest path for compressed visual tokens that arrive from a remote
sensor device. The sensor device encodes a frame and projects it to the width
of the target model; the compute node keeps the most recent frames and inserts
a selection of them into the model's context.

```
receive task
  | pool::BufferPool            buffers that circulate
  | orchestrator::FrameSender   drops when the queue is full or ingest is off
  v
drain loop
  | guard::StreamGuard          geometry and finiteness
  v
ring_buffer::IngestRingBuffer   a fixed number of slots
  | selection::ExportPolicy     number, age, stride, distance between captures
  v
LLM context insertion
```

| Directory | Content |
| --- | --- |
| `src/` | The library. Verus proves every function in it against its contract. |
| `tests/` | Tests of the compiled library. |
| `app/` | What shares the library between tasks: locks, the waiting drain loop, conversions. |

## Model

`window::Window` is the mathematical model of the cache: its geometry, its
capacity, the next sequence number, the staleness bound and the retained
frames, oldest first. The contracts of the cache are written over it. Laws of
the library are public proof functions whose names start with `law_`.

## Time

Arrivals and ages are measured with a clock that each cache starts when it is
made and keeps. A function that reads it says that it worked with a reading of
that clock, and has a counterpart whose name ends in `_at`, which takes the
reading as an argument and has an exact contract. `push_frame` and
`export_linearized_payload` read it through `push_snapshot` and `export_into`.
Distances between captures are measured on the sensor clock.

## The drain loop

`orchestrator::AsyncIngestOrchestrator` holds one round of the loop that takes
frames out of the queue; `app/` waits for the frames. `drain` says what a run of
rounds leaves in the cache, in the counters and in the pool.

## Elements

Storage is generic over `TokenElement`. `F32Bits` and `F64Bits` hold floats as
their bit patterns, so that finiteness is a statement about bits.

## What is taken on trust

The two clock calls of `std::time::Instant`, and the opening of and the
offering to a bounded `tokio` channel. Each stands in a small function with a
comment that says what is claimed of it.
