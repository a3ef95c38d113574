# piper

Staged data pipelines whose workers scale themselves, verified with Verus.

- `Pipe` runs a fixed number of workers on one queue.
- `Piper` runs a graph of stages joined by links: it grows and shrinks the stages,
  tells what it is doing, and ends gracefully or at once.
- A declaration in tokens becomes a type that builds and starts its pipeline, from a
  list of stages or from named stages and edges.

A link that several stages read is shared work: each item goes to one of them. A
link that several stages write is a merged stream.

## Layout

`src/` is the verified library: every decision of a pipeline, as functions from plain
values to plain values, and the queues between stages. It holds no threads, no clock
and no floating point. `app/` is the ordinary Rust around it: it starts the threads,
waits, measures rates, writes the CSV file and carries out what the library decides.

| module | what it holds |
| --- | --- |
| `graph`, `cycles` | stages, links, anchors; what can be started, and with how many workers |
| `trend`, `control` | what is known of links and stages, sample by sample |
| `scaling`, `search` | which stage is resized next, and why |
| `crew`, `supervisor` | who works where; what the supervisor does next |
| `worker`, `pipe` | what a worker does next |
| `channel`, `link`, `lease` | queues, the pipeline's ends, buffers on loan |
| `telemetry`, `csv`, `text` | what a running pipeline tells about itself |
| `tokens`, `feed`, `syntax`, `joints`, `expansion` | declarations and the links that they lay |
| `config`, `error`, `time`, `accumulation` | settings, failures, spans, the benchmark's arithmetic |

Functions named `law_..` state what holds across several operations.

## What is trusted

The queues of `kanal` and `crossbeam-channel`, `proc-macro2` and `syn` where a fragment
of Rust is read, and a few functions of the standard library. Each trusted item says in its doc comment
which function it stands for and what is claimed of it.
