# plumbum

Production, transformation and consumption of streams of data, one piece at a
time, with every component's behaviour specified and proved with Verus.

## Concepts

- A **source** produces a stream of values (`ConduitM<Void, O, (), K>`).
- A **sink** consumes a stream of values and produces a final result
  (`ConduitM<I, Void, A, K>`).
- A **conduit** consumes values from upstream and produces values downstream.

`connect` feeds a source into a sink and returns the sink's result; `fuse`
joins a component with a downstream one. The primitives are `consume`,
`produce`, `leftover` (hand a value back upstream, to be consumed next) and
`defer`; `and_then`, `and`, `zip` and `map` sequence components.

A `ConduitM<I, O, A, K>` is a suspended program: finished with a result, or
waiting to be resumed, flushed, fed a chunk, or to have its output or
leftovers taken, with a continuation of type `K`. Continuations are plain
values of types that implement `Resume`; each gives a *model* of itself and
says, on models, what resuming and feeding do (`spec_resume`, `spec_feed`).
The view of a conduit (`c@`, an `Action`) shows its payloads as sequences and
its continuation by its model. Closures handed to the combinators must be
pure functions (total and deterministic), so that models are functions of
state.

This is a real restriction. `and_then`, `map`, `fold`, `transform` and
`Kleisli::append` require their closure to accept every argument and to fix
(the view of) its result in its `ensures`. A closure whose result is itself a
conduit built with another closure (data-dependent sequencing, as `pipe!`
writes it, or a conduit that recurses) cannot name its result type, so it can
carry no such `ensures`: such pipelines compile and run, but no contract of
this crate speaks of them, and a recursive conduit has to be written as a
continuation type of its own that implements `Resume`. The I/O conduits of
`app/` give no model at all; what they decide at each step is the library's
`write_action`, `take_action` and `after_*` functions.

`connect_fuel` gives the meaning of connecting a source to a sink on models;
`connect` requires that the connection finishes and returns the result that
`connect_result` names.

## Proved properties

`src/laws.rs` states and proves, among others, that:

- a source that yields the values `l`, connected to `fold(a, f)`, gives `l`
  folded into `a`; connected to `consume()`, the first value of `l`;
- connected to a sink that takes its input one value at a time, a source
  gives a result that depends only on the values it yields, not on how they
  are split into chunks or on its deferring, flushing or awaiting; `consume`,
  `fold` and conduits that never await take values one at a time, and `and`,
  `zip` and `map` keep that property (`and_then` is not covered);
- `defer()` only adds laziness: `defer().and(sink)` is connected as `sink`,
  and `defer().and(src)` yields what `src` yields;
- `source_iter(v)` yields `v`; sequencing sources with `and` concatenates what
  they yield; `extend_iter` appends values;
- fusing a source with `transform(g)` yields the values mapped by `g` (so a
  sink that takes one value at a time gets exactly those values), and
  `transform(g).fuse(fold(a, f))` folds the mapped values;
- fusion is associative for sources that never flush, and for any source
  when the sink ignores flushes (as `consume` and `fold` do):
  `src.fuse(c)` connected to `sink` gives what `src` connected to
  `c.fuse(sink)` gives; with a flushing source and a sink that reads flushes
  (`consume_chunk`) the two differ;
- a value handed back with `leftover` is what the next `consume` gives, and,
  for any source, once `consume` gives `None` a further `consume` gives
  `None` too;
- a source generalized with `to_producer` and fused below any upstream gives
  what the source gives, and never pulls from the upstream;
- `and` is associative; `and_then`, `and` and `zip` on a finished conduit,
  `map`, `to_producer` and `to_consumer` do what they promise on any source.

## Layout

- `src/chunk.rs`: `Chunk`, the pieces of input a conduit is fed.
- `src/conduit.rs`: `ConduitM`, its view `Action`, the `Resume` trait, `Done`.
- `src/prim.rs`: `consume`, `consume_chunk`, `produce`, `produce_chunk`,
  `leftover`, `leftover_chunk`, `defer`.
- `src/bind.rs`: `and_then`, `and`, `zip`, `map`.
- `src/connect.rs`: `connect` and its semantics, `to_producer`.
- `src/fuse.rs`: `fuse`.
- `src/sink.rs`: `to_consumer`, `fold`, `transform`.
- `src/extra.rs`: `source_null`, `source_iter`, `extend_iter`.
- `src/kleisli.rs`: `Kleisli` arrows from values to conduits.
- `src/instr.rs`: instruction sets (`Instr`, `Identity`, `Coproduct`).
- `src/io.rs`: what the I/O conduits do with each input and with the outcome
  of each operation.
- `src/laws.rs`: proved properties of connecting, fusing and sequencing.
- `app/lib.rs`: the I/O conduits (`reader`, `writer`, `receiver`, `sender`,
  `sync_sender`) and the `pipe!`, `seq!` and `fuse!` macros.
- `tests/`: tests on concrete values.
