# dominator

A DOM library built on signals: values and vectors that change over time,
described by streams of change records.

The verified library (`src/`) holds the logic:

- `signals/`: signals and signal vectors as poll-based state machines: the
  filtered views of vectors and lists (`FilterMap`), the sorted view
  (`SortBy`), the length signal (`Len`), the per-entry signals of a mapped
  vector (`MapSignal`), combined signals (`Map2`), deduplication, and
  `MutableVec`, whose values are proved to replay the changes it records
  and sends to its signal vectors (what a channel delivers to each signal
  vector is the `futures` channel's, and is not proved here). For each
  change it takes, a state machine states and proves what it emits: applied
  to what the view showed before, the emitted change gives the view of the
  source after its change.
  `signals/adapters.rs` holds the combinators that poll a source and drive
  those state machines; their contracts chain the proved steps over each
  poll, in terms of what each source's own `answers` says of its polls.
- `operations.rs`: turning each change of a node's children into node
  operations, proved to replay to the new children.
- `callbacks.rs`, `dom.rs`: the callbacks a node collects, the builder, class
  names (proved unique), the decisions of style attempts and the page-load
  watch.
- `animation.rs`: the bookkeeping of animated vectors, whose removed entries
  stay while they animate out.

`app/` is the browser side: DOM bindings through `web-sys`, async plumbing
through `futures` and `futures-signals`, floating-point animations, and the
serde copy of `MutableVec`. `tests/` runs the library on concrete values.
