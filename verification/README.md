# marketplace_builder

A block builder for HotShot proposers, written in Verus. The library keeps
the builder states spawned for the blocks of the chain, the transactions
they queue, the blocks they build, and takes the decisions the builder
service makes on consensus events and API requests; each function states
what it does in its contract, and Verus proves it. Where an outcome rests
on something outside the library (the clock, whether a channel takes a
message), the contract says what holds whatever the outcome, and a
separate function states exactly what is done with each outcome.

Layout:

- `src/`: the verified library.
  - `rotating`: time-rotated sets and counters for deduplication.
  - `block`, `digest`, `text`: identifiers of blocks and builder states,
    their digests and how they are written out.
  - `state`: the transaction queue and the builder state.
  - `coordinator`, `table`: maps from builder state identifiers to states.
  - `blockcache`, `service`: the global state of the service.
  - `blocks`: offering built blocks to proposers and serving claims.
  - `bundle`, `building`, `wait`, `events`: serving bundles, building
    blocks, values received once, and the handling of consensus events.
  - `config`: parsing the TOML document that describes an API, and merging
    extensions into it.
  - `laws`: properties that hold across operations.
  - `channel`, `clock`: the broadcast channels and the clock.
- `tests/`: tests of the library.
- `app/`: the asynchronous loops, file and network access around it.
