# spatial_annotation_sync

A data layer for collaborative augmented-reality notes. Each replica stores
spatial annotations (a coordinate and a text under an identifier) whose
fields are last-write-wins registers, so two replicas that edit offline and
then exchange their state converge to the same annotations.

The library under `src/` is verified with Verus:

- `crdt::register` — last-write-wins registers; merging is idempotent,
  commutative and associative on compatible registers.
- `crdt::annotation`, `crdt::environment` — annotations and the replica that
  holds them: create, read, list, update, delete (a deletion is an edit to
  nothing that stays stored), merge, comparison; merging replicas is
  idempotent, commutative and associative.
- `crdt::point`, `text` — the `(x, y)` notation and the character-level
  parsing under it.
- `sync` — the length-prefixed frames that carry a replica to a peer.
- `cli` — the command language of the interactive client.

`app/` holds the client itself: standard input and output, JSON encoding of
replicas, and the asynchronous exchange with a peer over a stream.
