# graph_snapshot

A resident graph of a Rust workspace, handed out as snapshots. A snapshot is made of shards, one for
each source file: the declarations of the file, the edges that start in it, its diagnostics, and the
places where edges are not known. A client that knows an earlier generation is sent what changed
since.

Everything that decides something is verified with Verus. The crate holds

- the index of declarations and references (`indexing`, `identity`, `roles`, `exports`, `relations`,
  `modules`, `static_index`),
- the graph and its shards (`graph`, `nodes`, `edges`, `unresolved`, `shards`, `fingerprints`),
- the cache, what is committed to it and what is answered from it (`cache`, `commit`, `checkpoint`,
  `handle`),
- what a snapshot depends on (`universe`, `external`, `symlinks`, `keys`, `disk`, `ensure`),
- JSON texts and digests (`json`, `wire`, `digest`), and
- tables, orders, paths and texts (`table`, `sorting`, `order`, `plain`, `paths`, `text`, `fx`).

What holds of the library as a whole stands in proof functions whose names start with `law_`, beside
the functions that they are about or in modules of their own:

- `consistency`: snapshots, deltas and answers fit together, and every step of a request keeps it so,
- `sealing`: digests identify what they are taken of, and answers bring the shards themselves,
- `reading`, `parsing`: canonical texts are unambiguous and dense, do not depend on the order of
  fields, and read back to their values,
- `separation`: what identities tell apart, and what they do not depend on,
- `covering`: which files an index covers,
- `housing`: which shards an index gives rise to, and the nodes and edges that stand in them,
- `interfaces`: what the fingerprints of interfaces depend on,
- `capturing`: what the capture of external inputs depends on,
- `restoring`: checkpoints stand for the same in every order of their lists.

`app/` reads the disk, watches it, and speaks to clients. It performs what the library asks for and
hands back what came of it.
