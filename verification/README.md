# multilite

The logic of a multi-writer SQLite layer, verified with Verus. Replicas run SQL
on their own databases, describe what a statement did as a logical operation, and
lower transactions of such operations to mutations of an ordered key space that
an authority admits. What the authority refuses is undone.

## Layout

- `src/` is the verified library. It holds no connection: it answers with
  statements, plans and verdicts on plain values.
  - `key`, `footprint`, `logical::{codes, target, layout}`: keys, ranges, what a
    transaction depends on, and where everything lies in the key space.
  - `logical::{contract, guard, lowering, isolation}`: which mutations, guards and
    undoings each operation may have, and what each mutation must be guarded by.
  - `logical::schema`, `catalog`, `physical`: table definitions, how they gain and
    lose columns, the names that things have now, and whether a stored table is
    what the catalog says.
  - `logical::row`: captured rows, their durable images and frames, folding of a
    statement's changes, lowering, replay and audit.
  - `logical::{alter, drop_table, view, user_version}`: the other operations.
  - `logical::index`: creations and drops of an index, as what their frames were
    read as. The SQL of an index and its frames are read by the caller, who lists
    what each payload stands for.
  - `logical::{operation, transaction}`: one operation of any of these
    kinds, and manifests of several.
  - `repair`, `rowid`, `metastore`, `runtime`, `snapshot`: saved values of dropped
    columns, leases of rowids, an ordered store, execution modes, and cursors.
  - `codec`, `bytes`, `text`, `each`, `attempt`, `double`: frames, byte and text
    helpers, traversals, and reals as bits.
- `tests/` runs the library, much of it against SQLite in memory.
- `app/` puts the library on `rusqlite` connections.

## Laws

Public proof functions state what holds across functions: that frames read back,
that lowered operations pass their contracts, that admitted batches are exactly
the lowered transaction, that alterations and row changes are undone by their
opposite, that folding keeps one change for each row, that rowids are never handed
out twice, that grouped writes leave what single writes leave, and others beside
the functions that they are about.

## Trusted

The library trusts the contracts of a few wrappers around `sha2`, `uuid`,
`getrandom` and `String::from_utf8`; each says above its body what it claims.
