# qortex

A vector index for a record database. The points of an index live in a key-value store, which is
the source of truth. An in-memory vector segment mirrors them for nearest-neighbour search, and is
rebuilt from the store whenever it is stale.

`src/` is the library. It is written in Verus. Outside crates are reached through nine small
wrappers, whose contracts are trusted and not proved: eight in `codec`, around the storekey crate,
and `now_v7` in `slot`, around the uuid crate. `codec` also states, on trust, the contracts of two
methods of storekey's reader. Every other function is verified. The library performs no I/O: where
an operation has to read or write the store, it says which step comes next and is told what came
of it.

Changes are made in transactions. A change marks the segment stale before its first write, and is
settled once its transaction has been committed or rolled back. A rebuilt segment counts as current
only where nothing was marked or settled since the transaction that read for it began, and no
change is open. An index that is created anew under the key of a former one goes on with its slot.

| Module         | What it holds                                                                 |
|----------------|-------------------------------------------------------------------------------|
| `bytes`        | Byte strings as sort keys: big-endian numbers, escaping, lexicographic order  |
| `codec`        | The storekey crate: writing and reading the fields of a key                   |
| `qv`           | The `!qv` keys, and the key range of an index                                 |
| `qv_laws`      | What holds of the keys as a whole                                             |
| `catalog`      | Ids, table names, index parameters                                            |
| `float`        | Conversions between floating-point formats, on bit patterns                   |
| `vector`       | Vectors as they come from documents and as they are stored                    |
| `index`        | The index, and how each of its operations begins                              |
| `change`       | One record change, step by step                                               |
| `rebuild`      | Rebuilding the segment from a scan of the store                               |
| `slot`         | The place of the current segment: its directory, and whether it is stale      |
| `dirs`         | The directories in use, of which no two segments share one                    |
| `segment`      | The segment: set-up, numbered writes, search request and answer               |
| `knn`          | Turning the hits of a search into records                                     |
| `store`        | The registry of active indexes                                                |
| `model`        | The index as a whole: what the operations do to store and segment together    |
| `transactions` | The index under transactions: what holds of the segment in every interleaving |

`app/` is ordinary Rust around the library: asynchronous access to the store, the locks, the files
behind a segment, and the search engine (the `segment` crate of Qdrant).

Floating-point numbers appear in the library as the bit patterns that hold them.
