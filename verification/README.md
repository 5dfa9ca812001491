# enginefs

The core of a torrent streaming engine, written in Verus: a two-tier piece cache,
the stream that a player reads a file from, the registry of engines with their
grace periods, and the preload bookkeeping.

`src/` is the verified library.

| module | contents |
|---|---|
| `hybrid_cache` | the piece cache: hot tier in memory, warm tier on disk, pins |
| `hot_tier`, `payload` | the boundary to `moka` and `bytes` |
| `hot_laws` | when removals stay hidden, how much the hot tier holds |
| `warm`, `warm_runs` | slots of the flat files and the steps of a write |
| `tiering` | where a piece is after any run of operations on both tiers |
| `drain`, `pins` | when a piece may be freed in the backend's memory |
| `stream`, `stream_laws` | reading, waiting, seeking, deadlines |
| `engine`, `files`, `grace`, `engine_fs` | engines, open streams, removal |
| `trackers` | the tracker list of a torrent |
| `preload` | reading a whole file ahead of playback |
| `table`, `info_hash`, `paths` | shared helpers |

Operations that reach outside (files, sockets, the torrent backend, time) are not
performed by the library. It says what to do next and takes the outcome back as a
plain value; `app/` performs the operations.

Each public function states its behaviour over a mathematical model of its type
(`CacheModel`, `WarmModel`, `StreamModel`, `FsModel`, ...). Properties that span
several calls are public proof functions beside the models.
