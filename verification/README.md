# steller

A minimal Redis-compatible in-memory key-value server, with its logic verified in
[Verus](https://github.com/verus-lang/verus).

It speaks RESP over TCP, so `redis-cli` works: ping, get, set, delete, check existence, set
relative or absolute TTLs, query them, persist keys, and subscribe to channels. Data survives
restarts on a snapshot baseline plus an append-only command log.

## Layout

- `src/` is the library: the wire codec, the cache and its expiry, the pub/sub registry, the
  log and the snapshot, the session and the decisions of the server's lifecycle. What its
  functions do stands in their contracts, which Verus proves. The library opens no socket
  and no file.
- `app/` is the program around it: threads, sockets, files, stdin.
- `tests/` runs the compiled library.

Each type has a mathematical model: a cache is a map from keys to entries, a registry a map
from channels to listeners, a frame a tree of byte strings, the log a sequence of bytes. An
operation that looks at the clock comes in two forms: one that reads it, and one (`*_at`)
that takes the reading and whose outcome is fixed by it.

## What is proved beyond the single functions

The `*_laws` modules state what holds across functions:

- Parsing undoes encoding, and how the bytes of a request are cut up on their way makes no
  difference to how it is answered (`resp/frame_laws.rs`, `inbound/session_laws.rs`).
- A logged command reads back as itself without looking at the clock, and a date in seconds
  past any clock's reach is clamped rather than refused (`resp/command_laws.rs`).
- A snapshot's bytes are read in one way, and what was stored is what is loaded
  (`outbound/persister/snapshot.rs`).
- What is set is got back byte for byte, until its deadline passes; nothing expired is ever
  shown (`domain/cache_laws.rs`, `inbound/server_laws.rs`).
- Replaying the log carries out what was logged, in order, wherever a crash tore its tail;
  and exactly when a restart finds what the live cache held (`outbound/persister/laws.rs`,
  `inbound/server_laws.rs`).
- A session listens only where it has joined, and once it has left everything it listens
  nowhere; a published message is handed once to everyone on its channel
  (`inbound/session_laws.rs`, `domain/channels_laws.rs`).
- What one half of a session sends the other receives, unchanged and in order
  (`inbound/session_laws.rs`).

## What is trusted

The system clock (`domain/time.rs`), the queues of `std::sync::mpsc` (`domain/queue.rs`) and
`wincode`, which writes and reads snapshots (`outbound/persister/snapshot.rs`). Each declaration says what is claimed of it.
