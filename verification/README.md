# peat-mesh

A peer-to-peer mesh library whose rules are proved with
[Verus](https://github.com/verus-lang/verus).

- `src/` is the library. Every function states in its contract what it computes, and
  `law_*` proof functions state what holds across functions.
  - `security`: keys, certificates, bundles of certificates, enrollment, mesh genesis
  - `transport`: messages, peers and documents of lightweight nodes, firmware delivery
  - `sync`: the in-memory document backend and its queries
  - `storage`: Automerge documents as JSON, collections, certificates in documents, the
    enrollment protocol, sync connections, blob transfer
  - `broker`: rules of the HTTP and WebSocket service
  - `node`: settings of a node
- `app/` is the node program around the library: sockets, HTTP, files, the environment.
- `tests/` runs the library.

Time, randomness and what comes over the network are arguments: functions that end in
`_at` take the time, and state machines take what happened and say what to do next.

Calls into other crates (Ed25519, HKDF, SHA-256, Base64, hexadecimal, UUIDs, Automerge)
stand behind small wrappers whose contracts are trusted: each names the function that it
calls.
