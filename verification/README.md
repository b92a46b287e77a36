# rarog

The verified core of the Rarog web engine, written in Verus.

`src/` is the library. Each module states its behaviour in `requires` /
`ensures` contracts over mathematical models (maps, sequences and spec
functions), and Verus proves the code against them:

- `scheduler`, `script`: the event loop's task and microtask queues, realm
  and rooted-value identities.
- `storage`, `checkpoint`, `storage_protocol`, `storage_transaction`: per-origin
  key/value storage with quotas, its checkpoint format, the request queue of
  the storage process and its transactions.
- `origin`, `web_url`, `websocket`, `websocket_queue`: origins and sites, URLs,
  WebSocket URLs, handshakes, close codes and message queues.
- `webidl`, `webidl_standards`, `webidl_binding`: the normalized WebIDL
  representation, the standards frontend (weedle's parse, read into syntax
  values and normalized fail-closed, with the frontend's error spans), and
  the binding metadata built from it.
- `resources`, `webgl`, `scroll`: the image resource store, WebGL contexts and
  their resources, and scroll trees.
- `platform`, `accessibility`, `process`, `windows_*`, `opentype`: platform
  values, accessibility snapshots, the process topology and the Windows
  platform's commands, endpoints and limits.
- `keyed`, `order`, `text`, `fresh`: shared lemmas about keyed sequences and
  weighted sums, byte orders, text building, and the counters that hand out
  identity scopes.

Outside crates are reached only through the trusted items of `web_url`,
`origin`, `text` and `webidl_standards`, each documented with what its contract claims.

`tests/` exercises the library. `app/` is the embedder: the system clipboard,
process launching, canvas leases of WebGL contexts, the floating-point geometry
of scroll trees and the process-wide scope counters.
