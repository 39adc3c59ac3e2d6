# valkey_cuckoo

Scalable cuckoo filters for Valkey (`CF.*` commands), split into a verified
core and the module around it.

`src/` is the library, verified with Verus:

- `limits`, `error`: configuration ranges and the error replies.
- `filter`: one subfilter (requested capacity, bucket size, fingerprint
  table) and the validation of its snapshot words.
- `object`: the scalable object: insertion and deletion plans over the
  subfilters, growth and memory-limit checks, bookkeeping after each engine
  operation, and the laws that relate them.
- `snapshot`: the byte format (`CF.LOAD` / `DUMP`), its parser and the
  round-trip and rejection laws.
- `chunks`, `alloc_stats`, `reserve`: chunked saving and loading of bucket
  bytes. The loader states every reservation it asks the allocator for, and
  bounds the storage those reservations add up to, as the library's own
  counters; measuring the process allocator is left to `app/`.
- `hasher`: the fixed item hasher (SipHash-1-3 through `siphasher`).
- `text`, `commands`: argument parsing for the commands, `CF.INFO` fields and
  the items that are replicated after a partial insertion.

The fingerprint tables themselves are computed by the cuckoo filter engine;
the library holds each table as plain values. Insertion, batch insertion and
deletion take the engine's operations as functions: the library decides which
operation to run on which subfilter, in which order, when to stop and when to
grow, and what to keep from each result.

`app/` is the Valkey module: command handlers, persistence callbacks,
server configuration, metrics, the engine calls and a test allocator.
