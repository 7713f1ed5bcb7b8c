# trust_tee

Delegation primitives in the style of `Trust<T>`: a property is entrusted to a
trustee, and clients send it closures to run instead of taking a lock.

`src/` is the verified library:

- `runtime::slots` — the request/response slot layout, the header word
  (ready bit and request count) and the 40-byte little-endian encoding of a
  request record header.
- `runtime::serialization` — a cursor that reserves aligned regions in a slot
  buffer, and the layout of a closure record (environment, then arguments).
- `runtime::channel` — the client/trustee handshake on a channel pair: a
  request is outstanding exactly while the two ready bits differ.
- `runtime::schedule` — the trustee's decisions: registration polling, idle
  backoff, round-robin order, burst sizes, and serving one client's batch.
- `ring` — a single-producer/single-consumer ring with power-of-two capacity
  and free-running 64-bit positions.
- `single_thread` — `Latch<T>`, mutual exclusion without atomics.
- `trust` — `Local<T>`, a trust run inline by the local trustee.
- `util` — wait budgets, pinning settings, delegated scopes.

`app/` holds what the library does not: fibers and threads, the worker loops,
thread-local state, thread pinning through libc, moving closures into slot
bytes and calling them back, and the remote client handle.
