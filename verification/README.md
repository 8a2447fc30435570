# ners

A web server kernel whose logic is verified with Verus: a six-stage request
pipeline (net_in, parse, route, app, encode, net_out) over a connection slab and
bounded queues, an HTTP/1.1 parser and response writer, HTTP/2 framing, HPACK
and stream handling, stage metrics, and the analysis and bookkeeping behind
self-tuning.

## Layout

- `src/` — the verified library. Its functions carry contracts wherever there is
  something to state (constructors of field-less stages, and clock readings, have
  none); laws that relate several functions (the HPACK and frame round trips, queue FIFO order,
  slab health, stream state transitions, tuning-log rollback, and more) are
  public proof functions next to the code they speak of.
- `tests/` — tests of the library on concrete values.
- `app/` — the server program: sockets, threads, CPU pinning, NUMA detection,
  logging, and the floating-point tuning policies and ML feature model. It drives
  the library's stages, which decide what happens to each connection.

Run `RUST_LOG=info` with the built program and try `curl http://localhost:8080/`.
