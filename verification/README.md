# mpquic

A file server and its client that talk over QUIC on several paths at once. Which
path carries a packet is up to a scheduler: round robin, smallest round-trip time,
earliest completion first, or a remote agent that has learned to choose.

- `src/` holds the decisions, verified with Verus. `path`, `scheduler`, `ecf`, `rl`
  and `latency` choose paths; `packet`, `token`, `cid` and `accept` let peers in;
  `request`, `response` and `serve` answer requests; `pacing`, `events`, `client`,
  `config`, `stats` and `qlog` hold the rest of the two programs' rules.
- `app/` holds the two programs: sockets, clocks, files, and the transport.
- `extras/data.capnp` describes the remote agent.
- `tests/` runs the library.

The retry tokens are not authenticated and are no protection. The client does not
check the server's certificate.
