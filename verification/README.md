# cross233

A reverse-proxy tunnel: a server with public ports, HTTP/HTTPS virtual
hosts, a TCP multiplexer, UDP relays and a QCP (reliable UDP) front end, and
a client that registers local services with it over a TLS control
connection and answers each public connection with a tunnel.

## Layout

- `src/` — the verified library (Verus). The decisions of the programs are
  here, with their contracts:
  - `protocol/` — control messages, base64/hex/HMAC primitives, socket
    addresses and CIDR membership;
  - `qcp/` — the QCP transport: packet format, the per-connection state
    machine (acknowledgements, retransmission, fragments, liveness) and the
    byte-stream buffers; `qcp/laws.rs` holds the laws of one connection's
    steps, and `qcp/exchange.rs` models a sending and a receiving end over a
    network that loses, repeats and reorders packets, with the delivery laws
    proved over every run of it (`Batch` messages read in order, reliable
    messages read whole and exactly once);
  - `server/` — configuration, the shared key and challenges, the service
    registry (`registry_laws.rs` holds its laws), virtual-host routing and
    header rewriting, SNI, the multiplexer, PROXY protocol headers, metrics
    histories and the management API's access rules;
  - `client/` — configuration, the control session's steps, transport
    choice and its cache, static-file serving, health checks and PROXY
    protocol headers.
- `tests/` — tests of the library on concrete values.
- `app/` — the `cross233` program (`cross233 client …`, `cross233 server …`):
  sockets, TLS, files, timers, the dashboards and the serde forms of the
  library's values.  It reads, writes and waits, and asks the library what
  to do; a few small decisions stay beside the I/O they steer: which
  secrets `/api/config` leaves out, and how a tunnel request's timeout and
  its cleanup are sequenced.

## Collections

The registry and the client's transport cache keep their records in `Vec`s,
first match wins, with the invariants the original's maps gave (one record
per name or port) stated and kept.  Maps keyed by `String` are accepted by
Verus, but nothing about their contents can be proved through them; over a
`Vec` each lookup has an exact contract.  The QCP state keeps its
`HashMap`s, keyed by message id (`u32`), which Verus specifies.
