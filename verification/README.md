# udp2raw-ng

UDP datagrams over an authenticated tunnel whose outer packets look like TCP. The
library is written in Verus: what each function returns is stated in its contract
and proved.

## Layout

- `src/` is the verified library.
  - Protocol: `protocol` (datagram envelope), `replay` (sliding window), `crypto`
    and `cipher` (keys, tags, AEAD), `record` (sealing and opening), `handshake`
    (messages, cookies, resumption credentials).
  - Engines: `client` and `server` turn an event and an instant into actions.
    `client_model` and `server_model` say exactly which.
  - FakeTCP: `packet` (IPv4/TCP packets), `faketcp` (paths and their handshake).
  - Hosts: `transport` (the transport trait and an in-memory pair), `service` and
    `routes` (what a managed service decides), `cli` (what the command line
    decides), `messages` (error texts).
  - Laws, as proof functions: `client_laws`, `conversation_laws`, `server_laws`,
    `session_laws`, `tunnel_laws`, `faketcp_laws`, and beside the functions that
    they are about.
- `tests/` runs the library with the real cryptography.
- `app/` is ordinary Rust around it: the command line, raw sockets, and the Tokio
  tasks that carry out what the library decides.

The library performs no I/O. Instants, random octets and everything else that comes
from outside are handed in, or drawn behind a small function whose contract says
what holds of every outcome.
