# punchhole

PunchHole keeps direct IPv4 TCP mappings open behind a full-cone (NAT1)
router: one OS-selected local port carries an HTTP keepalive connection and
TCP STUN, and a script installs the data-plane forwarding whenever the public
endpoint changes.

Layout:

- `src/` is the verified library (Verus). It holds everything that decides or
  encodes: STUN Binding request and XOR-MAPPED-ADDRESS parsing (`stun`), HTTP
  keepalive response validation and request text (`http`), configuration
  assembly and endpoint selection (`config`), script arguments (`notify`),
  the local-port and notification bookkeeping of a mapping worker (`mapping`),
  the accept-error classification (`net`, which reads libc's errno constants
  through small trusted functions),
  and the byte-order and decimal helpers they share (`bytes`, `text`,
  `endpoint`). Every function there carries a contract proved by Verus; the
  properties that span several functions are public proof functions.
- `app/` is the process around it: command-line parsing (clap), JSON loading
  (serde), DNS resolution, sockets (socket2), the notification script,
  worker threads and logging (tracing). It converts between std's socket
  addresses and the library's `Endpoint`.
- `tests/` exercise the library on concrete values.
