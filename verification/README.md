# rustrtc

Fax over IP (T.38) and DTLS 1.2, as a library whose behaviour is stated in
contracts and proved by Verus.

- `src/t38`: the T.30 session, IFP packets, and the decisions of a fax endpoint.
- `src/transports/dtls`: records, handshake messages, their reassembly and their
  order, cipher suite negotiation, certificates and their fingerprints, the signed
  key exchange, a server's flight, application data, and the states of a transport.
- `app`: sockets, timers and tasks around the library, in ordinary Rust.

Each module states what its functions return in terms of a view of its types.
Properties that span several functions are public proof functions, beside the
functions they speak of or in a module whose name ends in `_laws`. What is taken
from the `bytes`, `p256` and `sha2` crates without proof is declared in
`transports/dtls/buffer.rs`, `fingerprint.rs`, `hello.rs` and `key_exchange.rs`.
