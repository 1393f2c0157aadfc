# Fengni

An encrypted communication protocol: a mutually authenticated key exchange on
X25519, and a data channel with ChaCha20-Poly1305, replay protection and
rekeying. The library is written in Rust and verified with Verus.

- `src/` is the library. Its functions carry contracts that Verus proves, down to
  the calls into the cryptographic crates, which stand together in
  `src/primitives.rs` with the facts that are taken from those crates.
  `src/handshake/model.rs` says what the handshake does as a function of state,
  message and time; `src/laws.rs` and the last part of `src/wire.rs` hold what is
  proved of the protocol as a whole.
- `tests/` runs the library on concrete values, among them whole handshakes with
  fixed keys, and compares the wire format with the `prost` crate.
- `app/` is ordinary Rust around the library: error types with texts, and a
  transport for threads.

## Handshake

```text
Initiator                                 Responder
    |  Hello {ephemeral_pub, timestamp}       |
    | --------------------------------------> |
    |  HelloReply {ephemeral_pub, token}      |
    | <-------------------------------------- |
    |  Authenticate {identity, proof}         |
    | --------------------------------------> |
    |  ServerFinish {confirmation}            |
    | <-------------------------------------- |
```

The session keys come from four X25519 agreements (ephemeral-ephemeral,
ephemeral-static, static-ephemeral, static-static), sorted, joined and expanded
with HKDF-SHA256. One peer's send key is the other's receive key.

Each peer proves possession of its static key: the initiator with a MAC whose key
takes the agreement of its static key and the responder's ephemeral key, the
responder with a confirmation under keys that take all four agreements.
