# open_authenticator

Building blocks for a CTAP2 security-key authenticator, written in Verus:
every function of the library carries a contract and is proved against it.

Layout:

- `src/status.rs`, `src/algorithm.rs`: CTAP status codes and COSE algorithm
  identifiers, with their byte and identifier round trips.
- `src/transport.rs`: the frame transport interface and a bounded in-memory
  FIFO transport, modelled as a sequence of frames.
- `src/info.rs`, `src/types.rs`, `src/env.rs`: the data the protocol carries
  and the interfaces of the device (randomness, user presence, storage,
  cryptography).
- `src/cbor/`: canonical CBOR: an encoder, a strict decoder specified by
  `parse_*` functions on byte sequences, and the laws relating the two.
- `src/ctap2/`: the CTAP2 dispatcher. `request.rs` specifies how request maps
  are read, `response.rs` what the responses hold, `model.rs` the state
  machine over an abstract state (`spec_dispatch`), `mod.rs` the executable
  dispatcher proved to follow it, `payload.rs` the payloads a client builds,
  and `laws.rs` the properties that hold over every request.
- `tests/`: executable tests, run against the compiled library.
- `app/`: a command-line simulator that drives the dispatcher.

Trusted code is limited to four small wrappers (SHA-256 from `sha2`,
`String::from_utf8`, and the two `zeroize` calls) and to the contracts of
the `SecureEnvironment` trait, which each backend implements: its `random`
and `user_presence` are assumed to meet the outcome predicates that the
backend declares (by default, any outcome). The dispatcher states which
calls it makes to the environment, on which buffers, and that it uses
exactly what they gave back.
