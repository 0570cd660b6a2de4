# oicq4r

A library for the QQ mobile protocol, written in Verus: every packet the client builds and
every reply it reads goes through functions whose contracts Verus proves.

## Layout

- `src/protocol/` — the protocol itself.
  - `writer`, `text`: big-endian writers, hex and decimal text.
  - `tea`: the 16-round TEA cipher in CBC-like mode used by the protocol; decryption undoes
    encryption (`lemma_decrypt_encrypt`).
  - `jce`: the JCE (Tars) format and the request wrapper around it; decoding gives back what
    encoding wrote (`lemma_decode_encode`, `lemma_decode_wrapper_of_encode`).
  - `protobuf` (with `decode` and `encode`): the protobuf wire format as the client uses it;
    decoding gives back what encoding wrote (`lemma_decode_encode`).
  - `tlv`: the TLV fields of the login protocol and their reader (`lemma_read_written_fields`).
  - `device`, `ecdh`, `helper`: device identity, key material, clock and digests.
  - `base_client`, `login`, `session`, `network`: the session state, the login requests and
    replies, heartbeats, token refresh, server lists, SSO frames and packets.
  - `error`: the errors and their texts.
- `src/message/`: message elements (faces, images, files, ...) and image file names.
- `src/internal/highway`: the highway upload protocol, as a state machine.
- `src/event_1.rs`: a small event emitter with one-shot listeners.
- `app/`: the client around the library (tokio, hyper, logging) and a receiving end for
  highway uploads; it does the I/O and hands plain values to the library.
- `tests/`: tests of the library, some of them against the `protobuf` crate.

## Outside crates

`md5`, `rand`, `base64`, `flate2` and `image` are called from the library behind small
trusted functions, each with a doc comment that says what its contract claims. `tokio`,
`hyper`, `hyper-tls`, `reqwest`, `log`, `fern` and `chrono` are used by `app/` only.
