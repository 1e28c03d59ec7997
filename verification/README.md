# paragon_proto

A binary protocol for structured data, verified with Verus.

A *frame* carries up to 16 *packages*, a class, a dotted destination
(`node.service`) and the encryption scheme in use. A package carries a
version, a MIME type, a payload and a signature. A *pre-structured package*
(MIME type `application/vnd.paragon.ppsp`) is a payload made of typed,
named and described fields; a frame either carries only such packages, all
with the same structure, or none.

## Layout

- `src/types.rs`: the records, their limits, the wire codes, and the views
  that the contracts speak of.
- `src/bounded.rs`: the fixed-capacity vectors of `heapless` the records
  are made of, with the contracts of the few operations used (trusted).
- `src/wire.rs`: the wire format as specification: encodings, and what
  reading a byte string does to a record, failures included.
- `src/validation.rs`: which destinations are valid.
- `src/serialization.rs`: headers, packages, pre-structured packages and
  frames, read and written against `wire.rs`.
- `src/roundtrip.rs`: proofs that every encoding reads back as what was
  encoded, that accepted frames are valid, and the lemmas the codecs use.
- `src/crypto.rs`: X25519 key agreement and ChaCha20-Poly1305 through
  `x25519-dalek` and `chacha20poly1305` (trusted), with verified buffer
  handling around them.
- `app/lib.rs`: the C interface (raw pointers, the random-source callback)
  over the verified library.
- `tests/`: scenarios and exact byte layouts.
