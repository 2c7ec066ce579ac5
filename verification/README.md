# gaming_tunnel

Verified core of a gaming-oriented UDP tunnel (TUN device <-> UDP), written
in Verus.

`src/` is the verified library:

- `config` — command-line option types and the `data:parity` FEC ratio
  parser, with a proof that a written ratio parses back to itself.
- `crypto` — XOR keystream obfuscation, with a proof that applying it twice
  is the identity.
- `buffer` — the contract the encoders rely on for `bytes::BytesMut`.
- `protocol` — outer and inner packet headers, with read-back-what-was-written
  proofs in both directions.
- `fec` — FEC blocks over the `reed-solomon-erasure` codec: padding, parity
  and recovery, with the codec's checks stated exactly.
- `jitter` — the reorder buffer and its release rule, with a proof that every
  pop leaves the buffer settled and loses or duplicates nothing.
- `pipeline` — the per-frame transmit step, datagram framing, datagram
  opening and per-frame receive step, with a proof that a receiver configured
  like the sender reads back each header and shard.
- `session` — session settings.

`app/` holds the program: option parsing with `clap`, the TUN device, the UDP
socket, the floating-point pacer and the async loops that feed the library.
