# angelfish

Wire formats of the angelfish server core.

- `src/packet.rs`: the outer frame of Bedrock ("RakNet") packets — unconnected
  ping and pong, the offline connection handshake, the online connection
  request — written into a `bytes::BytesMut` and read from a cursor over
  `bytes::Bytes`. Every kind but the online connection request has a reader;
  a pong reads back as written when neither of its strings holds a `;` and
  its text fits a 16-bit length.
- `src/mapper.rs`, `src/msg.rs`: the SPP message frame and the mapper that
  gives string identifiers short ids.
- `src/bufs.rs`: the `bytes` buffers as the library sees them.
- `src/text.rs`, `src/wire.rs`: decimal integers, splitting, UTF-8, and
  big-endian integers.
- `app/`: conversions to `std::net` addresses and printable errors.
