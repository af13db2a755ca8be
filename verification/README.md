# stayputnik

A client for the [kRPC](https://krpc.github.io/krpc/) mod for Kerbal Space
Program, written in Verus: what the client computes is stated in contracts and
proved.

- `src/wire.rs`, `src/message.rs`, `src/krpc/schema.rs`: the protobuf wire format
  and the messages of the protocol. Varints, keys, length-delimited fields and
  fields of 32 bits are read and written by `prost`; that a message reads back as
  it was written is proved.
- `src/codec.rs`, `src/round_trip.rs`: the encoding of procedure arguments and
  return values (`Encode`, `Decode`), and the proof that a value decodes as it was
  encoded.
- `src/client.rs`: frames, the two handshakes, requests and responses, the order in
  which calls are carried out and answered, and when a failure closes the
  connection.
- `src/stream.rs`: the registry of live streams and the handles to them.
- `src/expr.rs`, `src/program.rs`, `src/meaning.rs`: typed expression trees, the
  calls that construct one on the server, and the proof that what they construct
  is the tree.
- `src/services/`: handles to remote objects.
- `app/`: a small program around the library: sockets, tasks, channels.

Floating-point values are held by the bits of their IEEE 754 representation
(`Float`, `Double`), which is what goes over the wire.
