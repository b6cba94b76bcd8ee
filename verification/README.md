# dexdey

The protocol layer of the dexdey Minecraft proxy, verified with Verus.

- `src/protocol/varint.rs`: VarInts (buffer and stream decoding, encoding,
  size), the packet reader and writer, and the laws that a read gives back
  what the writer wrote.
- `src/protocol/decode.rs`: the serverbound decoder and its connection-state
  machine, with its laws.
- `src/protocol/packets/`: handshake, login start and status packets.
- `src/protocol/frame.rs`: frame length checks and frame bytes.
- `src/protocol/forwarding.rs`: Velocity modern forwarding (signed player
  info, plugin request parsing and responses, offline and Mojang ids).
- `src/config.rs`: the choice of the forwarding secret.
- `src/plugin.rs`: JNI class names and handler signatures.
- `app/`: the program around the library: the JVM and plugin loading, async
  frames over sockets, the TCP proxy, HTTP lookups and file/environment reads.
- `tests/`: tests of the library.
