# hypernovae

Building blocks for custom Minecraft: Java Edition servers, verified with Verus.

## Layout

- `src/` — the verified library.
  - `net/data` — the wire encodings: VarInt and VarLong, booleans, big-endian
    numbers, length-prefixed strings, arrays, optional values and frames, each
    with a mathematical meaning (`spec_parse_*`) and round-trip laws.
  - `net/packet` — serverbound packets (read per protocol state) and
    clientbound packets (written), and `stream`, the decoder that splits the
    received bytes into packets and follows the protocol state.
  - `net/proto` — the decisions of the handshake, login, configuration, ping
    and status steps, as functions from what was read to what to send and
    report.
  - `data`, `game`, `config`, `error` — identifiers, datapacks, player
    settings and profiles, block positions, the server configuration and the
    error types.
- `tests/` — tests of the library on concrete values.
- `app/` — the asynchronous connection and listener (tokio), file reading
  (TOML configuration, datapack directories) and the serde forms of the text
  components; it drives the library and performs the I/O.
