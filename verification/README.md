# rustmq

An MQTT 3.1.1 / 5.0 broker, client and codec whose protocol logic is
written in Verus and proved against its contracts.

- `src/` — the verified library:
  - `wire`, `properties`, `codec/` — the byte-level codec: fixed header,
    variable byte integers, strings, MQTT 5.0 properties and every control
    packet, with round-trip laws (`codec::frame::lemma_frame_roundtrip`).
  - `packet/` — the packet types and their reason codes.
  - `topic` — topic and filter validation and wildcard matching.
  - `broker/` — configuration, authentication, topic aliases, the
    subscription trie, sessions, retained messages, the per-connection
    decisions (`connection`) and the broker's state machine (`engine`).
  - `client` — the client's decisions: the packets it sends and what it
    does with the broker's packets.
- `app/` — the program around it: TCP listener, connection and broker tasks,
  the asynchronous client and the command line (`broker`, `pub`, `sub`).
- `tests/` — tests of the library on concrete values.
