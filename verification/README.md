# gossip_glomers

Nodes for the Maelstrom distributed-systems workbench, verified with Verus.

- `src/message.rs`: messages, the init handshake, line framing, replies, and the
  `Node` trait (a node is a state machine: an event in, the messages to send out).
- `src/echo.rs`, `src/unique_id.rs`, `src/broadcast.rs`, `src/g_counter.rs`: the
  four nodes, each with its abstract state, a spec of its step, and the laws it keeps.
- `src/decimal.rs`: decimal notation of counters, proved injective.
- `app/`: the executable around the library: JSON (serde) forms of the messages,
  stdin/stdout, the threads and the gossip timer. The first argument picks the
  node: `echo`, `unique-id`, `broadcast` or `g-counter`.
