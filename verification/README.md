# io_reactor

The I/O reactor of a WebSocket client for an exchange, as a verified library.

The reactor is the single writer of two connections (public and authenticated),
of the subscriptions on them and of the sockets under them. The library holds
its decisions; everything that waits, sends or stores is asked for through
`host::Link`, which keeps the sequence of requests and answers. A contract
states that sequence for every possible answer, and the public proof functions
state what follows from it for the reactor as a whole.

- `src/reactor.rs`: one turn of the reactor, `Reactor::step`, and its parts
- `src/frame_routing.rs`, `request_response.rs`, `sub_ack.rs`, `route.rs`,
  `gaps.rs`: incoming frames
- `src/inbound_dispatch.rs`: what callers post
- `src/subscribe_send.rs`, `socket_lifecycle.rs`, `send_ready.rs`, `frames.rs`:
  subscribing, sockets, the send-ready flag, the frames on the wire
- `src/classify.rs`, `throttle.rs`, `timer.rs`, `latency_histogram.rs`: error
  texts, throttles, timers, latencies
- `src/host.rs`, `notes.rs`, `types.rs`, `json.rs`, `text.rs`: the link, the lines in
  the log of the program, the vocabulary, JSON values and strings
- `app/`: the tokio task around the library
- `tests/`: its tests
