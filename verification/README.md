# eddy

Nodes for the Maelstrom distributed-systems workloads (echo, unique ids,
broadcast, grow-only counter), written in Verus.

- `src/` is the verified library: the message types and the reply/handshake
  logic (`message`), the `Node` trait (`node`), and one state machine per
  workload (`echo`, `unique_ids`, `broadcast`, `gcounter`). Each node's `step`
  takes one event and returns the messages to send; its contract states the
  next state and the messages exactly, and the laws of each workload (fresh
  message ids, unique identifiers, values kept and read back, gossip that
  stops once acknowledged, adds that raise the counter and write it to the
  service, `add_ok` for a queued add only once the service confirms its
  compare-and-set) are proof functions beside it.
- `app/` is the program around it: JSON on stdin and stdout through serde,
  the threads that inject gossip and counter events, and the choice of
  workload by the first argument.
- `tests/` runs the library on concrete message sequences.
