# fifo-mempool

A first-in-first-out transaction pool for a BFT consensus engine, verified
with Verus.

- `src/tx.rs`: raw transactions and their hashes (a transaction is filed under
  its own bytes).
- `src/mempool.rs`: the pool state and what each request does to it: adding a
  transaction (with the application's check), acting on the application's
  answer, handing out the oldest transactions that fit a block's byte budget,
  and removing decided transactions. The laws that relate these operations are
  proof functions at the end of the file.
- `src/network.rs`: the gossip message that carries a transaction, and its
  protocol-buffer wire form (encoded and decoded by `prost`).
- `src/error.rs`: the pool's error type with its constructors and messages.
- `src/text.rs`: decimal and hexadecimal text for messages.
- `src/host/`: a test application whose transactions are 64-bit ids, and its
  errors.
- `app/`: the `ractor` actor that runs the pool and performs what the library
  decides (replies, gossip), the error types with their messages, and a test
  node.
