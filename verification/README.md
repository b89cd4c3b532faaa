# omer — a verified order matching engine

Limit and market order matching on a price–time book, written in Verus: the library's
functions carry `requires`/`ensures` contracts that Verus proves (the collecting test
sink's buffer, shared through interior mutability, is the one part left unspecified).

## Layout

| Path | What it holds |
|------|---------------|
| `src/types.rs` | `Order`, `Trade`, sides, order types, time in force |
| `src/engine/` | `OrderMatchingService`, `OrderMatchingEngine`, the commands, the typestate builder |
| `src/book/` | the `PriceBook` trait, shared level and queue models, and four books (`BTreeOrderBook`, `PoolLevelOrderBook`, `DashSkipOrderBook`, and the harness `InMemoryPriceBook`) |
| `src/store/` | the `OrderStore` trait and its hash-map and dense stores |
| `src/matching.rs`, `src/self_trade.rs`, `src/sequence.rs` | policies and sequence generation |
| `src/events/` | events, sinks, and the byte codec behind the channel sink |
| `src/itch/` | ITCH 5.0 wire reads, message parsing, frame buffer, decoding into commands |
| `src/distributed_wire.rs` | the gateway's text line protocol: parse and encode, with a round-trip law |
| `src/gateway.rs`, `src/workload.rs` | routing decisions and the load generator's frames |
| `src/harness/` | policies, in-memory book and store, and a collecting sink for tests |
| `app/` | what the library leaves to plain Rust: the load-test server and client, stream input from `std::io::Read`, parallel reads, the binary frame encoding, error types with `Display` |
| `tests/` | scenarios run against the compiled library |

## Main guarantees

* Every command keeps the engine well formed: the book is consistent and holds exactly
  the stored orders that carry a price.
* An incoming order (limit or market) trades only against the opposite side, best price
  first, at each resting order's own price; each trade takes the smaller of what the
  incoming order has left and the resting order's leaves; traded quantity plus what is
  left equals what came in, and orders it did not trade against are left untouched.
* Price–time priority: on the FIFO books (BTree, pool-level, dash-skip) a matching
  pass takes orders off each opposite level only from its head, and a resting order
  taken out and put back (partly filled, refused, or a self trade) goes back to the
  head of its level; the in-memory harness book orders each level by time priority.
* Each trade's sequence number is a draw of the engine's sequence generator, in
  trade order.
* With a sink that never fails, a refused command is answered with its rejection, and
  each collaborator error (store, sequencer, policies) is one that collaborator gave.
* With the price-cross policy no command leaves the book crossed: a bid never rests at
  or above an ask.
* A cancel after an add that rested without trading restores the store and the book.
* Parsing an encoded wire frame gives the frame back.
* An ITCH feed hands the engine exactly the commands its book frames decode to, in
  order, and stops at the first frame that fails to parse or the first command the
  engine refuses.
