# tiny_runtime

A single-threaded task runtime and three small HTTP servers, with the decisions of both in a
library that Verus verifies.

- `src/scheduler.rs`: the run queue, and the wakers that put a task back on it.
- `src/future.rs`: futures, and `chain`, `select` and `poll_fn` to make more of them; that
  chaining is associative is in `src/chain_laws.rs`.
- `src/reactor.rs`: which task to wake when a file descriptor is ready.
- `src/counter.rs`, `src/blocking.rs`: what a task can wait for besides descriptors.
- `src/http.rs`: where a request ends, and the response.
- `src/exchange.rs`: one connection, from the first read to the flush; what holds of it from
  beginning to end is in `src/exchange_laws.rs`.
- `src/pool.rs`: the connections of the server that has no scheduler.
- `src/listener.rs`: accepting connections, and shutting down gracefully.
- `app/`: sockets, epoll, threads and signals around the library.
