//! A small single-threaded task runtime and the HTTP servers that run on it.
pub mod blocking;
pub mod chain_laws;
pub mod counter;
pub mod exchange;
pub mod exchange_laws;
pub mod future;
pub mod http;
pub mod listener;
pub mod pool;
pub mod reactor;
pub mod scheduler;
