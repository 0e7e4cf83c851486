//! A TCP echo service core: connection registry, worker supervision, and a
//! shutdown coordinator that drains workers race-free, together with the
//! fixed-prefix echo framing that each worker speaks on the wire.
//!
//! The networking itself (sockets, signals, threads, processes, tasks) lives
//! outside this crate; this library holds the decisions: which bytes a worker
//! answers, which connections a shutdown broadcast must close, which workers
//! remain to be drained, and when the accept loop may stop.

pub mod coordinator;
pub mod echo;
pub mod registry;
pub mod supervisor;
pub mod tag;
pub mod trace;

pub use echo::BUFFER_SIZE;
pub use echo::MAX_MSG_LEN;
