//! Inter-core messaging primitives and the host session wire protocol of a
//! real-time control firmware: a single-word mailbox, a chunked ring queue,
//! a fixed-slot FIFO, the exception record and its host encoding.

pub mod wire;
pub mod eh_artiq;
pub mod session_proto;
pub mod rpc_fifo;
pub mod mailbox;
pub mod rpc_queue;
pub mod analyzer_proto;
