//! Coordination-layer core of a distributed content-extraction cluster.
//!
//! Stateless extraction workers ("executors") pull work items ("tasks") from
//! a shared transactional state machine and report results.  This crate holds
//! the verified core: the column-family state machine store and its
//! transactions, the canonical record encoding, the read facade that resolves
//! an executor's assigned tasks, content-addressed payload construction, the
//! attribute upsert rules, and the request/response decisions of the executor
//! server.  The HTTP transport and other I/O around it live outside.

pub mod strutil;
pub mod hashing;
pub mod errors;
pub mod records;
pub mod codec;
pub mod store;
pub mod reader;
pub mod persistence;
pub mod server;
