//! Verified core of a soil-moisture ingestion and query service.
//!
//! The library holds the logic of the service: chunked decoding of the three
//! parallel source arrays into records, the keyed table with last-write-wins
//! upsert and exact-match range queries, the per-identity token-bucket
//! admission gate, and the request-handling decisions that tie them together.
//! The surrounding process (HTTP transport, the hierarchical source file, the
//! on-disk relational engine, the schedulers) supplies plain values to these
//! functions and carries their results back out.

pub mod date;
pub mod errors;
pub mod record;
pub mod decode;
pub mod store;
pub mod limiter;
pub mod handler;
