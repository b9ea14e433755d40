//! Transactional key-value storage core: multi-version concurrency control
//! with snapshot isolation, a latch-based write scheduler with backpressure,
//! and an in-memory watermark of observed read timestamps.
//!
//! The crate is organised leaf-first: `codec` holds the memcomparable key
//! encoding, `tso` the timestamp arithmetic, `kv` the data model shared by
//! every layer, `engine` the column-family store model that commands write
//! through, `mvcc` the per-key visibility and transaction rules, `latches`,
//! `concurrency` and `scheduler` the write coordination, and `storage` the
//! public facade.

pub mod cm;
pub mod codec;
pub mod commands;
pub mod engine;
pub mod errors;
pub mod kv;
pub mod latches;
pub mod laws;
pub mod lock_manager;
pub mod mvcc;
pub mod pd;
pub mod scheduler;
pub mod split;
pub mod storage;
pub mod store;
pub mod tso;
pub mod txn;
pub mod types;
