//! Transaction-execution and value-decoding core of an in-process
//! smart-contract host simulation: a deterministic stand-in for a blockchain
//! virtual machine, with an in-memory ledger, per-call execution contexts,
//! and a specialization-aware storage decode protocol.
pub mod bigint;
pub mod bytes;
pub mod context;
pub mod exec_create;
pub mod storage;
pub mod world;
