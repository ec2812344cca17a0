//! Encrypted file headers and durable job state.
//!
//! `types` holds the fixed-width byte wrappers, `primitives` the calls into
//! the cipher, hashing and randomness crates, `crypto` the algorithm-agile
//! encryptor and decryptor, `header` the version 1 file header with its
//! keyslots and objects, `wire` counted byte strings, `format` the header's
//! byte layout, `job` the durable state of a job with the decisions of its
//! worker, `report` the persisted report of a job, and `manager` the
//! dispatch, queueing and restoring of jobs.
pub mod types;
pub mod primitives;
pub mod crypto;
pub mod header;
pub mod wire;
pub mod format;
pub mod job;
pub mod report;
pub mod manager;
