//! A kernel fingerprinting and integrity-publication library.
//!
//! The heart of the crate is a deterministic, order-independent digest over
//! the contents of a directory tree (the *fingerprint*), together with the
//! pure decision logic of the pipeline that persists the fingerprint with
//! restrictive permissions, encrypts it, publishes the ciphertext to a
//! content-addressable store, and appends a tamper-evident audit record.
//! All filesystem and subprocess work is performed by callers; this crate
//! holds the verified computations and decisions they drive.

pub mod artifact;
pub mod audit;
pub mod digest;
pub mod fingerprint;
pub mod gate;
pub mod integrity;
pub mod pipeline;
pub mod publish;
pub mod schema;
