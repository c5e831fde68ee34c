//! A harness library for watching a machine's network and memory path: it
//! parses a minimal HTTP/1.1 response incrementally, streams the body in
//! chunks through a detector for corrupted data, accumulates the chunks and
//! fingerprints the whole transfer.
//!
//! The library holds the rules; sockets, threads and process set-up belong to
//! the program that drives it.
//!
//! - [`buffer`]: the receive buffer, with valid bytes and spare room apart.
//! - [`header`]: the scanner that finds the header lines and the declared
//!   length.
//! - [`transfer`]: the transfer loop as a state machine, and [`cycle`]: what
//!   one whole cycle of it hands over.
//! - [`channel`]: the ordered hand-off of chunks to the consuming side.
//! - [`consume`]: the consuming side, which uses [`detect`] to check each
//!   chunk, [`accumulate`] to keep the chunks, and [`digest`] to fingerprint
//!   them.
//! - [`request`]: the request that starts a transfer.
//! - [`spin`]: what a background spinner does with the counter.
//! - [`storage`] and [`search`]: what is taken from `bytes` and `memchr`.

pub mod accumulate;
pub mod buffer;
pub mod channel;
pub mod chunks;
pub mod consume;
pub mod cycle;
pub mod detect;
pub mod digest;
pub mod header;
pub mod request;
pub mod search;
pub mod spin;
pub mod storage;
pub mod transfer;
