//! Hybrid private information retrieval: a client fetches one record of a
//! database that several servers hold, and no server learns which.
//!
//! Two retrieval schemes are composed. The database is folded into rows; a
//! multi-server scheme selects the row that holds the record, and on that
//! row a single-server scheme selects the record. This crate is the layer
//! between the two: the shape of the folded database ([`layout`]), the
//! messages and their frames ([`types`], [`wire`]), the bits of a query
//! ([`bits`]), the order of an exchange on the side of the client
//! ([`client`]) and of the server ([`server`]), and the envelope of the
//! measuring harness ([`benchmark`]). The schemes themselves, the sockets
//! and the threads are the caller's: the library says what is to be done
//! next and is told what came of it.

pub mod benchmark;
pub mod bits;
pub mod client;
pub mod layout;
pub mod server;
pub mod types;
pub mod wire;
