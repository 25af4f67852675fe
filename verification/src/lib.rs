//! Session layer of a peer-to-peer node: the wire protocol codec and the
//! handshake state machine that bring a remote transport worker from an
//! undefined state to readiness, with a single readiness announcement.

pub mod config;
pub mod dht;
pub mod json;
pub mod protocol;
pub mod protocol_wrapper;
pub mod words;
pub mod worker;
