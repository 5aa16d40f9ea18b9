//! Verified core of a peer-to-peer remote desktop: stream protocol,
//! chunking and reassembly of large messages, the signalling server's
//! routing rules and the peer bookkeeping around it.

pub mod chunk;
pub mod signal;
pub mod media;
pub mod protocol;
pub mod rtc;
pub mod connection;
pub mod error;
pub mod peer;
pub mod remote_peer;
pub mod remote_ui;
pub mod ui;
pub mod stream;
