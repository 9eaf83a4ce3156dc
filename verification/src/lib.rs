//! Signaling engine and tunnel-bootstrap state machine for a peer-to-peer
//! HTTP relay.
//!
//! The crate covers the logic of one tunnel attempt: the newline-delimited
//! control-message codec, the resolution of a channel name against a route
//! table, the negotiation state machine that drives SDP offer/answer and ICE
//! candidate exchange to an open data channel, the success test for the single
//! relayed HTTP transaction, and the watchdog rule that turns a stalled
//! negotiation into a distinguished timeout. Transport, sockets and clocks
//! stay outside: callers feed events in and perform the returned actions.

pub mod codec;
pub mod driver;
pub mod errors;
pub mod ops;
pub mod relay;
pub mod routes;
pub mod session;
