//! Client library for a small publish/subscribe overlay: a binary wire codec,
//! a local subscription session, and the reconnect/resync state machine that
//! keeps the session consistent with the remote peer.
pub mod bytes;
pub mod protocol;
pub mod session;
pub mod client;
