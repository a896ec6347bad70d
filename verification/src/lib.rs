//! A quorum-based, monotonically increasing identifier allocation protocol.
//!
//! A fixed population of acceptors (servers) and competing proposers
//! (clients) exchange messages over a simulated network that reorders and
//! may drop them. An acceptor accepts a proposed identifier exactly when it
//! is strictly greater than the highest identifier it has accepted so far.
//! A proposer broadcasts one proposal per round, tagged with a fresh
//! correlation token, and commits the identifier once a strict majority of
//! acceptors has accepted it; a majority of rejections makes it adopt the
//! highest reported ceiling and retry at once.

pub mod client;
mod entropy;
pub mod message;
pub mod network;
pub mod server;
