//! Message bus broker core: client registry, pattern-indexed routing,
//! the binary wire codec and the per-connection protocol decisions.
pub mod proto;
pub mod order;
pub mod pattern;
pub mod codec;
pub mod matcher;
pub mod broker;
pub mod peer;
pub mod client;
pub mod laws;
