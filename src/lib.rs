//! Core of a multi-client SSH relay: the registry of open channels that every
//! connection shares, and the per-connection handler that answers protocol
//! events and decides where relayed bytes go.
pub mod laws;
pub mod registry;
pub mod session;
