//! A minimal confidential contract: an isolated state machine that stores one
//! base64 payload per authenticated account (the command path) and serves the
//! decoded payload back to its owner alone (the query path).

pub mod account;
pub mod codec;
pub mod host;
pub mod laws;
pub mod secretb64code;
