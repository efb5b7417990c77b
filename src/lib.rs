//! Verifiable local differential privacy: the randomized-response mechanism,
//! the statement its proof circuit enforces, and the client session that
//! drives the commit/sign handshake.

pub mod bignum;
pub mod bytes_le;
pub mod circuit;
pub mod client;
pub mod mechanism;
pub mod messages;
pub mod parameters;
pub mod randomness;
