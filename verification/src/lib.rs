//! Distributed locks over ZooKeeper: the decisions of the lock recipe,
//! stated and proved, with the network round trips left to the caller.

pub mod errors;
pub mod children;
pub mod zoo_lock;
pub mod bench;
pub mod laws;

pub use errors::RcpError;
