//! The CapTP messages this library reads and writes, and the decisions of a
//! session.

pub mod msg;
pub mod object;
pub mod session;
