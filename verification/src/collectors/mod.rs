//! The bookkeeping behind the collectors: what they read from the system is
//! handed in as plain values, and what they decide comes back the same way.

pub mod traceroute;
pub mod traffic;
