//! Passive network monitoring: application-layer protocol classification,
//! TLS client fingerprints, and the bookkeeping behind the collectors.

pub mod collectors;
pub mod dpi;
pub mod ebpf;
pub mod number;
pub mod scan;
pub mod text;
