//! Looks up Autonomous System (AS) routing metadata for a domain name.
//!
//! The pipeline has two steps: resolve the domain to a single IP address,
//! then query a WHOIS-over-TCP service for free-text ASN metadata about
//! that address. This crate holds the verified core of both steps: the
//! address model and its textual form, the WHOIS query line, the shaping
//! of the raw WHOIS reply (dropping its header line), the per-call
//! protocol state machine, and the exact text of every user-facing
//! message. The network I/O itself lives outside the library and hands
//! plain values in and out.

pub mod ip;
pub mod report;
pub mod resolve;
pub mod shape;
pub mod whois;

pub use ip::IpAddress;
