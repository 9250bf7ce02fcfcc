//! Domain diagnostics library.
//!
//! Given the raw outcomes of a handful of independent network probes
//! (an HTTP status with response headers, a TLS certificate expiry check,
//! a DNS resolution), this library decodes vendor diagnostic headers,
//! merges the probe outcomes into one fixed-shape report per domain, and
//! aggregates per-domain reports into a single mapping.  All of the logic
//! here is pure and verified; the network calls themselves live outside.

pub mod batch;
pub mod builder;
pub mod decode;
pub mod report;
pub mod response;
pub mod strutil;
pub mod url;
