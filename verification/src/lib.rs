//! Verified core of a map-anchored virtual world client.
//!
//! The crate covers the subsystems whose correctness is non-obvious:
//! Web Mercator tile addressing (exact fixed-point grid math), the
//! process-wide tile cache with fetch deduplication, the tile fetch
//! decode step, and the deterministic grid layout of regions.
//! Transcendental latitude conversions and all I/O (HTTP, database,
//! rendering) live outside this library and hand it plain values.

pub mod projection;
pub mod tile;
pub mod fetch;
pub mod cache;
pub mod layout;
pub mod region;
