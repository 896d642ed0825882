//! Live-state engine for a virtual air-traffic network map.
//!
//! The crate ingests periodic snapshots of a simulation network (pilots and
//! controllers), keeps them in spatially indexed in-memory state, evaluates a
//! small filter-expression language over pilots, and computes per-client
//! viewport delta updates.  Geographic coordinates are held as integer
//! microdegrees throughout, so that all geometry is exact.

pub mod aircraft;
pub mod fixed;
pub mod lee;
pub mod manager;
pub mod moving;
pub mod persistent;
pub mod spatial;
pub mod strmap;
pub mod textnum;
pub mod util;
pub mod types;
pub mod weather;
pub mod web;
