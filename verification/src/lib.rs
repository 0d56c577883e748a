//! Aggregation and ranking of a timed motorsport event.
//!
//! The event arrives as a typed document (races holding sessions holding
//! lane occupations). The library folds the per-slot samples into per-pilot
//! summaries, reconciles them against the official standings override,
//! resolves the event-wide best lap with tie handling, computes per-slot
//! bests, and assembles a display-ready ranking with chart data and
//! highlight lines. The shell around it parses the raw document, renders
//! templates and uploads artifacts; everything here is pure computation.

pub mod model;
pub mod ingest;
pub mod text;
pub mod aggregate;
pub mod ranking;
pub mod sort;
pub mod slot_best;
pub mod report;
pub mod laws;
