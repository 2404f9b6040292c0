//! Core of a recency-weighted score tracker.
//!
//! Scores are grouped under categories and items; each item carries a decay
//! rate that weights recent scores more heavily than old ones.  The crate
//! provides the hierarchical store with its uniqueness and atomicity
//! guarantees, the fixed-point decay-weight statistics, the plot-range
//! calculation, and the bar-layout / click-resolution geometry.  Rendering
//! and persistence live outside this crate and talk to it in plain values.

pub mod chart;
pub mod clock;
pub mod comma;
pub mod digits;
pub mod error;
pub mod order;
pub mod plot;
pub mod rate;
pub mod snapshot;
pub mod stats;
pub mod store;
pub mod text;
pub mod ui_state;
