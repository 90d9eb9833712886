//! Analytical core for a post-flop poker strategy tool.
//!
//! The crate holds the session state machines and the pure logic of the
//! backend: per-player hand-range grids, the canonical betting-action tree
//! with its line-encoding protocol, the phased bunching precomputation
//! controller, and the fixed-point statistics policy used when reporting
//! results of a solved game.  Everything here is verified; the surrounding
//! process (HTTP transport, thread pools, the numeric solve engine) lives
//! outside the library and talks to it through plain values.

pub mod action;
pub mod line;
pub mod navigator;
pub mod game;
pub mod session;
pub mod bunching;
pub mod range;
pub mod range_text;
pub mod stats;
pub mod tree;
