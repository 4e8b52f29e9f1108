//! Placement of wireless mesh routers by the firefly algorithm.
//!
//! A fixed number of routers is placed in a bounded area so that they form
//! one large connected component and cover as many clients as possible. The
//! search keeps a population of routers, draws every router toward every
//! other with an attractiveness that decays with distance, adds a random
//! step, and remembers the best placement it has seen.
//!
//! All quantities are fixed-point integers: 1.0 is [`units::UNIT`]. The
//! exponential decay is the one thing the library cannot compute in
//! integers; the caller passes it as a function.

pub mod config;
pub mod connectivity;
pub mod coverage;
pub mod firefly;
pub mod fitness;
pub mod geometry;
pub mod optimizer;
pub mod random;
pub mod units;

pub use crate::optimizer::firefly_algorithm;
