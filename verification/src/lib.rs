//! Elementwise kernels for `out[i] = (a[i] * b[i] / c[i]) ^ d[i]` over four
//! sequences of one length, in several execution strategies that keep one
//! contract: a single fused pass, routes that hand steps of the formula to bulk
//! routines of the platform, and data-parallel runs over elements and over chunks.
//!
//! The element type and its arithmetic are the caller's. The kernels own the order
//! of the work, the splitting of the output among tasks, and the proof that every
//! index of the output is written with what the caller's operations return there.

pub mod chunks;
pub mod contract;
pub mod laws;
pub mod parallel;
pub mod routed;
pub mod sequential;
