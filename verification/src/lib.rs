//! Core logic of a strength-training workout guide.
//!
//! The library models a small finite-state machine that cycles through a
//! configurable list of exercises (Building -> Exercising -> Resting -> ...),
//! a wall-clock-driven rest countdown, the text-field editing rules of the
//! exercise table, and the JSON format in which the exercise list is
//! persisted.  Every function is verified: transitions preserve the state
//! invariant, the countdown is an exact projection of its inputs, field
//! parsing never panics, and the JSON encoder and decoder are proved to
//! round-trip.

pub mod digits;
pub mod codec;
pub mod countdown;
pub mod exercise;
pub mod workout;
