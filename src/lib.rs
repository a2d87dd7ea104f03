//! A rate limiter built on the Generic Cell Rate Algorithm (GCRA).
//!
//! A [`quota::Quota`] says how many cells may pass in a burst and how quickly the
//! burst capacity comes back. The [`gcra::Gcra`] engine turns a quota, the state of
//! one key (its theoretical arrival time) and the current time into a decision.
//! State stores keep that state, and [`state::RateLimiter`] ties an engine, a store
//! and a clock together.

pub mod nanos;
pub mod quota;
pub mod gcra;
pub mod clock;
pub mod state;
pub mod keyed;
