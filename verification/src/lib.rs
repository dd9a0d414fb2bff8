//! A verified model of a fixed-size worker thread pool, together with the
//! line-search routines that its surrounding program exposes.
//!
//! The pool model captures the coordination logic of the pool: FIFO job
//! delivery, exactly-once execution, and orderly shutdown. The worker state
//! machine describes what one background worker decides at each step of its
//! loop; an unverified runtime drives real threads by that decision function.

pub mod grep;
pub mod pool;
