//! Shape validation, training targets and the forward/backward protocol of a
//! feed-forward network built as an ordered pipeline of steps.

pub mod step;
pub mod chain;
pub mod model;
