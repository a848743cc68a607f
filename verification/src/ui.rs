//! State for the exploratory dashboard view of the sampled metrics.

pub mod state;
