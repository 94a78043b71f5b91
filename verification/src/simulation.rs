//! Index bookkeeping of the rope simulation.

pub mod rope;
