//! Settings types of the toolkit's engine classes.

pub mod analytics;
pub mod line;
