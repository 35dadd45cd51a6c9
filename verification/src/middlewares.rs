//! Ready-made middleware constructors.

pub mod cors;
