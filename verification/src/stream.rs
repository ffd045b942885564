//! The schema of a log and the reconstruction of its records.
pub mod builder;
pub mod data;
pub mod header;
pub mod interval;
pub mod predictor;
