//! Tolerant normalisation of loosely typed automobile records, and their
//! ordering by model year, horsepower and case-folded name.
pub mod json;
pub mod double;
pub mod digits;
pub mod date;
pub mod default_values;
pub mod coerce;
pub mod car;
pub mod order;
pub mod batch;
