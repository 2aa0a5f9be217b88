//! The detectors.

pub mod anomaly;
pub mod cardinality;
pub mod cep;
pub mod hashing;
pub mod signature;
pub mod sketch;
