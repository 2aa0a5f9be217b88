//! Threat engine: signature, anomaly and sequence detection over a stream of
//! network events, with the queues and the alert history between its stages.

pub mod api;
pub mod detection;
pub mod ingestion;
pub mod interleaving;
pub mod laws;
pub mod models;
pub mod pipeline;
pub mod queue;
pub mod text;
pub mod time;
