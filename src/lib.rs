//! Ingestion of the rollup inbox: decoding of the message envelope and the
//! loop that hands each well-formed message on, with their contracts.

pub mod envelope;
pub mod driver;
