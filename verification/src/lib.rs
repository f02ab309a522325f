//! Data loading: samplers that say in which order and in which batches a
//! dataset is visited, a loader that fetches and collates the batches of an
//! in-memory dataset, and the decisions behind a loader that reads whole files
//! from a Curvine cluster.
pub mod batching;
pub mod collate;
pub mod curvine;
pub mod dataset;
pub mod epoch;
pub mod error;
pub mod loader;
pub mod model;
pub mod sampler;
