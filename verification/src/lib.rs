//! Hyperdimensional computing engine with Monte Carlo validation, and the
//! document ingestion and connector logic around it.

pub mod connectors;
pub mod engine;
pub mod formats;
pub mod hdc;
pub mod ingest;
pub mod montecarlo;
pub mod rank;
pub mod rng;
pub mod text;
