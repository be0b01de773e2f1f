//! Core of a relational-pipeline compiler backend: chops a linear pipeline of
//! transforms into the minimum number of maximal sub-pipelines, each of which
//! fits into a single SELECT query, while preserving reference semantics
//! across the cuts.

pub mod collector;
pub mod anchor;
pub mod context;
pub mod laws;
pub mod requirements;
pub mod rq;
