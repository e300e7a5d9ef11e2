//! The aggregation-and-serving core of a containment search service.
//!
//! A query sketch is compared against every index of a pool; each index answers with
//! the datasets it holds and the size of their intersection with the query. This crate
//! holds the rules applied to those answers and to the requests that carry them: which
//! answers count, how they are merged and ranked, how a dataset is labelled in the
//! report, when a request is admitted or shed, and which response a failure gets.
//!
//! Everything here works on plain values. Decoding sketches, querying indices and
//! serving HTTP are left to the program around the library.

pub mod dataset;
pub mod merge;
pub mod pool;
pub mod ranking;
pub mod failure;
pub mod report;
pub mod reply;
pub mod aggregator;
pub mod admission;
pub mod gateway;
pub mod settings;
