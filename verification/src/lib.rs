//! Persistence-and-integrity core of a question/answer board.
//!
//! Users register and log in, post questions tagged with topics, answer
//! them, vote answers and questions up or down, and mark an answer as the
//! accepted solution.  This crate is the storage layer that mediates all
//! of that: it enforces username uniqueness, referential integrity of
//! answers and tag assignments, atomicity of the multi-row question
//! write, and the ordering and de-duplication rules of the aggregation
//! queries.  Password hashing is delegated to bcrypt; everything else is
//! verified.

pub mod errors;
pub mod hashing;
pub mod models;
pub mod laws;
pub mod store;
pub mod store_model;
