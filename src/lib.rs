//! Deserialization of a field whose stored form changed over time: an ordered
//! registry of versions, tried current first, the first conversion that
//! succeeds being the result.
pub mod resolve;
pub mod tag;
pub mod versions;
