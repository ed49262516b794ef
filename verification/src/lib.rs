//! Incremental collection engine for dynamically loading, infinite-scroll
//! listings.
//!
//! The engine drives repeated extract / trigger-load / wait cycles against a
//! rendered page, normalizes and deduplicates the entry identifiers that
//! stream in from partial page loads, and decides when to stop: when a
//! caller-supplied target size is reached, when the caller cancels, when a
//! configured number of consecutive rounds yields nothing new (stagnation),
//! or when the rendering surface fails.
//!
//! The browser, database and environment glue around the engine lives
//! outside this crate; the engine itself works on plain byte strings and is
//! verified.

pub mod accum;
pub mod engine;
pub mod extract;
pub mod ident;
pub mod laws;
