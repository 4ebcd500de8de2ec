//! A capability-resolution and delegation engine.
//!
//! A *context* is a concrete aggregate of named data attributes that acquires
//! named behavioral *capabilities* by wiring each capability identifier to a
//! reusable, context-generic *provider* through a per-context *delegation
//! table*.  Trivial accessor capabilities can be synthesized directly from a
//! context's own attributes by exact name match.  Before any capability is
//! invoked, a resolution check walks the transitive requirement graph of every
//! bound provider and either certifies the context as capability-complete or
//! reports the exact failing capability together with the chain of
//! requirements that led to it.

pub mod model;
pub mod slots;
pub mod synthesis;
pub mod registry;
pub mod context;
pub mod resolution;
pub mod laws;
pub mod invoke;
pub mod resolve;
