//! Form–model binding and recalculation engine.
//!
//! The engine keeps a set of independently edited text fields synchronized
//! with a single shared model: scalar parameters, keyed collection counts
//! (optionally sub-keyed by a direction), and the bookkeeping needed for
//! atomic load and save of the whole model.  The domain computation and the
//! persistence file format are owned by an external collaborator; the engine
//! exports the model for it and records which model snapshot the displayed
//! outputs derive from.

pub mod engine;
pub mod laws;
pub mod model;
pub mod text;
