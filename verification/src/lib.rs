//! Streaming key-value renderers for structured log records.
//!
//! A traversal produces a stream of visitor events (scalars and
//! map/array open/close brackets); the renderers in [`kvdisp`] and
//! [`kvjson`] turn such a stream into escaped single-line text or
//! compact JSON, tracking separator state, emptiness and sink
//! failure as they go.

pub mod event;
pub mod kvdisp;
pub mod kvjson;
pub mod numtext;
pub mod sink;
pub mod visit;

pub use event::EventV;
pub use visit::LogVisitor;
pub use visit::Visitable;
