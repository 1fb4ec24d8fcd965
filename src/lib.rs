//! Routing and stream translation core of a model-aware chat-completion gateway.
//!
//! - `registry`: the immutable model-to-backend mapping and exact-match lookup.
//! - `dispatch`: the request model, the forwarded request and URL, and how a
//!   backend's status is classified.
//! - `translate`: one chunk of the backend's byte stream into output events.
//! - `error`: the error taxonomy and the status and body that report each error.

pub mod dispatch;
pub mod error;
pub mod registry;
pub mod translate;
