//! A request router: route templates with named and wildcard captures,
//! per-route method policies, and sub-routers mounted under path prefixes.
//!
//! The router decides; it does not call. [`Router::dispatch`] says which
//! handler a request is for and with which bindings, or which error response
//! is due, and leaves the call to its caller.

pub mod error;
pub mod laws;
pub mod params;
pub mod path;
pub mod pattern;
pub mod router;
pub mod table;
pub mod uri;

pub use crate::error::RouterError;
pub use crate::pattern::{PatternError, RoutePattern, Segment};
pub use crate::router::{Outcome, Router, Step};
pub use crate::table::{Match, MethodPolicy, RouteEntry, RouteTable};
pub use route_recognizer::Params;
