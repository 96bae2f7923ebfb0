//! Configuration errors, reported while a router is set up.

use crate::pattern::PatternError;
use vstd::prelude::*;

verus! {

/// Why a registration was refused. The router is unchanged when one is
/// returned.
#[derive(Clone, Copy, Debug, PartialEq, Eq, Structural)]
pub enum RouterError {
    /// The route template does not compile.
    InvalidPattern(PatternError),
    /// A route was to be limited to an empty set of methods.
    EmptyMethodSet,
    /// The table already holds a route with the same template.
    DuplicateRoute,
    /// A sub-router was to be mounted under the empty prefix.
    EmptyPrefix,
    /// A sub-router is already mounted under the same prefix.
    DuplicateMount,
}

} // verus!
