//! Router state as it is persisted: the history and an optional path
//! shown in place of the current route's own.

use vstd::prelude::*;
use crate::navigation::NavigationHistory;

verus! {

/// Persisted router state.
#[derive(Debug)]
pub struct RouterState {
    /// The navigation history.
    pub history: NavigationHistory,
    /// A path shown in place of the current route's own (for a not-found
    /// route).
    pub url_path_override: Option<String>,
}

impl PartialEq for RouterState {
    fn eq(&self, other: &RouterState) -> (r: bool) {
        let same_override = match (&self.url_path_override, &other.url_path_override) {
            (Some(a), Some(b)) => *a == *b,
            (None, None) => true,
            _ => false,
        };
        same_override && self.history.eq(&other.history)
    }
}

impl vstd::std_specs::cmp::PartialEqSpecImpl for RouterState {
    open spec fn obeys_eq_spec() -> bool {
        true
    }

    open spec fn eq_spec(&self, other: &RouterState) -> bool {
        &&& self.history.same_as(&other.history)
        &&& match (self.url_path_override, other.url_path_override) {
            (Some(a), Some(b)) => a@ == b@,
            (None, None) => true,
            _ => false,
        }
    }
}

} // verus!
