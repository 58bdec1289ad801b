//! Headless routing core: route patterns, a route registry, navigation
//! history with stack semantics, and a guard pipeline that gates every
//! navigation.

pub mod text;
pub mod url;
pub mod live_id;
pub mod params;
pub mod pattern;
pub mod query;
pub mod route;
pub mod navigation;
pub mod registry;
pub mod router;
pub mod guards;
pub mod parse;
pub mod state;

pub use crate::live_id::live_id;
pub use crate::navigation::NavigationHistory;
pub use crate::params::RouteParams;
pub use crate::pattern::{RoutePattern, RouteSegment};
pub use crate::query::RouteQuery;
pub use crate::registry::RouteRegistry;
pub use crate::route::{Route, RoutePatternRef};
pub use crate::router::Router;
pub use crate::state::RouterState;
pub use crate::url::{build_query_string, parse_query_map, RouterUrl};
pub use crate::guards::{
    GuardPipeline, HookAnswer, RouterCommand, RouterConfig, HookCounts, HookPhase, RouterAction, RouterBeforeLeaveDecision,
    RouterBlockReason, RouterCapabilities, RouterDispatchResult, RouterGuardDecision,
    RouterNavContext, RouterNavKind, RouterNavRequest, RouterRedirect, RouterRedirectTarget,
    RouterStep,
};
