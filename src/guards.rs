//! The guard pipeline: every navigation request is resolved into a context,
//! then before-leave hooks and route guards decide on it, in registration
//! order, before the router commits it.
//!
//! The hooks themselves live with the caller. The pipeline says which hook
//! to ask next ([`RouterStep::Ask`]); the caller evaluates that hook on
//! [`GuardPipeline::context`] and hands the decision back through
//! [`GuardPipeline::answer`]. An asynchronous hook whose decision is not yet
//! there is answered with [`HookAnswer::Pending`]: the pipeline suspends and
//! the caller answers again once the decision arrives.

use vstd::prelude::*;
use crate::navigation::{nearest_at_or_before, pop_to_succeeds, pushed, replaced, route_views};
use crate::query::{query_map, sorted_keys};
use crate::registry::{first_hit, resolved_as, resolved_core};
use crate::url::{parsed_query, url_parts, RouterUrl};
use crate::route::{bare_view, Route, RouteView};
use crate::router::Router;
use crate::url::normalized_path;

verus! {

/// How many redirects one navigation may take before it is refused.
pub const ROUTER_MAX_REDIRECTS: u8 = 8;

/// Kind of navigation request being evaluated by guards and hooks.
#[derive(Clone, Copy, Debug, PartialEq, Eq, Structural)]
pub enum RouterNavKind {
    Navigate,
    Replace,
    NavigateByPath,
    ReplaceByPath,
    NavigateByUrl,
    ReplaceByUrl,
    Back,
    Forward,
    Reset,
    SetStack,
    Push,
    Pop,
    PopTo,
    PopToRoot,
    BrowserUrlChanged,
}

/// Decision of a before-leave hook.
#[derive(Clone, Copy, Debug, PartialEq, Eq, Structural)]
pub enum RouterBeforeLeaveDecision {
    Allow,
    Block,
}

/// Where a guard redirects to.
#[derive(Debug)]
pub enum RouterRedirectTarget {
    Route(u64),
    Path(String),
}

/// A redirect returned by a guard.
#[derive(Debug)]
pub struct RouterRedirect {
    pub target: RouterRedirectTarget,
    pub replace: bool,
}

/// Decision of a route guard.
#[derive(Debug)]
pub enum RouterGuardDecision {
    Allow,
    Block,
    Redirect(RouterRedirect),
}

/// Why a navigation did not happen.
#[derive(Clone, Copy, Debug, PartialEq, Eq, Structural)]
pub enum RouterBlockReason {
    GuardBlocked,
    BeforeLeaveBlocked,
    RouteMissing,
    NoHistory,
    CapabilityDisabled,
    RedirectLimit,
}

/// Optional features of a router; all off unless asked for.
#[derive(Clone, Copy, Debug, PartialEq, Eq, Structural)]
pub struct RouterCapabilities {
    pub guards_sync: bool,
    pub guards_async: bool,
    pub transitions: bool,
    pub nested: bool,
    pub persistence: bool,
}

impl Default for RouterCapabilities {
    fn default() -> (r: RouterCapabilities)
        ensures
            !r.guards_sync && !r.guards_async && !r.transitions && !r.nested && !r.persistence,
    {
        RouterCapabilities {
            guards_sync: false,
            guards_async: false,
            transitions: false,
            nested: false,
            persistence: false,
        }
    }
}

/// What guards and hooks are shown of a navigation.
#[derive(Debug)]
pub struct RouterNavContext {
    pub kind: RouterNavKind,
    pub from: Option<Route>,
    pub to: Option<Route>,
    pub to_path: Option<String>,
}

/// A navigation request.
#[derive(Debug)]
pub enum RouterNavRequest {
    Navigate { route_id: u64 },
    Replace { route_id: u64 },
    NavigateByPath { path: String },
    ReplaceByPath { path: String },
    Back,
    Forward,
    Reset { route: Route },
    SetStack { stack: Vec<Route> },
    Push { route_id: u64 },
    Pop,
    PopTo { route_id: u64 },
    PopToRoot,
}

/// A command for the router, as callers issue them.
#[derive(Debug)]
pub enum RouterCommand {
    GoToRoute { route_id: u64 },
    GoToPath { path: String },
    ReplaceRoute { route_id: u64 },
    ReplacePath { path: String },
    Back,
    Forward,
    Reset { route: Route },
    Push { route_id: u64 },
    Pop,
    PopTo { route_id: u64 },
    PopToRoot,
    SetStack { stack: Vec<Route> },
}

/// Router setup: optional features, the default and not-found routes, and
/// whether state is persisted.
#[derive(Clone, Copy, Debug, PartialEq, Eq, Structural)]
pub struct RouterConfig {
    pub capabilities: RouterCapabilities,
    pub default_route: u64,
    pub not_found_route: u64,
    pub default_transition: u64,
    pub persist_state: bool,
}

impl Default for RouterConfig {
    fn default() -> (r: RouterConfig)
        ensures
            !r.capabilities.guards_sync && !r.capabilities.guards_async && !r.capabilities.transitions
                && !r.capabilities.nested && !r.capabilities.persistence,
            r.default_route == 0 && r.not_found_route == 0 && r.default_transition == 0,
            !r.persist_state,
    {
        RouterConfig {
            capabilities: RouterCapabilities::default(),
            default_route: 0,
            not_found_route: 0,
            default_transition: 0,
            persist_state: false,
        }
    }
}

/// The navigation request a command stands for.
pub open spec fn command_request(command: RouterCommand) -> RouterNavRequest {
    match command {
        RouterCommand::GoToRoute { route_id } => RouterNavRequest::Navigate { route_id },
        RouterCommand::GoToPath { path } => RouterNavRequest::NavigateByPath { path },
        RouterCommand::ReplaceRoute { route_id } => RouterNavRequest::Replace { route_id },
        RouterCommand::ReplacePath { path } => RouterNavRequest::ReplaceByPath { path },
        RouterCommand::Back => RouterNavRequest::Back,
        RouterCommand::Forward => RouterNavRequest::Forward,
        RouterCommand::Reset { route } => RouterNavRequest::Reset { route },
        RouterCommand::Push { route_id } => RouterNavRequest::Push { route_id },
        RouterCommand::Pop => RouterNavRequest::Pop,
        RouterCommand::PopTo { route_id } => RouterNavRequest::PopTo { route_id },
        RouterCommand::PopToRoot => RouterNavRequest::PopToRoot,
        RouterCommand::SetStack { stack } => RouterNavRequest::SetStack { stack },
    }
}

/// The navigation request for `command`.
pub fn request_for(command: RouterCommand) -> (r: RouterNavRequest)
    ensures
        r == command_request(command),
{
    match command {
        RouterCommand::GoToRoute { route_id } => RouterNavRequest::Navigate { route_id },
        RouterCommand::GoToPath { path } => RouterNavRequest::NavigateByPath { path },
        RouterCommand::ReplaceRoute { route_id } => RouterNavRequest::Replace { route_id },
        RouterCommand::ReplacePath { path } => RouterNavRequest::ReplaceByPath { path },
        RouterCommand::Back => RouterNavRequest::Back,
        RouterCommand::Forward => RouterNavRequest::Forward,
        RouterCommand::Reset { route } => RouterNavRequest::Reset { route },
        RouterCommand::Push { route_id } => RouterNavRequest::Push { route_id },
        RouterCommand::Pop => RouterNavRequest::Pop,
        RouterCommand::PopTo { route_id } => RouterNavRequest::PopTo { route_id },
        RouterCommand::PopToRoot => RouterNavRequest::PopToRoot,
        RouterCommand::SetStack { stack } => RouterNavRequest::SetStack { stack },
    }
}

/// A router event surfaced by a committed navigation.
#[derive(Debug)]
pub enum RouterAction {
    Navigate(Route),
    Replace(Route),
    Back,
    Forward,
    Reset(Route),
    RouteChanged { from: Option<u64>, to: u64 },
}

/// The outcome of a navigation.
#[derive(Debug)]
pub struct RouterDispatchResult {
    pub changed: bool,
    pub from: Option<Route>,
    pub to: Option<Route>,
    pub action: Option<RouterAction>,
    pub blocked_reason: Option<RouterBlockReason>,
}

impl RouterDispatchResult {
    /// A navigation that did not happen, for `reason`.
    pub fn blocked(from: Option<Route>, to: Option<Route>, reason: RouterBlockReason) -> (r:
        RouterDispatchResult)
        ensures
            !r.changed,
            r.from == from,
            r.to == to,
            r.action is None,
            r.blocked_reason == Some(reason),
    {
        RouterDispatchResult { changed: false, from, to, action: None, blocked_reason: Some(reason) }
    }
}

/// The four groups of hooks, in the order they run.
#[derive(Clone, Copy, Debug, PartialEq, Eq, Structural)]
pub enum HookPhase {
    BeforeLeaveSync,
    BeforeLeaveAsync,
    GuardSync,
    GuardAsync,
}

/// How many hooks of each group are registered.
#[derive(Clone, Copy, Debug, PartialEq, Eq, Structural)]
pub struct HookCounts {
    pub before_leave_sync: usize,
    pub before_leave_async: usize,
    pub guards_sync: usize,
    pub guards_async: usize,
}

/// A hook's decision as the caller hands it back.
#[derive(Debug)]
pub enum HookAnswer {
    /// Go on.
    Allow,
    /// Refuse the navigation.
    Block,
    /// Navigate elsewhere instead (guards only; from a before-leave hook it
    /// refuses).
    Redirect(RouterRedirect),
    /// The hook is asynchronous and its decision has not arrived.
    Pending,
}

/// What the pipeline wants next.
#[derive(Debug)]
pub enum RouterStep {
    /// Evaluate hook `index` of group `phase` and answer.
    Ask { phase: HookPhase, index: usize },
    /// Waiting for an asynchronous decision; answer when it arrives.
    Suspended,
    /// The navigation was applied.
    Committed(RouterDispatchResult),
    /// The navigation was refused; nothing changed.
    Blocked(RouterBlockReason),
}

/// The number of hooks of `phase` that run under `caps`.
pub open spec fn active_count(caps: RouterCapabilities, c: HookCounts, phase: HookPhase) -> usize {
    match phase {
        HookPhase::BeforeLeaveSync => if caps.guards_sync {
            c.before_leave_sync
        } else {
            0
        },
        HookPhase::BeforeLeaveAsync => if caps.guards_async {
            c.before_leave_async
        } else {
            0
        },
        HookPhase::GuardSync => if caps.guards_sync {
            c.guards_sync
        } else {
            0
        },
        HookPhase::GuardAsync => if caps.guards_async {
            c.guards_async
        } else {
            0
        },
    }
}

/// The rank of a phase in running order.
pub open spec fn phase_rank(phase: HookPhase) -> int {
    match phase {
        HookPhase::BeforeLeaveSync => 0,
        HookPhase::BeforeLeaveAsync => 1,
        HookPhase::GuardSync => 2,
        HookPhase::GuardAsync => 3,
    }
}

/// The first hook that runs at or after hook `i` of `phase`; none when all
/// have run.
pub open spec fn first_hook_from(caps: RouterCapabilities, c: HookCounts, phase: HookPhase, i: int) -> Option<(HookPhase, usize)>
    decreases 4 - phase_rank(phase),
{
    if 0 <= i < active_count(caps, c, phase) {
        Some((phase, i as usize))
    } else {
        match phase {
            HookPhase::BeforeLeaveSync => first_hook_from(caps, c, HookPhase::BeforeLeaveAsync, 0),
            HookPhase::BeforeLeaveAsync => first_hook_from(caps, c, HookPhase::GuardSync, 0),
            HookPhase::GuardSync => first_hook_from(caps, c, HookPhase::GuardAsync, 0),
            HookPhase::GuardAsync => None,
        }
    }
}

proof fn lemma_first_hook_in_range(caps: RouterCapabilities, c: HookCounts, phase: HookPhase, i: int)
    ensures
        first_hook_from(caps, c, phase, i) matches Some(next) ==> next.1 < active_count(caps, c, next.0),
    decreases 4 - phase_rank(phase),
{
    if !(0 <= i < active_count(caps, c, phase)) {
        match phase {
            HookPhase::BeforeLeaveSync => lemma_first_hook_in_range(caps, c, HookPhase::BeforeLeaveAsync, 0),
            HookPhase::BeforeLeaveAsync => lemma_first_hook_in_range(caps, c, HookPhase::GuardSync, 0),
            HookPhase::GuardSync => lemma_first_hook_in_range(caps, c, HookPhase::GuardAsync, 0),
            HookPhase::GuardAsync => {},
        }
    }
}

/// The redirect depth after one more redirect from `depth`; none past the
/// limit.
pub open spec fn redirect_step(depth: u8) -> Option<u8> {
    if depth >= ROUTER_MAX_REDIRECTS {
        None
    } else {
        Some((depth + 1) as u8)
    }
}

/// The redirect depth after `k` redirects in a row from a fresh request;
/// none once the limit refused one.
pub open spec fn depth_after(k: nat) -> Option<u8>
    decreases k,
{
    if k == 0 {
        Some(0)
    } else {
        match depth_after((k - 1) as nat) {
            Some(d) => redirect_step(d),
            None => None,
        }
    }
}

/// A guard that redirects every time is followed exactly eight times; the
/// ninth redirect is refused.
pub proof fn lemma_redirect_chain_is_bounded()
    ensures
        forall|k: nat| k <= 8 ==> depth_after(k) == Some(k as u8),
        depth_after(9) is None,
{
    assert forall|k: nat| k <= 8 implies depth_after(k) == Some(k as u8) by {
        lemma_depth_after(k);
    }
    lemma_depth_after(8);
}

proof fn lemma_depth_after(k: nat)
    requires
        k <= 8,
    ensures
        depth_after(k) == Some(k as u8),
    decreases k,
{
    if k > 0 {
        lemma_depth_after((k - 1) as nat);
    }
}

/// The kind that a request is reported as.
pub open spec fn kind_of(request: RouterNavRequest) -> RouterNavKind {
    match request {
        RouterNavRequest::Navigate { .. } => RouterNavKind::Navigate,
        RouterNavRequest::Replace { .. } => RouterNavKind::Replace,
        RouterNavRequest::NavigateByPath { .. } => RouterNavKind::NavigateByPath,
        RouterNavRequest::ReplaceByPath { .. } => RouterNavKind::ReplaceByPath,
        RouterNavRequest::Back => RouterNavKind::Back,
        RouterNavRequest::Forward => RouterNavKind::Forward,
        RouterNavRequest::Reset { .. } => RouterNavKind::Reset,
        RouterNavRequest::SetStack { .. } => RouterNavKind::SetStack,
        RouterNavRequest::Push { .. } => RouterNavKind::Push,
        RouterNavRequest::Pop => RouterNavKind::Pop,
        RouterNavRequest::PopTo { .. } => RouterNavKind::PopTo,
        RouterNavRequest::PopToRoot => RouterNavKind::PopToRoot,
    }
}

/// The reason a request that names nothing to navigate to is refused with.
pub open spec fn missing_reason(request: RouterNavRequest) -> RouterBlockReason {
    match request {
        RouterNavRequest::Back | RouterNavRequest::Forward | RouterNavRequest::Pop
        | RouterNavRequest::PopTo { .. } | RouterNavRequest::PopToRoot => RouterBlockReason::NoHistory,
        _ => RouterBlockReason::RouteMissing,
    }
}

/// The routes of `stack` whose ids are registered, in order.
pub open spec fn known_views(stack: Seq<RouteView>, router: Router) -> Seq<RouteView> {
    stack.filter(is_known(router))
}

/// The route's id is registered.
pub open spec fn is_known(router: Router) -> spec_fn(RouteView) -> bool {
    |r: RouteView| router.route_registry.ids().contains_key(r.id)
}

/// The request names a route to go to, for the router in its state.
pub open spec fn request_resolves(router: Router, request: RouterNavRequest) -> bool {
    let s = router.history.routes();
    let c = router.history.cur();
    match request {
        RouterNavRequest::Navigate { route_id } => router.route_registry.ids().contains_key(route_id),
        RouterNavRequest::Replace { route_id } => router.route_registry.ids().contains_key(route_id),
        RouterNavRequest::Push { route_id } => router.route_registry.ids().contains_key(route_id),
        RouterNavRequest::NavigateByPath { path } => exists|ph: int, i: int|
            first_hit(router.route_registry.entries(), normalized_path(path@), ph, i),
        RouterNavRequest::ReplaceByPath { path } => exists|ph: int, i: int|
            first_hit(router.route_registry.entries(), normalized_path(path@), ph, i),
        RouterNavRequest::Back => c > 0,
        RouterNavRequest::Forward => c + 1 < s.len(),
        RouterNavRequest::Reset { route } => router.route_registry.ids().contains_key(route.id),
        RouterNavRequest::SetStack { stack } => known_views(route_views(stack@), router).len() > 0,
        RouterNavRequest::Pop => s.len() > 1,
        RouterNavRequest::PopTo { route_id } => pop_to_succeeds(s, c, route_id),
        RouterNavRequest::PopToRoot => s.len() > 1,
    }
}

/// `to` is the route that `request` leads to from the router's state
/// (`resolved` is the route a path request resolved to).
pub open spec fn target_of(router: Router, request: RouterNavRequest, to: RouteView) -> bool {
    let s = router.history.routes();
    let c = router.history.cur();
    match request {
        RouterNavRequest::Navigate { route_id } => to == bare_view(route_id),
        RouterNavRequest::Replace { route_id } => to == bare_view(route_id),
        RouterNavRequest::Push { route_id } => to == bare_view(route_id),
        RouterNavRequest::NavigateByPath { path } => path_target(router, path@, to),
        RouterNavRequest::ReplaceByPath { path } => path_target(router, path@, to),
        RouterNavRequest::Back => to == s[c as int - 1],
        RouterNavRequest::Forward => to == s[c as int + 1],
        RouterNavRequest::Reset { route } => to == route@,
        RouterNavRequest::SetStack { stack } => to == known_views(route_views(stack@), router).last(),
        RouterNavRequest::Pop => to == s[s.len() - 2],
        RouterNavRequest::PopTo { route_id } => exists|p: int|
            nearest_at_or_before(s, route_id, c as int, p) && to == s[p],
        RouterNavRequest::PopToRoot => to == s[0],
    }
}

/// `to` is what resolving `path` gives, with the query and hash of `path`
/// attached.
pub open spec fn path_target(router: Router, path: Seq<char>, to: RouteView) -> bool {
    &&& exists|ph: int, i: int|
        #[trigger] first_hit(router.route_registry.entries(), normalized_path(path), ph, i)
            && resolved_core(
            to,
            router.route_registry.pattern_of(router.route_registry.entries()[i].route_id),
            router.route_registry.entries()[i],
            normalized_path(path),
            ph,
        )
    &&& query_map(to.query) == parsed_query(url_parts(path).1)
    &&& sorted_keys(to.query)
    &&& to.hash == url_parts(path).2
}

/// What committing `request` (with path target `resolved`) does to the
/// router's history.
pub open spec fn commit_effect(old: Router, new: Router, request: RouterNavRequest, resolved: RouteView) -> bool {
    let s = old.history.routes();
    let c = old.history.cur();
    let t = new.history.routes();
    let d = new.history.cur();
    &&& new.route_registry == old.route_registry
    &&& match request {
        RouterNavRequest::Navigate { route_id } => t == pushed(s, c, bare_view(route_id)) && d == t.len() - 1,
        RouterNavRequest::Push { route_id } => t == pushed(s, c, bare_view(route_id)) && d == t.len() - 1,
        RouterNavRequest::Replace { route_id } => t == replaced(s, c, bare_view(route_id)) && d == c,
        RouterNavRequest::NavigateByPath { .. } => t == pushed(s, c, resolved) && d == t.len() - 1,
        RouterNavRequest::ReplaceByPath { .. } => t == replaced(s, c, resolved) && d == c,
        RouterNavRequest::Back => t == s && d == c as int - 1,
        RouterNavRequest::Forward => t == s && d == c + 1,
        RouterNavRequest::Reset { route } => t == seq![route@] && d == 0,
        RouterNavRequest::SetStack { stack } => t == known_views(route_views(stack@), old) && d == t.len() - 1,
        RouterNavRequest::Pop => t == s.drop_last() && d == t.len() - 1,
        RouterNavRequest::PopTo { route_id } => exists|p: int|
            nearest_at_or_before(s, route_id, c as int, p) && t == s.take(p + 1) && d == p,
        RouterNavRequest::PopToRoot => t == s.take(1) && d == 0,
    }
}


fn known_routes(router: &Router, stack: &Vec<Route>) -> (r: Vec<Route>)
    ensures
        route_views(r@) == known_views(route_views(stack@), *router),
{
    let ghost v = route_views(stack@);
    let mut out: Vec<Route> = Vec::new();
    let mut i: usize = 0;
    while i < stack.len()
        invariant
            i <= stack.len(),
            v == route_views(stack@),
            route_views(out@) == known_views(v.take(i as int), *router),
        decreases stack.len() - i,
    {
        assert(v.take(i + 1).drop_last() == v.take(i as int));
        assert(v.take(i + 1).last() == stack@[i as int]@);
        let ghost pred = is_known(*router);
        let ghost w = v.take(i + 1);
        proof {
            reveal(Seq::filter);
        }
        assert(w.filter(pred) == if pred(w.last()) {
            w.drop_last().filter(pred).push(w.last())
        } else {
            w.drop_last().filter(pred)
        });
        if router.route_registry.has_route(stack[i].id) {
            let ghost before = out@;
            out.push(stack[i].clone());
            assert(route_views(out@) == route_views(before).push(stack@[i as int]@));
        }
        i = i + 1;
    }
    assert(v.take(i as int) == v);
    out
}

fn clone_route_option(r: Option<&Route>) -> (o: Option<Route>)
    ensures
        o is Some <==> r is Some,
        o is Some ==> o->0@ == r->0@,
{
    match r {
        Some(route) => Some(route.clone()),
        None => None,
    }
}

/// Resolves a request into the context that hooks see, whether it leaves
/// the current route, and (for path requests) the route the path resolved
/// to; nothing when the request names nowhere to go. The router is not
/// changed.
pub fn resolve_nav_context(router: &Router, request: &RouterNavRequest) -> (r: Option<(RouterNavContext, bool, Option<Route>)>)
    requires
        router.wf(),
    ensures
        r is Some <==> request_resolves(*router, *request),
        r matches Some((ctx, leaving, resolved)) ==> {
            &&& ctx.kind == kind_of(*request)
            &&& (ctx.from is Some <==> router.history.routes().len() > 0)
            &&& ctx.from is Some ==> ctx.from->0@ == router.history.routes()[router.history.cur() as int]
            &&& ctx.to is Some
            &&& target_of(*router, *request, ctx.to->0@)
            &&& leaving == (ctx.from is Some && ctx.from->0.id != ctx.to->0.id)
            &&& (request is NavigateByPath || request is ReplaceByPath) ==> resolved is Some && resolved->0@ == ctx.to->0@
        },
{
    proof {
        router.history.lemma_position_in_bounds();
    }
    let from = clone_route_option(router.current_route());
    let ghost s = router.history.routes();
    let ghost c = router.history.cur();
    let mut to_path: Option<String> = None;
    let mut resolved: Option<Route> = None;
    let to: Route = match request {
        RouterNavRequest::Navigate { route_id } | RouterNavRequest::Replace { route_id }
        | RouterNavRequest::Push { route_id } => {
            if !router.route_registry.has_route(*route_id) {
                return None;
            }
            Route::new(*route_id)
        },
        RouterNavRequest::NavigateByPath { path } | RouterNavRequest::ReplaceByPath { path } => {
            match router.route_registry.resolve_path(path.as_str()) {
                Some(found) => {
                    let url = RouterUrl::parse(path.as_str());
                    let mut route = found;
                    route.query = url.parse_query_map();
                    route.hash = url.hash;
                    to_path = Some(path.clone());
                    resolved = Some(route.clone());
                    route
                },
                None => {
                    return None;
                },
            }
        },
        RouterNavRequest::Back => {
            let cur = router.history.current_index();
            if cur == 0 {
                return None;
            }
            match router.history.route_at(cur - 1) {
                Some(route) => route.clone(),
                None => {
                    return None;
                },
            }
        },
        RouterNavRequest::Forward => {
            let cur = router.history.current_index();
            let depth = router.history.depth();
            if cur >= depth || depth - cur <= 1 {
                return None;
            }
            match router.history.route_at(cur + 1) {
                Some(route) => route.clone(),
                None => {
                    return None;
                },
            }
        },
        RouterNavRequest::Reset { route } => {
            if !router.route_registry.has_route(route.id) {
                return None;
            }
            route.clone()
        },
        RouterNavRequest::SetStack { stack } => {
            let known = known_routes(router, stack);
            if known.len() == 0 {
                return None;
            }
            known[known.len() - 1].clone()
        },
        RouterNavRequest::Pop => {
            let depth = router.history.depth();
            if depth <= 1 {
                return None;
            }
            match router.history.route_at(depth - 2) {
                Some(route) => route.clone(),
                None => {
                    return None;
                },
            }
        },
        RouterNavRequest::PopTo { route_id } => {
            match router.history.preview_pop_to(*route_id) {
                Some(route) => route.clone(),
                None => {
                    return None;
                },
            }
        },
        RouterNavRequest::PopToRoot => {
            if router.history.depth() <= 1 {
                return None;
            }
            match router.history.route_at(0) {
                Some(route) => route.clone(),
                None => {
                    return None;
                },
            }
        },
    };
    let leaving = match &from {
        Some(f) => f.id != to.id,
        None => false,
    };
    let kind = request_kind(request);
    Some((RouterNavContext { kind, from, to: Some(to), to_path }, leaving, resolved))
}

/// The kind that a request is reported as.
pub fn request_kind(request: &RouterNavRequest) -> (r: RouterNavKind)
    ensures
        r == kind_of(*request),
{
    match request {
        RouterNavRequest::Navigate { .. } => RouterNavKind::Navigate,
        RouterNavRequest::Replace { .. } => RouterNavKind::Replace,
        RouterNavRequest::NavigateByPath { .. } => RouterNavKind::NavigateByPath,
        RouterNavRequest::ReplaceByPath { .. } => RouterNavKind::ReplaceByPath,
        RouterNavRequest::Back => RouterNavKind::Back,
        RouterNavRequest::Forward => RouterNavKind::Forward,
        RouterNavRequest::Reset { .. } => RouterNavKind::Reset,
        RouterNavRequest::SetStack { .. } => RouterNavKind::SetStack,
        RouterNavRequest::Push { .. } => RouterNavKind::Push,
        RouterNavRequest::Pop => RouterNavKind::Pop,
        RouterNavRequest::PopTo { .. } => RouterNavKind::PopTo,
        RouterNavRequest::PopToRoot => RouterNavKind::PopToRoot,
    }
}

/// The reason a request that names nowhere to go is refused with.
pub fn infer_resolution_block_reason(request: &RouterNavRequest) -> (r: RouterBlockReason)
    ensures
        r == missing_reason(*request),
{
    match request {
        RouterNavRequest::Back | RouterNavRequest::Forward | RouterNavRequest::Pop
        | RouterNavRequest::PopTo { .. } | RouterNavRequest::PopToRoot => RouterBlockReason::NoHistory,
        _ => RouterBlockReason::RouteMissing,
    }
}

/// The request a guard's redirect stands for.
pub fn redirect_to_request(redirect: RouterRedirect) -> (r: RouterNavRequest)
    ensures
        match redirect.target {
            RouterRedirectTarget::Route(id) => if redirect.replace {
                r == (RouterNavRequest::Replace { route_id: id })
            } else {
                r == (RouterNavRequest::Navigate { route_id: id })
            },
            RouterRedirectTarget::Path(p) => if redirect.replace {
                r == (RouterNavRequest::ReplaceByPath { path: p })
            } else {
                r == (RouterNavRequest::NavigateByPath { path: p })
            },
        },
{
    match (redirect.target, redirect.replace) {
        (RouterRedirectTarget::Route(route_id), false) => RouterNavRequest::Navigate { route_id },
        (RouterRedirectTarget::Route(route_id), true) => RouterNavRequest::Replace { route_id },
        (RouterRedirectTarget::Path(path), false) => RouterNavRequest::NavigateByPath { path },
        (RouterRedirectTarget::Path(path), true) => RouterNavRequest::ReplaceByPath { path },
    }
}


fn current_clone(router: &Router) -> (r: Option<Route>)
    requires
        router.wf(),
    ensures
        r is Some <==> router.history.routes().len() > 0,
        r is Some ==> r->0@ == router.history.routes()[router.history.cur() as int],
{
    clone_route_option(router.current_route())
}

/// Applies an approved request to the router.
pub fn commit(router: &mut Router, request: RouterNavRequest, resolved: Option<Route>) -> (r: RouterDispatchResult)
    requires
        old(router).wf(),
        request_resolves(*old(router), request),
        (request is NavigateByPath || request is ReplaceByPath) ==> resolved is Some,
    ensures
        final(router).wf(),
        commit_effect(*old(router), *final(router), request, resolved->0@),
        r.changed,
        r.blocked_reason is None,
        r.from is Some <==> old(router).history.routes().len() > 0,
        r.from is Some ==> r.from->0@ == old(router).history.routes()[old(router).history.cur() as int],
        r.to is Some,
        r.to->0@ == final(router).history.routes()[final(router).history.cur() as int],
{
    proof {
        router.history.lemma_position_in_bounds();
    }
    let from = current_clone(router);
    let from_id = match &from {
        Some(f) => Some(f.id),
        None => None,
    };
    let ghost resolved_view = resolved->0@;
    let kind = request_kind(&request);
    match request {
        RouterNavRequest::Navigate { route_id } | RouterNavRequest::Push { route_id } => {
            router.navigate(Route::new(route_id));
        },
        RouterNavRequest::Replace { route_id } => {
            router.replace(Route::new(route_id));
        },
        RouterNavRequest::NavigateByPath { .. } => {
            match resolved {
                Some(route) => router.navigate(route),
                None => {},
            }
        },
        RouterNavRequest::ReplaceByPath { .. } => {
            match resolved {
                Some(route) => router.replace(route),
                None => {},
            }
        },
        RouterNavRequest::Back => {
            let _ = router.back();
        },
        RouterNavRequest::Forward => {
            let _ = router.forward();
        },
        RouterNavRequest::Reset { route } => {
            router.reset(route);
        },
        RouterNavRequest::SetStack { stack } => {
            let known = known_routes(router, &stack);
            router.set_stack(known);
        },
        RouterNavRequest::Pop => {
            let _ = router.pop();
        },
        RouterNavRequest::PopTo { route_id } => {
            let _ = router.pop_to(route_id);
        },
        RouterNavRequest::PopToRoot => {
            let _ = router.pop_to_root();
        },
    }
    proof {
        router.history.lemma_position_in_bounds();
    }
    let to = current_clone(router);
    // Every committed request leaves a route on the stack, so `to` is set.
    let to_route = match &to {
        Some(t) => t.clone(),
        None => Route::new(0),
    };
    let action = match kind {
        RouterNavKind::Navigate | RouterNavKind::NavigateByPath | RouterNavKind::Push => {
            RouterAction::Navigate(to_route)
        },
        RouterNavKind::Replace | RouterNavKind::ReplaceByPath => RouterAction::Replace(to_route),
        RouterNavKind::Back => RouterAction::Back,
        RouterNavKind::Forward => RouterAction::Forward,
        RouterNavKind::Reset | RouterNavKind::SetStack => RouterAction::Reset(to_route),
        _ => RouterAction::RouteChanged { from: from_id, to: to_route.id },
    };
    RouterDispatchResult { changed: true, from, to, action: Some(action), blocked_reason: None }
}

/// A navigation being decided.
#[derive(Debug)]
struct Flow {
    request: RouterNavRequest,
    context: RouterNavContext,
    resolved: Option<Route>,
    phase: HookPhase,
    index: usize,
    redirect_depth: u8,
    suspended: bool,
}

/// A router whose navigations go through before-leave hooks and guards.
#[derive(Debug)]
pub struct GuardPipeline {
    /// The router that approved navigations are applied to.
    pub router: Router,
    /// Which hook groups run.
    pub capabilities: RouterCapabilities,
    /// How many hooks of each group are registered.
    pub hooks: HookCounts,
    flow: Option<Flow>,
    /// Why the last refused navigation was refused.
    pub last_blocked_reason: Option<RouterBlockReason>,
}

/// The reason a `Block` from a hook of `phase` is reported with.
pub open spec fn block_reason(phase: HookPhase) -> RouterBlockReason {
    match phase {
        HookPhase::BeforeLeaveSync | HookPhase::BeforeLeaveAsync => RouterBlockReason::BeforeLeaveBlocked,
        _ => RouterBlockReason::GuardBlocked,
    }
}

impl GuardPipeline {
    /// The router.
    pub closed spec fn router_spec(&self) -> Router {
        self.router
    }

    /// The enabled hook groups.
    pub closed spec fn caps(&self) -> RouterCapabilities {
        self.capabilities
    }

    /// The registered hook counts.
    pub closed spec fn hook_counts(&self) -> HookCounts {
        self.hooks
    }

    /// The reason of the last refusal.
    pub closed spec fn last_reason(&self) -> Option<RouterBlockReason> {
        self.last_blocked_reason
    }

    /// A navigation is being decided.
    pub closed spec fn busy(&self) -> bool {
        self.flow is Some
    }

    /// The hook whose decision is awaited.
    pub closed spec fn awaiting(&self) -> (HookPhase, usize) {
        (self.flow->0.phase, self.flow->0.index)
    }

    /// Redirects taken by the navigation being decided.
    pub closed spec fn depth(&self) -> u8 {
        self.flow->0.redirect_depth
    }

    /// The awaited decision is asynchronous and has not arrived.
    pub closed spec fn suspended(&self) -> bool {
        self.flow->0.suspended
    }

    /// The context that hooks are shown for the navigation being decided.
    pub closed spec fn context_of(&self) -> RouterNavContext {
        self.flow->0.context
    }

    /// The request being decided.
    pub closed spec fn request_of(&self) -> RouterNavRequest {
        self.flow->0.request
    }

    /// The route a path request being decided resolved to.
    pub closed spec fn resolved_of(&self) -> RouteView {
        self.flow->0.resolved->0@
    }

    /// The router is well formed, and a navigation being decided resolves,
    /// awaits a hook that runs, and is within the redirect limit.
    pub closed spec fn wf(&self) -> bool {
        &&& self.router.wf()
        &&& self.flow matches Some(f) ==> {
            &&& request_resolves(self.router, f.request)
            &&& (f.request is NavigateByPath || f.request is ReplaceByPath) ==> f.resolved is Some
            &&& f.index < active_count(self.capabilities, self.hooks, f.phase)
            &&& f.redirect_depth <= ROUTER_MAX_REDIRECTS
        }
    }

    /// A pipeline over `router` with no hooks registered.
    pub fn new(router: Router, capabilities: RouterCapabilities) -> (r: GuardPipeline)
        requires
            router.wf(),
        ensures
            r.wf(),
            !r.busy(),
            r.router_spec() == router,
            r.caps() == capabilities,
            r.hook_counts() == (HookCounts { before_leave_sync: 0, before_leave_async: 0, guards_sync: 0, guards_async: 0 }),
            r.last_reason() is None,
    {
        GuardPipeline {
            router,
            capabilities,
            hooks: HookCounts { before_leave_sync: 0, before_leave_async: 0, guards_sync: 0, guards_async: 0 },
            flow: None,
            last_blocked_reason: None,
        }
    }

    fn active(&self, phase: HookPhase) -> (r: usize)
        ensures
            r == active_count(self.capabilities, self.hooks, phase),
    {
        match phase {
            HookPhase::BeforeLeaveSync => if self.capabilities.guards_sync {
                self.hooks.before_leave_sync
            } else {
                0
            },
            HookPhase::BeforeLeaveAsync => if self.capabilities.guards_async {
                self.hooks.before_leave_async
            } else {
                0
            },
            HookPhase::GuardSync => if self.capabilities.guards_sync {
                self.hooks.guards_sync
            } else {
                0
            },
            HookPhase::GuardAsync => if self.capabilities.guards_async {
                self.hooks.guards_async
            } else {
                0
            },
        }
    }

    /// The first hook that runs at or after hook `i` of `phase`.
    pub fn next_hook(&self, phase: HookPhase, i: usize) -> (r: Option<(HookPhase, usize)>)
        ensures
            r == first_hook_from(self.caps(), self.hook_counts(), phase, i as int),
        decreases 4 - phase_rank(phase),
    {
        if i < self.active(phase) {
            return Some((phase, i));
        }
        match phase {
            HookPhase::BeforeLeaveSync => self.next_hook(HookPhase::BeforeLeaveAsync, 0),
            HookPhase::BeforeLeaveAsync => self.next_hook(HookPhase::GuardSync, 0),
            HookPhase::GuardSync => self.next_hook(HookPhase::GuardAsync, 0),
            HookPhase::GuardAsync => None,
        }
    }

    /// Registers one synchronous route guard; refused unless synchronous
    /// guards are enabled.
    pub fn add_route_guard(&mut self) -> (r: Result<(), RouterBlockReason>)
        requires
            old(self).wf(),
            old(self).hook_counts().guards_sync < usize::MAX,
        ensures
            final(self).wf(),
            final(self).router_spec() == old(self).router_spec(),
            r is Ok <==> old(self).caps().guards_sync,
            r is Ok ==> final(self).hook_counts() == (HookCounts { guards_sync: (old(self).hook_counts().guards_sync + 1) as usize, ..old(self).hook_counts() }),
            r is Err ==> r == Err::<(), _>(RouterBlockReason::CapabilityDisabled) && final(self).hook_counts() == old(self).hook_counts()
                && final(self).last_reason() == Some(RouterBlockReason::CapabilityDisabled),
    {
        if !self.capabilities.guards_sync {
            self.last_blocked_reason = Some(RouterBlockReason::CapabilityDisabled);
            return Err(RouterBlockReason::CapabilityDisabled);
        }
        self.hooks.guards_sync = self.hooks.guards_sync + 1;
        Ok(())
    }

    /// Registers one asynchronous route guard; refused unless asynchronous
    /// guards are enabled.
    pub fn add_route_guard_async(&mut self) -> (r: Result<(), RouterBlockReason>)
        requires
            old(self).wf(),
            old(self).hook_counts().guards_async < usize::MAX,
        ensures
            final(self).wf(),
            final(self).router_spec() == old(self).router_spec(),
            r is Ok <==> old(self).caps().guards_async,
            r is Ok ==> final(self).hook_counts() == (HookCounts { guards_async: (old(self).hook_counts().guards_async + 1) as usize, ..old(self).hook_counts() }),
            r is Err ==> r == Err::<(), _>(RouterBlockReason::CapabilityDisabled) && final(self).hook_counts() == old(self).hook_counts()
                && final(self).last_reason() == Some(RouterBlockReason::CapabilityDisabled),
    {
        if !self.capabilities.guards_async {
            self.last_blocked_reason = Some(RouterBlockReason::CapabilityDisabled);
            return Err(RouterBlockReason::CapabilityDisabled);
        }
        self.hooks.guards_async = self.hooks.guards_async + 1;
        Ok(())
    }

    /// Registers one synchronous before-leave hook; refused unless
    /// synchronous guards are enabled.
    pub fn add_before_leave_hook(&mut self) -> (r: Result<(), RouterBlockReason>)
        requires
            old(self).wf(),
            old(self).hook_counts().before_leave_sync < usize::MAX,
        ensures
            final(self).wf(),
            final(self).router_spec() == old(self).router_spec(),
            r is Ok <==> old(self).caps().guards_sync,
            r is Ok ==> final(self).hook_counts() == (HookCounts { before_leave_sync: (old(self).hook_counts().before_leave_sync + 1) as usize, ..old(self).hook_counts() }),
            r is Err ==> r == Err::<(), _>(RouterBlockReason::CapabilityDisabled) && final(self).hook_counts() == old(self).hook_counts()
                && final(self).last_reason() == Some(RouterBlockReason::CapabilityDisabled),
    {
        if !self.capabilities.guards_sync {
            self.last_blocked_reason = Some(RouterBlockReason::CapabilityDisabled);
            return Err(RouterBlockReason::CapabilityDisabled);
        }
        self.hooks.before_leave_sync = self.hooks.before_leave_sync + 1;
        Ok(())
    }

    /// Registers one asynchronous before-leave hook; refused unless
    /// asynchronous guards are enabled.
    pub fn add_before_leave_hook_async(&mut self) -> (r: Result<(), RouterBlockReason>)
        requires
            old(self).wf(),
            old(self).hook_counts().before_leave_async < usize::MAX,
        ensures
            final(self).wf(),
            final(self).router_spec() == old(self).router_spec(),
            r is Ok <==> old(self).caps().guards_async,
            r is Ok ==> final(self).hook_counts() == (HookCounts { before_leave_async: (old(self).hook_counts().before_leave_async + 1) as usize, ..old(self).hook_counts() }),
            r is Err ==> r == Err::<(), _>(RouterBlockReason::CapabilityDisabled) && final(self).hook_counts() == old(self).hook_counts()
                && final(self).last_reason() == Some(RouterBlockReason::CapabilityDisabled),
    {
        if !self.capabilities.guards_async {
            self.last_blocked_reason = Some(RouterBlockReason::CapabilityDisabled);
            return Err(RouterBlockReason::CapabilityDisabled);
        }
        self.hooks.before_leave_async = self.hooks.before_leave_async + 1;
        Ok(())
    }

    /// Whether a navigation is being decided.
    pub fn is_busy(&self) -> (r: bool)
        ensures
            r == self.busy(),
    {
        self.flow.is_some()
    }

    /// The context of the navigation being decided, for the hook asked.
    pub fn context(&self) -> (r: Option<&RouterNavContext>)
        ensures
            r is Some <==> self.busy(),
            r is Some ==> *r->0 == self.context_of(),
    {
        match &self.flow {
            Some(f) => Some(&f.context),
            None => None,
        }
    }

    /// Starts deciding `request` after `depth` redirects, skipping the
    /// before-leave hooks when `skip_before_leave`.
    fn start(&mut self, request: RouterNavRequest, skip_before_leave: bool, depth: u8) -> (r: RouterStep)
        requires
            old(self).wf(),
            !old(self).busy(),
            depth <= ROUTER_MAX_REDIRECTS,
        ensures
            final(self).wf(),
            final(self).caps() == old(self).caps(),
            final(self).hook_counts() == old(self).hook_counts(),
            start_outcome(*old(self), *final(self), request, skip_before_leave, depth, r),
    {
        let ghost before = *self;
        match resolve_nav_context(&self.router, &request) {
            None => {
                let reason = infer_resolution_block_reason(&request);
                self.last_blocked_reason = Some(reason);
                RouterStep::Blocked(reason)
            },
            Some((context, leaving, resolved)) => {
                let ghost to = context.to->0@;
                assert(target_of(before.router_spec(), request, to));
                assert(leaving_to(before.router_spec(), to, leaving));
                let phase = if !skip_before_leave && leaving {
                    HookPhase::BeforeLeaveSync
                } else {
                    HookPhase::GuardSync
                };
                proof {
                    lemma_first_hook_in_range(self.capabilities, self.hooks, phase, 0);
                }
                match self.next_hook(phase, 0) {
                    None => {
                        let ghost resolved_view = resolved->0@;
                        let result = commit(&mut self.router, request, resolved);
                        assert(commit_effect(before.router_spec(), self.router, request, resolved_view));
                        assert(commit_effect(before.router_spec(), self.router, request, to));
                        RouterStep::Committed(result)
                    },
                    Some((ph, index)) => {
                        self.flow = Some(
                            Flow {
                                request,
                                context,
                                resolved,
                                phase: ph,
                                index,
                                redirect_depth: depth,
                                suspended: false,
                            },
                        );
                        RouterStep::Ask { phase: ph, index }
                    },
                }
            },
        }
    }

    /// Asks for `request`. Refused while another navigation is being
    /// decided; otherwise the request is resolved and the first hook that
    /// runs is asked, or the request is applied when none runs.
    pub fn request(&mut self, request: RouterNavRequest) -> (r: RouterStep)
        requires
            old(self).wf(),
        ensures
            final(self).wf(),
            final(self).caps() == old(self).caps(),
            final(self).hook_counts() == old(self).hook_counts(),
            old(self).busy() ==> r == RouterStep::Blocked(RouterBlockReason::NoHistory)
                && final(self).router_spec() == old(self).router_spec() && final(self).busy()
                && final(self).last_reason() == Some(RouterBlockReason::NoHistory),
            !old(self).busy() ==> start_outcome(*old(self), *final(self), request, false, 0, r),
    {
        if self.flow.is_some() {
            self.last_blocked_reason = Some(RouterBlockReason::NoHistory);
            return RouterStep::Blocked(RouterBlockReason::NoHistory);
        }
        self.start(request, false, 0)
    }

    /// Issues `command`: the same as requesting the navigation it stands
    /// for.
    pub fn dispatch(&mut self, command: RouterCommand) -> (r: RouterStep)
        requires
            old(self).wf(),
        ensures
            final(self).wf(),
            final(self).caps() == old(self).caps(),
            final(self).hook_counts() == old(self).hook_counts(),
            old(self).busy() ==> r == RouterStep::Blocked(RouterBlockReason::NoHistory)
                && final(self).router_spec() == old(self).router_spec() && final(self).busy()
                && final(self).last_reason() == Some(RouterBlockReason::NoHistory),
            !old(self).busy() ==> start_outcome(*old(self), *final(self), command_request(command), false, 0, r),
    {
        let request = request_for(command);
        self.request(request)
    }

    /// Hands back the decision of the hook that was asked. `Pending`
    /// suspends; `Allow` moves to the next hook or applies the request;
    /// `Block` refuses; a guard's `Redirect` starts over on the new target
    /// (skipping before-leave hooks), or refuses past the redirect limit.
    pub fn answer(&mut self, answer: HookAnswer) -> (r: RouterStep)
        requires
            old(self).wf(),
            old(self).busy(),
        ensures
            final(self).wf(),
            final(self).caps() == old(self).caps(),
            final(self).hook_counts() == old(self).hook_counts(),
            ({
                let (phase, index) = old(self).awaiting();
                match answer {
                    HookAnswer::Pending => r == RouterStep::Suspended && final(self).busy()
                        && final(self).suspended() && final(self).awaiting() == (phase, index)
                        && final(self).context_of() == old(self).context_of()
                        && final(self).router_spec() == old(self).router_spec(),
                    HookAnswer::Block => blocked_outcome(*old(self), *final(self), block_reason(phase), r),
                    HookAnswer::Allow => match first_hook_from(old(self).caps(), old(self).hook_counts(), phase, index + 1) {
                        Some(next) => r == (RouterStep::Ask { phase: next.0, index: next.1 })
                            && final(self).busy() && !final(self).suspended()
                            && final(self).awaiting() == next
                            && final(self).depth() == old(self).depth()
                            && final(self).context_of() == old(self).context_of()
                            && final(self).router_spec() == old(self).router_spec(),
                        None => !final(self).busy() && committed_outcome(*old(self), *final(self), r),
                    },
                    HookAnswer::Redirect(redirect) => if phase is BeforeLeaveSync || phase is BeforeLeaveAsync {
                        blocked_outcome(*old(self), *final(self), RouterBlockReason::BeforeLeaveBlocked, r)
                    } else {
                        match redirect_step(old(self).depth()) {
                            None => blocked_outcome(*old(self), *final(self), RouterBlockReason::RedirectLimit, r),
                            Some(d) => exists|mid: GuardPipeline|
                                mid.router_spec() == old(self).router_spec() && !mid.busy() && mid.wf()
                                && mid.caps() == old(self).caps() && mid.hook_counts() == old(self).hook_counts()
                                && start_outcome(mid, *final(self), redirect_to_request_spec(redirect), true, d, r),
                        }
                    },
                }
            }),
    {
        // `answer` requires a navigation being decided, so there is a flow.
        let flow = match self.flow.take() {
            Some(f) => f,
            None => {
                return RouterStep::Suspended;
            },
        };
        let phase = flow.phase;
        let index = flow.index;
        match answer {
            HookAnswer::Pending => {
                let mut f = flow;
                f.suspended = true;
                self.flow = Some(f);
                RouterStep::Suspended
            },
            HookAnswer::Block => {
                let reason = match phase {
                    HookPhase::BeforeLeaveSync | HookPhase::BeforeLeaveAsync => RouterBlockReason::BeforeLeaveBlocked,
                    _ => RouterBlockReason::GuardBlocked,
                };
                self.last_blocked_reason = Some(reason);
                RouterStep::Blocked(reason)
            },
            HookAnswer::Allow => {
                proof {
                    lemma_first_hook_in_range(self.capabilities, self.hooks, phase, index + 1);
                }
                match self.next_hook(phase, index + 1) {
                    Some((ph, i)) => {
                        let mut f = flow;
                        f.phase = ph;
                        f.index = i;
                        f.suspended = false;
                        self.flow = Some(f);
                        RouterStep::Ask { phase: ph, index: i }
                    },
                    None => {
                        let result = commit(&mut self.router, flow.request, flow.resolved);
                        RouterStep::Committed(result)
                    },
                }
            },
            HookAnswer::Redirect(redirect) => {
                match phase {
                    HookPhase::BeforeLeaveSync | HookPhase::BeforeLeaveAsync => {
                        self.last_blocked_reason = Some(RouterBlockReason::BeforeLeaveBlocked);
                        RouterStep::Blocked(RouterBlockReason::BeforeLeaveBlocked)
                    },
                    _ => {
                        if flow.redirect_depth >= ROUTER_MAX_REDIRECTS {
                            self.last_blocked_reason = Some(RouterBlockReason::RedirectLimit);
                            return RouterStep::Blocked(RouterBlockReason::RedirectLimit);
                        }
                        let ghost mid = *self;
                        let ghost spec_next = redirect_to_request_spec(redirect);
                        let next = redirect_to_request(redirect);
                        assert(next == spec_next);
                        let step = self.start(next, true, flow.redirect_depth + 1);
                        assert(start_outcome(mid, *self, spec_next, true, (flow.redirect_depth + 1) as u8, step));
                        assert(redirect_step(old(self).depth()) == Some((flow.redirect_depth + 1) as u8));
                        assert(mid.router_spec() == old(self).router_spec());
                        assert(mid.wf());
                        assert(!mid.busy());
                        assert(mid.caps() == old(self).caps() && mid.hook_counts() == old(self).hook_counts());
                        step
                    },
                }
            },
        }
    }

    /// Drops the navigation being decided (its asynchronous decision will
    /// never come).
    pub fn cancel(&mut self)
        requires
            old(self).wf(),
        ensures
            final(self).wf(),
            !final(self).busy(),
            final(self).router_spec() == old(self).router_spec(),
            final(self).caps() == old(self).caps(),
            final(self).hook_counts() == old(self).hook_counts(),
    {
        self.flow = None;
    }
}

/// The request a redirect stands for.
pub open spec fn redirect_to_request_spec(redirect: RouterRedirect) -> RouterNavRequest {
    match redirect.target {
        RouterRedirectTarget::Route(id) => if redirect.replace {
            RouterNavRequest::Replace { route_id: id }
        } else {
            RouterNavRequest::Navigate { route_id: id }
        },
        RouterRedirectTarget::Path(p) => if redirect.replace {
            RouterNavRequest::ReplaceByPath { path: p }
        } else {
            RouterNavRequest::NavigateByPath { path: p }
        },
    }
}

/// The navigation was refused for `reason`; the router is unchanged and
/// nothing is being decided.
pub open spec fn blocked_outcome(old: GuardPipeline, new: GuardPipeline, reason: RouterBlockReason, r: RouterStep) -> bool {
    &&& r == RouterStep::Blocked(reason)
    &&& !new.busy()
    &&& new.router_spec() == old.router_spec()
    &&& new.last_reason() == Some(reason)
}

/// The navigation being decided was applied.
pub open spec fn committed_outcome(old: GuardPipeline, new: GuardPipeline, r: RouterStep) -> bool {
    &&& r is Committed
    &&& commit_effect(old.router_spec(), new.router_spec(), old.request_of(), old.resolved_of())
}

/// What starting to decide `request` from an idle pipeline gives: a refusal
/// when it names nowhere to go; otherwise the first hook that runs (from the
/// before-leave hooks when the route is left and they are not skipped, else
/// from the guards) is asked, or the request is applied when none runs.
pub open spec fn start_outcome(old: GuardPipeline, new: GuardPipeline, request: RouterNavRequest, skip_before_leave: bool, depth: u8, r: RouterStep) -> bool {
    if !request_resolves(old.router_spec(), request) {
        blocked_outcome(old, new, missing_reason(request), r)
    } else {
        exists|leaving: bool, to: RouteView|
            target_of(old.router_spec(), request, to) && #[trigger] leaving_to(old.router_spec(), to, leaving) && ({
                let phase = if !skip_before_leave && leaving {
                    HookPhase::BeforeLeaveSync
                } else {
                    HookPhase::GuardSync
                };
                match first_hook_from(old.caps(), old.hook_counts(), phase, 0) {
                    Some(next) => r == (RouterStep::Ask { phase: next.0, index: next.1 })
                        && new.busy() && !new.suspended() && new.awaiting() == next
                        && new.depth() == depth && new.request_of() == request
                        && new.context_of().kind == kind_of(request)
                        && new.context_of().to is Some && new.context_of().to->0@ == to
                        && new.router_spec() == old.router_spec(),
                    None => !new.busy() && r is Committed && commit_effect(old.router_spec(), new.router_spec(), request, to),
                }
            })
    }
}

/// Navigating to `to` leaves the current route exactly when `leaving`.
pub open spec fn leaving_to(router: Router, to: RouteView, leaving: bool) -> bool {
    leaving == (router.history.routes().len() > 0
        && router.history.routes()[router.history.cur() as int].id != to.id)
}

} // verus!
