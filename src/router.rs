//! A headless router: navigation history together with a registry of
//! route patterns.

use vstd::prelude::*;
use crate::navigation::{pop_to_succeeds, pushed, replaced, NavigationHistory};
use crate::registry::{
    entry_segments, first_hit, insert_position, pattern_from_text, resolved_as, RouteEntry,
    RouteRegistry,
};
use crate::route::{is_bare_route, Route, RouteView};
use crate::url::normalized_path;
use crate::pattern::{capped_priority, parse_error, parses};

verus! {

/// Router state: history, whether to persist it, and the pattern registry.
#[derive(Debug)]
pub struct Router {
    /// The navigation history.
    pub history: NavigationHistory,
    /// Whether the router's state is persisted.
    pub persist_state: bool,
    /// The patterns that path navigation resolves against.
    pub route_registry: RouteRegistry,
}

/// The message of a failed path navigation.
pub open spec fn no_route_message(path: Seq<char>) -> Seq<char> {
    "No route found for path: "@ + path
}

impl Router {
    /// History and registry are well formed.
    pub open spec fn wf(&self) -> bool {
        self.history.wf() && self.route_registry.wf()
    }

    /// A router on `initial_route`, not persisted, with no patterns.
    pub fn new(initial_route: Route) -> (r: Router)
        ensures
            r.wf(),
            r.history.routes() == seq![initial_route@],
            r.history.cur() == 0,
            !r.persist_state,
            r.route_registry.entries().len() == 0,
    {
        Router {
            history: NavigationHistory::new(initial_route),
            persist_state: false,
            route_registry: RouteRegistry::new(),
        }
    }

    /// A router on `initial_route` whose state is persisted.
    pub fn with_persistence(initial_route: Route) -> (r: Router)
        ensures
            r.wf(),
            r.history.routes() == seq![initial_route@],
            r.history.cur() == 0,
            r.persist_state,
            r.route_registry.entries().len() == 0,
    {
        Router {
            history: NavigationHistory::new(initial_route),
            persist_state: true,
            route_registry: RouteRegistry::new(),
        }
    }

    /// Pushes `route`.
    pub fn navigate(&mut self, route: Route)
        requires
            old(self).wf(),
        ensures
            final(self).wf(),
            final(self).history.routes() == pushed(
                old(self).history.routes(),
                old(self).history.cur(),
                route@,
            ),
            final(self).history.cur() == final(self).history.routes().len() - 1,
            final(self).route_registry == old(self).route_registry,
    {
        self.history.push(route);
    }

    /// Pushes a bare route for `route_id`.
    pub fn navigate_to(&mut self, route_id: u64)
        requires
            old(self).wf(),
        ensures
            final(self).wf(),
            exists|r: Route|
                is_bare_route(r, route_id) && final(self).history.routes() == pushed(
                    old(self).history.routes(),
                    old(self).history.cur(),
                    r@,
                ),
            final(self).history.cur() == final(self).history.routes().len() - 1,
            final(self).route_registry == old(self).route_registry,
    {
        let route = Route::new(route_id);
        let ghost r = route;
        self.navigate(route);
    }

    /// Replaces the current route with `route`.
    pub fn replace(&mut self, route: Route)
        requires
            old(self).wf(),
        ensures
            final(self).wf(),
            final(self).history.routes() == replaced(
                old(self).history.routes(),
                old(self).history.cur(),
                route@,
            ),
            final(self).history.cur() == old(self).history.cur(),
            final(self).route_registry == old(self).route_registry,
    {
        self.history.replace(route);
    }

    /// Replaces the current route with a bare route for `route_id`.
    pub fn replace_with(&mut self, route_id: u64)
        requires
            old(self).wf(),
        ensures
            final(self).wf(),
            exists|r: Route|
                is_bare_route(r, route_id) && final(self).history.routes() == replaced(
                    old(self).history.routes(),
                    old(self).history.cur(),
                    r@,
                ),
            final(self).history.cur() == old(self).history.cur(),
            final(self).route_registry == old(self).route_registry,
    {
        let route = Route::new(route_id);
        let ghost r = route;
        self.replace(route);
    }

    /// Moves back one position.
    pub fn back(&mut self) -> (r: bool)
        requires
            old(self).wf(),
        ensures
            final(self).wf(),
            final(self).history.routes() == old(self).history.routes(),
            r == (old(self).history.cur() > 0),
            r ==> final(self).history.cur() == old(self).history.cur() - 1,
            !r ==> final(self).history.cur() == old(self).history.cur(),
            final(self).route_registry == old(self).route_registry,
    {
        self.history.back()
    }

    /// Moves forward one position.
    pub fn forward(&mut self) -> (r: bool)
        requires
            old(self).wf(),
        ensures
            final(self).wf(),
            final(self).history.routes() == old(self).history.routes(),
            r == (old(self).history.cur() + 1 < old(self).history.routes().len()),
            r ==> final(self).history.cur() == old(self).history.cur() + 1,
            !r ==> final(self).history.cur() == old(self).history.cur(),
            final(self).route_registry == old(self).route_registry,
    {
        self.history.forward()
    }

    /// The current route.
    pub fn current_route(&self) -> (r: Option<&Route>)
        requires
            self.wf(),
        ensures
            r is Some <==> self.history.routes().len() > 0,
            r is Some ==> r->0@ == self.history.routes()[self.history.cur() as int],
    {
        self.history.current()
    }

    /// The id of the current route.
    pub fn current_route_id(&self) -> (r: Option<u64>)
        requires
            self.wf(),
        ensures
            r is Some <==> self.history.routes().len() > 0,
            r is Some ==> r->0 == self.history.routes()[self.history.cur() as int].id,
    {
        match self.current_route() {
            Some(route) => Some(route.id),
            None => None,
        }
    }

    /// Whether there is a route before the current one.
    pub fn can_go_back(&self) -> (r: bool)
        ensures
            r == (self.history.cur() > 0),
    {
        self.history.can_go_back()
    }

    /// Whether there is a route after the current one.
    pub fn can_go_forward(&self) -> (r: bool)
        ensures
            r == (self.history.cur() + 1 < self.history.routes().len()),
    {
        self.history.can_go_forward()
    }

    /// Replaces the whole history with `route`.
    pub fn reset(&mut self, route: Route)
        requires
            old(self).wf(),
        ensures
            final(self).wf(),
            final(self).history.routes() == seq![route@],
            final(self).history.cur() == 0,
            final(self).route_registry == old(self).route_registry,
    {
        self.history.reset(route);
    }

    /// Keeps only the current route.
    pub fn clear_history(&mut self)
        requires
            old(self).wf(),
        ensures
            final(self).wf(),
            old(self).history.routes().len() > 0 ==> final(self).history.routes() == seq![
                old(self).history.routes()[old(self).history.cur() as int],
            ],
            old(self).history.routes().len() == 0 ==> final(self).history.routes() == Seq::<
                RouteView,
            >::empty(),
            final(self).history.cur() == 0,
            final(self).route_registry == old(self).route_registry,
    {
        self.history.clear();
    }

    /// The number of routes in the history.
    pub fn depth(&self) -> (r: usize)
        ensures
            r == self.history.routes().len(),
    {
        self.history.depth()
    }

    /// Registers a pattern for path navigation.
    pub fn register_route_pattern(&mut self, pattern: &str, route_id: u64) -> (r: Result<
        (),
        String,
    >)
        requires
            old(self).wf(),
        ensures
            final(self).wf(),
            final(self).history == old(self).history,
            match r {
                Ok(()) => parses(pattern@) && exists|e: RouteEntry, k: int|
                    {
                        &&& e.route_id == route_id
                        &&& pattern_from_text(e, pattern@)
                        &&& e.priority == capped_priority(entry_segments(e))
                        &&& insert_position(old(self).route_registry.entries(), e.priority, k)
                        &&& final(self).route_registry.entries() == old(self).route_registry.entries().insert(k, e)
                        &&& final(self).route_registry.ids() == old(self).route_registry.ids().insert(route_id, e)
                    },
                Err(e) => {
                    &&& !parses(pattern@)
                    &&& parse_error(pattern@, e@)
                    &&& final(self).route_registry.entries() == old(self).route_registry.entries()
                    &&& final(self).route_registry.ids() == old(self).route_registry.ids()
                },
            },
    {
        self.route_registry.register_pattern(pattern, route_id)
    }

    /// Resolves `path` and pushes the route it names, returning that route.
    pub fn navigate_by_path(&mut self, path: &str) -> (r: Result<Route, String>)
        requires
            old(self).wf(),
        ensures
            final(self).wf(),
            final(self).route_registry == old(self).route_registry,
            r is Ok <==> exists|ph: int, i: int|
                first_hit(old(self).route_registry.entries(), normalized_path(path@), ph, i),
            r matches Ok(route) ==> {
                &&& exists|ph: int, i: int|
                    #[trigger] first_hit(
                        old(self).route_registry.entries(),
                        normalized_path(path@),
                        ph,
                        i,
                    ) && resolved_as(
                        route@,
                        old(self).route_registry.pattern_of(
                            old(self).route_registry.entries()[i].route_id,
                        ),
                        old(self).route_registry.entries()[i],
                        normalized_path(path@),
                        ph,
                    )
                &&& final(self).history.routes() == pushed(
                    old(self).history.routes(),
                    old(self).history.cur(),
                    route@,
                )
                &&& final(self).history.cur() == final(self).history.routes().len() - 1
            },
            r matches Err(e) ==> e@ == no_route_message(path@) && final(self).history == old(
                self,
            ).history,
    {
        match self.route_registry.resolve_path(path) {
            Some(route) => {
                let pushed_route = route.clone();
                self.navigate(pushed_route);
                Ok(route)
            },
            None => {
                let mut message = String::from_str("No route found for path: ");
                message.append(path);
                Err(message)
            },
        }
    }

    /// Pushes `route` (stack-style name for `navigate`).
    pub fn push(&mut self, route: Route)
        requires
            old(self).wf(),
        ensures
            final(self).wf(),
            final(self).history.routes() == pushed(
                old(self).history.routes(),
                old(self).history.cur(),
                route@,
            ),
            final(self).history.cur() == final(self).history.routes().len() - 1,
            final(self).route_registry == old(self).route_registry,
    {
        self.navigate(route);
    }

    /// Removes the top route.
    pub fn pop(&mut self) -> (r: bool)
        requires
            old(self).wf(),
        ensures
            final(self).wf(),
            r == (old(self).history.routes().len() > 1),
            r ==> final(self).history.routes() == old(self).history.routes().drop_last()
                && final(self).history.cur() == final(self).history.routes().len() - 1,
            !r ==> final(self).history.routes() == old(self).history.routes()
                && final(self).history.cur() == old(self).history.cur(),
            final(self).route_registry == old(self).route_registry,
    {
        self.history.pop()
    }

    /// Returns to the nearest route with `route_id` at or before the current one.
    pub fn pop_to(&mut self, route_id: u64) -> (r: bool)
        requires
            old(self).wf(),
        ensures
            final(self).wf(),
            r == pop_to_succeeds(old(self).history.routes(), old(self).history.cur(), route_id),
            r ==> exists|p: int|
                {
                    &&& crate::navigation::nearest_at_or_before(
                        old(self).history.routes(),
                        route_id,
                        old(self).history.cur() as int,
                        p,
                    )
                    &&& final(self).history.routes() == old(self).history.routes().take(p + 1)
                    &&& final(self).history.cur() == p
                },
            !r ==> final(self).history.routes() == old(self).history.routes()
                && final(self).history.cur() == old(self).history.cur(),
            final(self).route_registry == old(self).route_registry,
    {
        self.history.pop_to(route_id)
    }

    /// Truncates the history to its first route.
    pub fn pop_to_root(&mut self) -> (r: bool)
        requires
            old(self).wf(),
        ensures
            final(self).wf(),
            r == (old(self).history.routes().len() > 1),
            r ==> final(self).history.routes() == old(self).history.routes().take(1)
                && final(self).history.cur() == 0,
            !r ==> final(self).history.routes() == old(self).history.routes()
                && final(self).history.cur() == old(self).history.cur(),
            final(self).route_registry == old(self).route_registry,
    {
        self.history.pop_to_root()
    }

    /// Replaces the whole stack; its last route becomes current.
    pub fn set_stack(&mut self, stack: Vec<Route>)
        requires
            old(self).wf(),
        ensures
            final(self).wf(),
            final(self).history.routes() == crate::navigation::route_views(stack@),
            stack.len() == 0 ==> final(self).history.cur() == 0,
            stack.len() > 0 ==> final(self).history.cur() == stack.len() - 1,
            final(self).route_registry == old(self).route_registry,
    {
        self.history.set_stack(stack);
    }
}

} // verus!
