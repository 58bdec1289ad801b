//! Navigation history: a stack of routes with a current position, and a
//! reverse index from route id to the positions that hold it.

use std::collections::HashMap;
use vstd::prelude::*;
use crate::route::{same_route, Route, RouteView};

verus! {

broadcast use vstd::std_specs::hash::group_hash_axioms;

/// The views of a sequence of routes.
pub open spec fn route_views(s: Seq<Route>) -> Seq<RouteView> {
    s.map_values(|r: Route| r@)
}

/// The positions in `s` that hold a route with id `id`, ascending.
pub open spec fn positions_of(s: Seq<RouteView>, id: u64) -> Seq<usize>
    decreases s.len(),
{
    if s.len() == 0 {
        Seq::empty()
    } else if s.last().id == id {
        positions_of(s.drop_last(), id).push((s.len() - 1) as usize)
    } else {
        positions_of(s.drop_last(), id)
    }
}

/// The reverse index lists, for every id on the stack, its positions.
pub open spec fn index_matches(index: Map<u64, Vec<usize>>, s: Seq<RouteView>) -> bool {
    forall|id: u64|
        #![trigger index.contains_key(id)]
        #![trigger positions_of(s, id)]
        (index.contains_key(id) <==> positions_of(s, id).len() > 0) && (index.contains_key(id)
            ==> index[id]@ == positions_of(s, id))
}

/// The stack after pushing `r` at position `cur`: the routes after `cur`
/// are dropped.
pub open spec fn pushed(s: Seq<RouteView>, cur: nat, r: RouteView) -> Seq<RouteView> {
    if s.len() > 0 {
        s.take(cur as int + 1).push(r)
    } else {
        seq![r]
    }
}

/// The stack after replacing the route at position `cur` with `r`.
pub open spec fn replaced(s: Seq<RouteView>, cur: nat, r: RouteView) -> Seq<RouteView> {
    if s.len() > 0 {
        s.update(cur as int, r)
    } else {
        seq![r]
    }
}

/// The position that restoring from a stack of `len` routes at `idx`
/// gives: `idx` clamped onto the stack, or 0 for an empty one.
pub open spec fn restored_index(len: nat, idx: usize) -> nat {
    if len == 0 {
        0
    } else if idx < len {
        idx as nat
    } else {
        (len - 1) as nat
    }
}

/// `pop_to(id)` finds a route to return to from position `cur`.
pub open spec fn pop_to_succeeds(s: Seq<RouteView>, cur: nat, id: u64) -> bool {
    &&& s.len() > 0
    &&& s[cur as int].id != id
    &&& exists|p: int| nearest_at_or_before(s, id, cur as int, p)
}

/// `p` is the last position at or before `cur` that holds `id`.
pub open spec fn nearest_at_or_before(s: Seq<RouteView>, id: u64, cur: int, p: int) -> bool {
    &&& 0 <= p <= cur < s.len()
    &&& s[p].id == id
    &&& forall|q: int| p < q <= cur ==> s[q].id != id
}

proof fn lemma_positions(s: Seq<RouteView>, id: u64)
    requires
        s.len() <= usize::MAX,
    ensures
        forall|k: int|
            0 <= k < positions_of(s, id).len() ==> {
                let p = #[trigger] positions_of(s, id)[k] as int;
                0 <= p < s.len() && s[p].id == id
            },
        forall|k: int, l: int|
            0 <= k < l < positions_of(s, id).len() ==> positions_of(s, id)[k]
                < positions_of(s, id)[l],
        forall|p: int|
            0 <= p < s.len() && s[p].id == id ==> exists|k: int|
                0 <= k < positions_of(s, id).len() && positions_of(s, id)[k] == p,
    decreases s.len(),
{
    if s.len() > 0 {
        let d = s.drop_last();
        lemma_positions(d, id);
        let ps = positions_of(s, id);
        let pd = positions_of(d, id);
        assert forall|p: int| 0 <= p < s.len() && s[p].id == id implies exists|k: int|
            0 <= k < ps.len() && ps[k] == p by {
            if p == s.len() - 1 {
                assert(s.last() == s[p]);
                assert(ps == pd.push((s.len() - 1) as usize));
                assert(ps[ps.len() - 1] == p);
            } else {
                assert(d[p].id == id);
                let k = choose|k: int| 0 <= k < pd.len() && pd[k] == p;
                assert(ps[k] == p);
            }
        }
    }
}

/// An ordered stack of routes with a current position.
#[derive(Debug)]
pub struct NavigationHistory {
    stack: Vec<Route>,
    current_index: usize,
    index: HashMap<u64, Vec<usize>>,
}

impl NavigationHistory {
    /// The routes on the stack, bottom first.
    pub closed spec fn routes(&self) -> Seq<RouteView> {
        route_views(self.stack@)
    }

    /// The current position.
    pub closed spec fn cur(&self) -> nat {
        self.current_index as nat
    }

    /// The position is on the stack (or 0 when it is empty) and the reverse
    /// index matches the stack.
    pub closed spec fn wf(&self) -> bool {
        &&& (self.stack.len() == 0 ==> self.current_index == 0)
        &&& (self.stack.len() > 0 ==> self.current_index < self.stack.len())
        &&& index_matches(self.index@, route_views(self.stack@))
    }

    /// Same routes, pairwise, at the same position.
    pub closed spec fn same_as(&self, other: &NavigationHistory) -> bool {
        &&& self.stack.len() == other.stack.len()
        &&& forall|i: int| 0 <= i < self.stack.len() ==> same_route(#[trigger] self.stack@[i], other.stack@[i])
        &&& self.current_index == other.current_index
    }

    /// A well-formed history's position is on its stack, or 0 when the stack
    /// is empty.
    pub proof fn lemma_position_in_bounds(&self)
        requires
            self.wf(),
        ensures
            self.routes().len() == 0 ==> self.cur() == 0,
            self.routes().len() > 0 ==> self.cur() < self.routes().len(),
    {
    }

    fn rebuild_index(&mut self)
        ensures
            final(self).stack == old(self).stack,
            final(self).current_index == (if old(self).stack.len() == 0 {
                0
            } else if old(self).current_index < old(self).stack.len() {
                old(self).current_index
            } else {
                (old(self).stack.len() - 1) as usize
            }),
            final(self).wf(),
    {
        let mut index: HashMap<u64, Vec<usize>> = HashMap::new();
        let ghost s = route_views(self.stack@);
        let mut i: usize = 0;
        while i < self.stack.len()
            invariant
                i <= self.stack.len(),
                s == route_views(self.stack@),
                self.stack == old(self).stack,
                self.current_index == old(self).current_index,
                index_matches(index@, s.take(i as int)),
            decreases self.stack.len() - i,
        {
            let id = self.stack[i].id;
            let ghost prev = s.take(i as int);
            let ghost next = s.take(i + 1);
            assert(next.drop_last() == prev);
            assert(next.last().id == id);
            let ghost old_index = index@;
            assert(positions_of(next, id) == positions_of(prev, id).push(i as usize));
            let mut positions = match index.remove(&id) {
                Some(v) => v,
                None => {
                    assert(positions_of(prev, id) =~= Seq::<usize>::empty());
                    Vec::new()
                },
            };
            assert(positions@ == positions_of(prev, id));
            positions.push(i);
            index.insert(id, positions);
            assert forall|other: u64| other != id implies positions_of(next, other)
                == positions_of(prev, other) by {}
            assert forall|other: u64| other != id implies (index@.contains_key(other)
                == old_index.contains_key(other)) && (index@.contains_key(other) ==> index@[other]
                == old_index[other]) by {}
            assert(index_matches(index@, next));
            i = i + 1;
        }
        assert(s.take(i as int) == s);
        self.index = index;
        if self.stack.len() == 0 {
            self.current_index = 0;
        } else if self.current_index >= self.stack.len() {
            self.current_index = self.stack.len() - 1;
        }
    }

    /// A history holding `initial_route` alone.
    pub fn new(initial_route: Route) -> (r: NavigationHistory)
        ensures
            r.wf(),
            r.routes() == seq![initial_route@],
            r.cur() == 0,
    {
        let mut stack: Vec<Route> = Vec::new();
        stack.push(initial_route);
        let mut out = NavigationHistory { stack, current_index: 0, index: HashMap::new() };
        out.rebuild_index();
        assert(out.routes() =~= seq![initial_route@]);
        out
    }

    /// A history with no routes.
    pub fn empty() -> (r: NavigationHistory)
        ensures
            r.wf(),
            r.routes() == Seq::<RouteView>::empty(),
            r.cur() == 0,
    {
        let mut out = NavigationHistory { stack: Vec::new(), current_index: 0, index: HashMap::new() };
        out.rebuild_index();
        assert(out.routes() =~= Seq::<RouteView>::empty());
        out
    }

    /// The route at the current position.
    pub fn current(&self) -> (r: Option<&Route>)
        requires
            self.wf(),
        ensures
            r is Some <==> self.routes().len() > 0,
            r is Some ==> r->0@ == self.routes()[self.cur() as int],
    {
        if self.current_index < self.stack.len() {
            Some(&self.stack[self.current_index])
        } else {
            None
        }
    }

    /// Drops the routes after the current one, then pushes `route` and makes
    /// it current.
    pub fn push(&mut self, route: Route)
        requires
            old(self).wf(),
        ensures
            final(self).wf(),
            final(self).routes() == pushed(old(self).routes(), old(self).cur(), route@),
            final(self).cur() == final(self).routes().len() - 1,
    {
        let ghost old_routes = self.routes();
        if self.current_index < self.stack.len() {
            self.stack.truncate(self.current_index + 1);
        }
        self.stack.push(route);
        self.current_index = self.stack.len() - 1;
        self.rebuild_index();
        proof {
            if old_routes.len() > 0 {
                assert(self.routes() =~= old_routes.take(self.current_index as int).push(route@));
            } else {
                assert(self.routes() =~= seq![route@]);
            }
        }
    }

    /// Puts `route` in place of the current one; on an empty history, pushes
    /// it.
    pub fn replace(&mut self, route: Route)
        requires
            old(self).wf(),
        ensures
            final(self).wf(),
            final(self).routes() == replaced(old(self).routes(), old(self).cur(), route@),
            final(self).cur() == old(self).cur(),
    {
        let ghost old_routes = self.routes();
        if self.stack.len() > 0 {
            self.stack.set(self.current_index, route);
            assert(self.routes() =~= old_routes.update(self.current_index as int, route@));
        } else {
            self.stack.push(route);
            self.current_index = 0;
            assert(self.routes() =~= seq![route@]);
        }
        self.rebuild_index();
    }

    /// Moves one position back; false at the bottom.
    pub fn back(&mut self) -> (r: bool)
        requires
            old(self).wf(),
        ensures
            final(self).wf(),
            final(self).routes() == old(self).routes(),
            r == (old(self).cur() > 0),
            r ==> final(self).cur() == old(self).cur() - 1,
            !r ==> final(self).cur() == old(self).cur(),
    {
        if self.can_go_back() {
            self.current_index = self.current_index - 1;
            true
        } else {
            false
        }
    }

    /// Moves one position forward; false at the top.
    pub fn forward(&mut self) -> (r: bool)
        requires
            old(self).wf(),
        ensures
            final(self).wf(),
            final(self).routes() == old(self).routes(),
            r == (old(self).cur() + 1 < old(self).routes().len()),
            r ==> final(self).cur() == old(self).cur() + 1,
            !r ==> final(self).cur() == old(self).cur(),
    {
        if self.can_go_forward() {
            self.current_index = self.current_index + 1;
            true
        } else {
            false
        }
    }

    /// Whether there is a position before the current one.
    pub fn can_go_back(&self) -> (r: bool)
        ensures
            r == (self.cur() > 0),
    {
        self.current_index > 0
    }

    /// Whether there is a position after the current one.
    pub fn can_go_forward(&self) -> (r: bool)
        ensures
            r == (self.cur() + 1 < self.routes().len()),
    {
        self.current_index < self.stack.len().saturating_sub(1)
    }

    /// The number of routes on the stack.
    pub fn depth(&self) -> (r: usize)
        ensures
            r == self.routes().len(),
    {
        self.stack.len()
    }

    /// Keeps only the current route.
    pub fn clear(&mut self)
        requires
            old(self).wf(),
        ensures
            final(self).wf(),
            old(self).routes().len() > 0 ==> final(self).routes() == seq![
                old(self).routes()[old(self).cur() as int],
            ],
            old(self).routes().len() == 0 ==> final(self).routes() == Seq::<RouteView>::empty(),
            final(self).cur() == 0,
    {
        let ghost old_routes = self.routes();
        if self.stack.len() > 0 {
            let current = self.stack.remove(self.current_index);
            let mut stack: Vec<Route> = Vec::new();
            stack.push(current);
            self.stack = stack;
            assert(self.routes() =~= seq![old_routes[self.current_index as int]]);
        } else {
            assert(self.routes() =~= Seq::<RouteView>::empty());
        }
        self.current_index = 0;
        self.rebuild_index();
    }

    /// Replaces the whole history with `route`.
    pub fn reset(&mut self, route: Route)
        requires
            old(self).wf(),
        ensures
            final(self).wf(),
            final(self).routes() == seq![route@],
            final(self).cur() == 0,
    {
        let mut stack: Vec<Route> = Vec::new();
        stack.push(route);
        self.stack = stack;
        self.current_index = 0;
        self.rebuild_index();
        assert(self.routes() =~= seq![route@]);
    }

    /// The routes on the stack, bottom first.
    pub fn all_routes(&self) -> (r: &[Route])
        ensures
            route_views(r@) == self.routes(),
    {
        self.stack.as_slice()
    }

    /// The current position.
    pub fn current_index(&self) -> (r: usize)
        ensures
            r == self.cur(),
    {
        self.current_index
    }

    /// The stack and the current position, for persistence.
    pub fn into_parts(self) -> (r: (Vec<Route>, usize))
        ensures
            route_views(r.0@) == self.routes(),
            r.1 == self.cur(),
    {
        (self.stack, self.current_index)
    }

    /// A history restored from a stack and a position, which is clamped onto
    /// the stack.
    pub fn from_parts(stack: Vec<Route>, current_index: usize) -> (r: NavigationHistory)
        ensures
            r.wf(),
            r.routes() == route_views(stack@),
            stack.len() == 0 ==> r.cur() == 0,
            r.cur() == restored_index(stack.len() as nat, current_index),
    {
        if stack.len() == 0 {
            return NavigationHistory::empty();
        }
        let n = stack.len();
        let idx = if current_index < n {
            current_index
        } else {
            n - 1
        };
        let mut out = NavigationHistory { stack, current_index: idx, index: HashMap::new() };
        out.rebuild_index();
        out
    }

    /// Replaces the stack; the last route becomes current. An empty stack
    /// empties the history.
    pub fn set_stack(&mut self, stack: Vec<Route>)
        requires
            old(self).wf(),
        ensures
            final(self).wf(),
            final(self).routes() == route_views(stack@),
            stack.len() == 0 ==> final(self).cur() == 0,
            stack.len() > 0 ==> final(self).cur() == stack.len() - 1,
    {
        let n = stack.len();
        self.stack = stack;
        self.current_index = if n == 0 {
            0
        } else {
            n - 1
        };
        self.rebuild_index();
    }

    /// Removes the top route and makes the new top current; false when at
    /// most one route is left.
    pub fn pop(&mut self) -> (r: bool)
        requires
            old(self).wf(),
        ensures
            final(self).wf(),
            r == (old(self).routes().len() > 1),
            r ==> final(self).routes() == old(self).routes().drop_last(),
            r ==> final(self).cur() == final(self).routes().len() - 1,
            !r ==> final(self).routes() == old(self).routes() && final(self).cur() == old(
                self,
            ).cur(),
    {
        if self.stack.len() <= 1 {
            return false;
        }
        let ghost old_routes = self.routes();
        let _ = self.stack.pop();
        self.current_index = self.stack.len() - 1;
        self.rebuild_index();
        assert(self.routes() =~= old_routes.drop_last());
        true
    }

    /// Truncates the stack so that the nearest route with id `route_id` at or
    /// before the current position becomes current. False, changing nothing,
    /// when there is none or the current route already has that id.
    pub fn pop_to(&mut self, route_id: u64) -> (r: bool)
        requires
            old(self).wf(),
        ensures
            final(self).wf(),
            r == pop_to_succeeds(old(self).routes(), old(self).cur(), route_id),
            r ==> exists|p: int|
                {
                    &&& nearest_at_or_before(old(self).routes(), route_id, old(self).cur() as int, p)
                    &&& final(self).routes() == old(self).routes().take(p + 1)
                    &&& final(self).cur() == p
                },
            !r ==> final(self).routes() == old(self).routes() && final(self).cur() == old(
                self,
            ).cur(),
    {
        let ghost s = self.routes();
        let cur = self.current_index;
        if cur >= self.stack.len() {
            return false;
        }
        if self.stack[cur].id == route_id {
            return false;
        }
        proof {
            lemma_positions(s, route_id);
        }
        let pos: usize;
        match self.index.get(&route_id) {
            None => {
                assert forall|p: int| !nearest_at_or_before(s, route_id, cur as int, p) by {
                    if nearest_at_or_before(s, route_id, cur as int, p) {
                        assert(positions_of(s, route_id).len() > 0);
                    }
                }
                return false;
            },
            Some(v) => {
                let ghost ps = positions_of(s, route_id);
                assert(v@ == ps);
                let mut k: usize = v.len();
                while k > 0 && v[k - 1] > cur
                    invariant
                        k <= v.len(),
                        v@ == ps,
                        forall|l: int| k <= l < v.len() ==> v@[l] > cur,
                    decreases k,
                {
                    k = k - 1;
                }
                if k == 0 {
                    assert forall|p: int| !nearest_at_or_before(s, route_id, cur as int, p) by {
                        if nearest_at_or_before(s, route_id, cur as int, p) {
                            let l = choose|l: int| 0 <= l < ps.len() && ps[l] == p;
                            assert(v@[l] > cur);
                        }
                    }
                    return false;
                }
                pos = v[k - 1];
                assert forall|q: int| pos < q <= cur implies s[q].id != route_id by {
                    if s[q].id == route_id {
                        let l = choose|l: int| 0 <= l < ps.len() && ps[l] == q;
                        if l >= k {
                            assert(v@[l] > cur);
                        } else if l < k - 1 {
                            assert(ps[l] < ps[k - 1]);
                        }
                    }
                }
                assert(nearest_at_or_before(s, route_id, cur as int, pos as int));
            },
        }
        self.stack.truncate(pos + 1);
        self.current_index = pos;
        self.rebuild_index();
        assert(self.routes() =~= s.take(pos + 1));
        true
    }

    /// The route at position `i`, if there is one.
    pub fn route_at(&self, i: usize) -> (r: Option<&Route>)
        ensures
            r is Some <==> i < self.routes().len(),
            r is Some ==> r->0@ == self.routes()[i as int],
    {
        if i < self.stack.len() {
            Some(&self.stack[i])
        } else {
            None
        }
    }

    /// The route that `pop_to(route_id)` would make current, without
    /// changing anything.
    pub fn preview_pop_to(&self, route_id: u64) -> (r: Option<&Route>)
        requires
            self.wf(),
        ensures
            r is Some <==> pop_to_succeeds(self.routes(), self.cur(), route_id),
            r is Some ==> exists|p: int|
                nearest_at_or_before(self.routes(), route_id, self.cur() as int, p) && r->0@
                    == self.routes()[p],
    {
        let ghost s = self.routes();
        let cur = self.current_index;
        if cur >= self.stack.len() || self.stack[cur].id == route_id {
            return None;
        }
        let mut p: usize = cur;
        while p > 0 && self.stack[p].id != route_id
            invariant
                p <= cur < self.stack.len(),
                s == self.routes(),
                self.stack[cur as int].id != route_id,
                forall|q: int| p < q <= cur ==> s[q].id != route_id,
            decreases p,
        {
            p = p - 1;
        }
        if self.stack[p].id == route_id {
            assert(nearest_at_or_before(s, route_id, cur as int, p as int));
            Some(&self.stack[p])
        } else {
            assert forall|q: int| !nearest_at_or_before(s, route_id, cur as int, q) by {}
            None
        }
    }

    /// Truncates the stack to its first route; false when at most one route
    /// is on it.
    pub fn pop_to_root(&mut self) -> (r: bool)
        requires
            old(self).wf(),
        ensures
            final(self).wf(),
            r == (old(self).routes().len() > 1),
            r ==> final(self).routes() == old(self).routes().take(1) && final(self).cur() == 0,
            !r ==> final(self).routes() == old(self).routes() && final(self).cur() == old(
                self,
            ).cur(),
    {
        if self.stack.len() <= 1 {
            return false;
        }
        let ghost s = self.routes();
        self.stack.truncate(1);
        self.current_index = 0;
        self.rebuild_index();
        assert(self.routes() =~= s.take(1));
        true
    }
}

/// Restoring a history from a non-empty stack and a position, then
/// splitting it again, gives back the same stack and the position clamped
/// into `0..=len-1`.
pub proof fn lemma_parts_round_trip(stack: Seq<RouteView>, idx: usize)
    requires
        stack.len() > 0,
    ensures
        restored_index(stack.len(), idx) == vstd::math::clip(
            vstd::math::min(idx as int, stack.len() - 1),
        ),
{
}

/// Returning to a route with `pop_to` a second time finds it already
/// current: the second call fails and changes nothing.
pub proof fn lemma_pop_to_idempotent(s: Seq<RouteView>, cur: nat, id: u64, p: int)
    requires
        pop_to_succeeds(s, cur, id),
        nearest_at_or_before(s, id, cur as int, p),
    ensures
        !pop_to_succeeds(s.take(p + 1), p as nat, id),
{
}

impl PartialEq for NavigationHistory {
    fn eq(&self, other: &NavigationHistory) -> (r: bool) {
        if self.stack.len() != other.stack.len() || self.current_index != other.current_index {
            return false;
        }
        let mut i: usize = 0;
        while i < self.stack.len()
            invariant
                i <= self.stack.len() == other.stack.len(),
                forall|k: int| 0 <= k < i ==> same_route(#[trigger] self.stack@[k], other.stack@[k]),
            decreases self.stack.len() - i,
        {
            if !self.stack[i].eq(&other.stack[i]) {
                return false;
            }
            i = i + 1;
        }
        true
    }
}

impl vstd::std_specs::cmp::PartialEqSpecImpl for NavigationHistory {
    open spec fn obeys_eq_spec() -> bool {
        true
    }

    open spec fn eq_spec(&self, other: &NavigationHistory) -> bool {
        self.same_as(other)
    }
}

} // verus!
