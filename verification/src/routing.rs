//! Keyword routing of queries to models.
use vstd::prelude::*;
use crate::text::{lowercase, seq_contains, str_contains, str_eq, to_lowercase};

verus! {

/// A route: queries that name it or contain one of its examples go to `target_model_id`.
#[derive(Debug, Clone)]
pub struct RouteDefinition {
    pub name: String,
    pub description: String,
    pub target_model_id: String,
    pub examples: Vec<String>,
}

/// Routes queries to models by keyword.
#[derive(Default, Clone)]
pub struct SemanticRouter {
    pub routes: Vec<RouteDefinition>,
}

/// The route matches the lowercased query: the query is the route's name (case-insensitively)
/// or contains one of its examples (case-insensitively).
pub open spec fn route_matches(r: RouteDefinition, lower_query: Seq<char>) -> bool {
    ||| lowercase(r.name@) == lower_query
    ||| exists|j: int| 0 <= j < r.examples@.len() && seq_contains(lower_query, lowercase(#[trigger] r.examples@[j]@))
}

/// The target of the first matching route.
pub open spec fn first_matching_target(routes: Seq<RouteDefinition>, lower_query: Seq<char>) -> Option<Seq<char>>
    decreases routes.len(),
{
    if routes.len() == 0 {
        None
    } else if route_matches(routes[0], lower_query) {
        Some(routes[0].target_model_id@)
    } else {
        first_matching_target(routes.drop_first(), lower_query)
    }
}

/// Where a query goes: the first matching route's target, else the first route's target,
/// else nowhere.
pub open spec fn routed_target(routes: Seq<RouteDefinition>, lower_query: Seq<char>) -> Option<Seq<char>> {
    match first_matching_target(routes, lower_query) {
        Some(t) => Some(t),
        None => if routes.len() > 0 { Some(routes[0].target_model_id@) } else { None },
    }
}

fn matches_route(r: &RouteDefinition, lower_query: &str) -> (b: bool)
    ensures
        b == route_matches(*r, lower_query@),
{
    let name = to_lowercase(r.name.as_str());
    if str_eq(name.as_str(), lower_query) {
        return true;
    }
    let mut j: usize = 0;
    while j < r.examples.len()
        invariant
            j <= r.examples@.len(),
            forall|k: int| 0 <= k < j ==> !seq_contains(lower_query@, lowercase(#[trigger] r.examples@[k]@)),
        decreases r.examples@.len() - j,
    {
        let ex = to_lowercase(r.examples[j].as_str());
        if str_contains(lower_query, ex.as_str()) {
            return true;
        }
        j = j + 1;
    }
    false
}

impl SemanticRouter {
    /// A router with no routes.
    pub fn new() -> (r: Self)
        ensures
            r.routes@.len() == 0,
    {
        Self { routes: Vec::new() }
    }

    /// Adds a route after the existing ones.
    pub fn add_route(&mut self, route: RouteDefinition)
        ensures
            final(self).routes@ == old(self).routes@.push(route),
    {
        self.routes.push(route);
    }

    /// Lightweight routing based on keywords and exact string matches: the target of the
    /// first route the query matches (see `route_matches`), else of the first route.
    pub fn route_query(&self, query: &str) -> (r: Option<String>)
        ensures
            match r {
                Some(t) => routed_target(self.routes@, lowercase(query@)) == Some(t@),
                None => routed_target(self.routes@, lowercase(query@)) is None,
            },
    {
        let query_lower = to_lowercase(query);
        self.route_lowercased(query_lower.as_str())
    }

    /// Routes a query that is already lowercased (see `routed_target`).
    pub fn route_lowercased(&self, query_lower: &str) -> (r: Option<String>)
        ensures
            match r {
                Some(t) => routed_target(self.routes@, query_lower@) == Some(t@),
                None => routed_target(self.routes@, query_lower@) is None,
            },
{
        let ghost lq = query_lower@;
        let mut i: usize = 0;
        assert(self.routes@.skip(0) =~= self.routes@);
        while i < self.routes.len()
            invariant
                i <= self.routes@.len(),
                lq == query_lower@,
                first_matching_target(self.routes@, lq) == first_matching_target(self.routes@.skip(i as int), lq),
            decreases self.routes@.len() - i,
        {
            proof {
                let rest = self.routes@.skip(i as int);
                assert(rest[0] == self.routes@[i as int]);
                assert(rest.drop_first() =~= self.routes@.skip(i + 1));
            }
            if matches_route(&self.routes[i], query_lower) {
                proof {
                    let rest = self.routes@.skip(i as int);
                    assert(first_matching_target(rest, lq) == Some(rest[0].target_model_id@));
                }
                return Some(self.routes[i].target_model_id.clone());
            }
            i = i + 1;
        }
        proof {
            assert(self.routes@.skip(i as int) =~= Seq::<RouteDefinition>::empty());
        }
        if self.routes.len() > 0 {
            Some(self.routes[0].target_model_id.clone())
        } else {
            None
        }
    }
}

} // verus!
