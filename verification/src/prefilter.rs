//! Cheap, synchronous accept/reject gate for candidate routes.

use vstd::prelude::*;

verus! {

/// A candidate arbitrage route.
///
/// `estimated_profit` is an integer profit key: any two routes and the
/// threshold they are held against are expressed on one scale chosen by the
/// caller, and only the order of the keys matters to the prefilter.
pub struct Route {
    pub hops: Vec<String>,
    pub estimated_profit: i64,
    pub token_path: Vec<String>,
}

/// Thresholds of the prefilter.
pub struct RoutePrefilter {
    pub min_profit_threshold: i64,
    pub max_hops: usize,
}

impl RoutePrefilter {
    /// The decision rule: at most `max_hops` hops, and a profit that is not
    /// below the threshold.
    pub open spec fn accepts(&self, route: Route) -> bool {
        route.hops@.len() <= self.max_hops && route.estimated_profit >= self.min_profit_threshold
    }

    /// The accepted routes of `routes`, in the order in which they came.
    pub open spec fn accepted(&self, routes: Seq<Route>) -> Seq<Route> {
        routes.filter(|r: Route| self.accepts(r))
    }

    pub fn new(min_profit_threshold: i64, max_hops: usize) -> (result: Self)
        ensures
            result.min_profit_threshold == min_profit_threshold,
            result.max_hops == max_hops,
    {
        RoutePrefilter { min_profit_threshold, max_hops }
    }

    /// Decides one route; the hop count is tested first.
    pub fn filter_route(&self, route: &Route) -> (accepted: bool)
        ensures
            accepted == self.accepts(*route),
    {
        if route.hops.len() > self.max_hops {
            return false;
        }
        if route.estimated_profit < self.min_profit_threshold {
            return false;
        }
        true
    }

    /// Stable filter of a batch: exactly the accepted routes are kept, each
    /// untouched, in the order in which they came.
    pub fn prefilter_batch(&self, routes: Vec<Route>) -> (kept: Vec<Route>)
        ensures
            kept@ == self.accepted(routes@),
    {
        let ghost pred = |r: Route| self.accepts(r);
        let ghost all = routes@;
        let mut rest = routes;
        let mut stack: Vec<Route> = Vec::new();
        while rest.len() > 0
            invariant
                pred == (|r: Route| self.accepts(r)),
                all.filter(pred) == rest@.filter(pred) + stack@.reverse(),
            decreases rest.len(),
        {
            let ghost before = rest@;
            let ghost stack_before = stack@;
            let route = rest.pop().unwrap();
            proof {
                reveal(Seq::filter);
                assert(before.drop_last() == rest@);
                assert(before.last() == route);
            }
            if self.filter_route(&route) {
                stack.push(route);
                assert(stack@.reverse() =~= seq![route] + stack_before.reverse());
                assert(before.filter(pred) == rest@.filter(pred).push(route));
                assert(rest@.filter(pred).push(route) + stack_before.reverse() =~= rest@.filter(pred)
                    + stack@.reverse());
            } else {
                assert(before.filter(pred) == rest@.filter(pred));
            }
        }
        proof {
            reveal(Seq::filter);
            assert(rest@.filter(pred) =~= Seq::<Route>::empty());
            assert(all.filter(pred) =~= stack@.reverse());
        }
        let mut kept: Vec<Route> = Vec::new();
        while stack.len() > 0
            invariant
                all.filter(pred) == kept@ + stack@.reverse(),
            decreases stack.len(),
        {
            let ghost before = stack@;
            let ghost kept_before = kept@;
            let route = stack.pop().unwrap();
            kept.push(route);
            proof {
                assert(before.reverse() =~= seq![route] + stack@.reverse());
                assert(kept_before + before.reverse() =~= kept@ + stack@.reverse());
            }
        }
        assert(all.filter(pred) =~= kept@);
        kept
    }
}

} // verus!
