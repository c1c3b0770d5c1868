//! The bounded queue of candidate routes that feeds the pipeline.

use crate::counter::{count_one, counted};
use crate::prefilter::Route;
use std::collections::VecDeque;
use vstd::prelude::*;

verus! {

/// What a full queue does with a route that is offered to it.
#[derive(Clone, Copy, Debug, PartialEq, Eq, Structural)]
pub enum OverflowPolicy {
    /// The oldest pending route leaves, and is counted.
    DropOldest,
    /// The offered route is handed back; the producer waits and tries again.
    Block,
}

/// What became of a route that was offered.
pub enum PushOutcome {
    /// It is now the newest pending route.
    Enqueued,
    /// A route was dropped to make room; it is handed out.
    DroppedOldest(Route),
    /// The queue is full and blocks: the route is handed back.
    Full(Route),
}

/// A first-in, first-out queue of at most `capacity` routes.
pub struct RouteQueue {
    capacity: usize,
    policy: OverflowPolicy,
    dropped: u64,
    pending: VecDeque<Route>,
}

impl View for RouteQueue {
    type V = Seq<Route>;

    /// The pending routes, oldest first.
    closed spec fn view(&self) -> Seq<Route> {
        self.pending@
    }
}

/// The last `capacity` items of `items`, in their order.
pub open spec fn keep_last(items: Seq<Route>, capacity: nat) -> Seq<Route> {
    if items.len() <= capacity {
        items
    } else {
        items.subrange(items.len() - capacity, items.len() as int)
    }
}

/// The pending routes after a producer has offered `routes`, one by one, to
/// a drop-oldest queue that nothing is taken from meanwhile.
pub open spec fn flooded(pending: Seq<Route>, capacity: nat, routes: Seq<Route>) -> Seq<Route>
    decreases routes.len(),
{
    if routes.len() == 0 {
        pending
    } else {
        keep_last(flooded(pending, capacity, routes.drop_last()).push(routes.last()), capacity)
    }
}

impl RouteQueue {
    /// The queue holds no more than its capacity.
    #[verifier::type_invariant]
    spec fn within_capacity(self) -> bool {
        self.pending@.len() <= self.capacity
    }

    pub closed spec fn spec_capacity(&self) -> usize {
        self.capacity
    }

    pub closed spec fn spec_policy(&self) -> OverflowPolicy {
        self.policy
    }

    pub closed spec fn spec_dropped(&self) -> u64 {
        self.dropped
    }

    /// An empty queue.
    pub fn new(capacity: usize, policy: OverflowPolicy) -> (result: Self)
        ensures
            result@ == Seq::<Route>::empty(),
            result.capacity() == capacity,
            result.policy() == policy,
            result.dropped() == 0,
    {
        RouteQueue { capacity, policy, dropped: 0, pending: VecDeque::new() }
    }

    /// The most routes that can be pending.
    #[verifier::when_used_as_spec(spec_capacity)]
    pub fn capacity(&self) -> (capacity: usize)
        ensures
            capacity == self.spec_capacity(),
    {
        self.capacity
    }

    /// What the queue does when it is full.
    #[verifier::when_used_as_spec(spec_policy)]
    pub fn policy(&self) -> (policy: OverflowPolicy)
        ensures
            policy == self.spec_policy(),
    {
        self.policy
    }

    /// How many routes have been dropped to make room.
    #[verifier::when_used_as_spec(spec_dropped)]
    pub fn dropped(&self) -> (dropped: u64)
        ensures
            dropped == self.spec_dropped(),
    {
        self.dropped
    }

    /// The number of pending routes, which never exceeds the capacity.
    pub fn len(&self) -> (n: usize)
        ensures
            n == self@.len(),
            n <= self.capacity(),
    {
        proof {
            use_type_invariant(self);
        }
        self.pending.len()
    }

    /// Offers a route. With room left it joins the end. A full queue that
    /// drops gives up its oldest route, or the offered one itself where the
    /// capacity is 0, and counts it; a full queue that blocks hands the
    /// route back and stays as it was.
    pub fn push(&mut self, route: Route) -> (outcome: PushOutcome)
        ensures
            final(self).capacity() == old(self).capacity(),
            final(self).policy() == old(self).policy(),
            match outcome {
                PushOutcome::Enqueued => {
                    &&& old(self)@.len() < old(self).capacity()
                    &&& final(self)@ == old(self)@.push(route)
                    &&& final(self).dropped() == old(self).dropped()
                },
                PushOutcome::DroppedOldest(gone) => {
                    &&& old(self)@.len() == old(self).capacity()
                    &&& old(self).policy() == OverflowPolicy::DropOldest
                    &&& gone == old(self)@.push(route)[0]
                    &&& final(self)@ == old(self)@.push(route).drop_first()
                    &&& final(self).dropped() == counted(old(self).dropped())
                },
                PushOutcome::Full(back) => {
                    &&& old(self)@.len() == old(self).capacity()
                    &&& old(self).policy() == OverflowPolicy::Block
                    &&& back == route
                    &&& final(self)@ == old(self)@
                    &&& final(self).dropped() == old(self).dropped()
                },
            },
            old(self).policy() == OverflowPolicy::DropOldest ==> final(self)@ == keep_last(
                old(self)@.push(route),
                old(self).capacity() as nat,
            ),
    {
        proof {
            use_type_invariant(&*self);
        }
        let mut pending: VecDeque<Route> = VecDeque::new();
        std::mem::swap(&mut pending, &mut self.pending);
        let outcome = if pending.len() < self.capacity {
            pending.push_back(route);
            PushOutcome::Enqueued
        } else {
            match self.policy {
                OverflowPolicy::Block => PushOutcome::Full(route),
                OverflowPolicy::DropOldest => {
                    self.dropped = count_one(self.dropped);
                    pending.push_back(route);
                    let gone = pending.pop_front().unwrap();
                    proof {
                        let all = old(self)@.push(route);
                        assert(pending@ =~= all.drop_first());
                        assert(all.drop_first() =~= keep_last(all, self.capacity as nat));
                    }
                    PushOutcome::DroppedOldest(gone)
                },
            }
        };
        self.pending = pending;
        outcome
    }

    /// Takes the oldest pending route.
    pub fn pop(&mut self) -> (route: Option<Route>)
        ensures
            final(self).capacity() == old(self).capacity(),
            final(self).policy() == old(self).policy(),
            final(self).dropped() == old(self).dropped(),
            match route {
                Some(r) => old(self)@.len() > 0 && r == old(self)@[0] && final(self)@ == old(self)@.drop_first(),
                None => old(self)@.len() == 0 && final(self)@ == old(self)@,
            },
    {
        proof {
            use_type_invariant(&*self);
        }
        let mut pending: VecDeque<Route> = VecDeque::new();
        std::mem::swap(&mut pending, &mut self.pending);
        let route = pending.pop_front();
        proof {
            if route is Some {
                assert(pending@ =~= old(self)@.drop_first());
            }
        }
        self.pending = pending;
        route
    }
}

/// However many routes a producer offers to a drop-oldest queue, the queue
/// then holds the newest of all that were pending or offered, as many as
/// fit, in their order of arrival: the oldest are dropped, and no others.
pub proof fn lemma_flood_keeps_newest(pending: Seq<Route>, capacity: nat, routes: Seq<Route>)
    requires
        pending.len() <= capacity,
    ensures
        flooded(pending, capacity, routes) == keep_last(pending + routes, capacity),
    decreases routes.len(),
{
    if routes.len() == 0 {
        assert(pending + routes =~= pending);
    } else {
        let earlier = routes.drop_last();
        lemma_flood_keeps_newest(pending, capacity, earlier);
        let kept = keep_last(pending + earlier, capacity);
        assert((pending + earlier).push(routes.last()) =~= pending + routes);
        assert(keep_last(kept.push(routes.last()), capacity) =~= keep_last(pending + routes, capacity));
    }
}

} // verus!
