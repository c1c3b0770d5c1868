//! Chain watcher: the latest observed block height of one chain.

use crate::connection::ConnectionError;
use vstd::prelude::*;

verus! {

/// Watches one chain and keeps the highest block height seen on it.
pub struct BlockListener {
    pub rpc_url: String,
    pub chain_id: u64,
    pub latest_block: u64,
    /// Whether the connection to the block source stands.
    pub connected: bool,
}

/// `top` is the highest of `start` and every height in `heights`: it bounds
/// all of them and is one of them.
pub open spec fn is_highest(top: u64, start: u64, heights: Seq<u64>) -> bool {
    &&& top >= start
    &&& forall|i: int| 0 <= i < heights.len() ==> top >= #[trigger] heights[i]
    &&& (top == start || heights.contains(top))
}

impl BlockListener {
    pub fn new(rpc_url: &str, chain_id: u64) -> (result: Self)
        ensures
            result.rpc_url@ == rpc_url@,
            result.chain_id == chain_id,
            result.latest_block == 0,
            !result.connected,
    {
        BlockListener { rpc_url: rpc_url.to_owned(), chain_id, latest_block: 0, connected: false }
    }

    /// Takes the block source's answer to a connection attempt. An accepted
    /// attempt marks the watcher connected; a refused one is reported and
    /// leaves the watcher as it was.
    pub fn connection_result(&mut self, accepted: bool) -> (result: Result<(), ConnectionError>)
        ensures
            result is Ok <==> accepted,
            result matches Err(e) ==> e == ConnectionError::Refused,
            final(self).connected == (old(self).connected || accepted),
            final(self).latest_block == old(self).latest_block,
            final(self).chain_id == old(self).chain_id,
            final(self).rpc_url == old(self).rpc_url,
    {
        if accepted {
            self.connected = true;
            Ok(())
        } else {
            Err(ConnectionError::Refused)
        }
    }

    /// Takes one height notification. The state moves only forward: a height
    /// that is not above the current one is a duplicate or a regression and
    /// leaves the state as it was. Returns whether the state moved.
    pub fn observe(&mut self, height: u64) -> (advanced: bool)
        ensures
            advanced == (height > old(self).latest_block),
            final(self).latest_block == if advanced { height } else { old(self).latest_block },
            final(self).latest_block >= old(self).latest_block,
            final(self).chain_id == old(self).chain_id,
            final(self).rpc_url == old(self).rpc_url,
            final(self).connected == old(self).connected,
    {
        if height > self.latest_block {
            self.latest_block = height;
            true
        } else {
            false
        }
    }

    /// Takes a run of height notifications in the order given.
    pub fn replay(&mut self, heights: &Vec<u64>)
        ensures
            is_highest(final(self).latest_block, old(self).latest_block, heights@),
            final(self).chain_id == old(self).chain_id,
            final(self).rpc_url == old(self).rpc_url,
            final(self).connected == old(self).connected,
    {
        let mut i: usize = 0;
        while i < heights.len()
            invariant
                i <= heights.len(),
                is_highest(self.latest_block, old(self).latest_block, heights@.take(i as int)),
                self.chain_id == old(self).chain_id,
                self.rpc_url == old(self).rpc_url,
                self.connected == old(self).connected,
            decreases heights.len() - i,
        {
            let ghost before = self.latest_block;
            let ghost seen = heights@.take(i as int);
            self.observe(heights[i]);
            i += 1;
            proof {
                let now = heights@.take(i as int);
                assert(now =~= seen.push(heights@[i - 1]));
                assert(now[i - 1] == heights@[i - 1]);
                if before != old(self).latest_block {
                    let j = choose|j: int| 0 <= j < seen.len() && seen[j] == before;
                    assert(now[j] == before);
                }
            }
        }
        assert(heights@.take(i as int) =~= heights@);
    }

    /// The latest observed height; 0 before the first observation.
    pub fn get_latest_block(&self) -> (height: u64)
        ensures
            height == self.latest_block,
    {
        self.latest_block
    }
}

/// The height reached by a replay does not depend on the order of arrival:
/// two runs that hold the same heights, each any number of times over, end at
/// the same height when started from the same one.
pub proof fn lemma_replay_order_independent(
    start: u64,
    first: Seq<u64>,
    second: Seq<u64>,
    top_first: u64,
    top_second: u64,
)
    requires
        forall|h: u64| first.contains(h) <==> second.contains(h),
        is_highest(top_first, start, first),
        is_highest(top_second, start, second),
    ensures
        top_first == top_second,
{
    if top_first != start {
        assert(second.contains(top_first));
        let j = choose|j: int| 0 <= j < second.len() && second[j] == top_first;
        assert(top_second >= second[j]);
    }
    if top_second != start {
        assert(first.contains(top_second));
        let j = choose|j: int| 0 <= j < first.len() && first[j] == top_second;
        assert(top_first >= first[j]);
    }
}

/// Replaying a run a second time changes nothing: a replay of `heights` that
/// starts from the height that an earlier replay of them reached ends there.
pub proof fn lemma_replay_idempotent(start: u64, heights: Seq<u64>, top: u64, again: u64)
    requires
        is_highest(top, start, heights),
        is_highest(again, top, heights),
    ensures
        again == top,
{
    if again != top {
        let j = choose|j: int| 0 <= j < heights.len() && heights[j] == again;
        assert(top >= heights[j]);
    }
}

} // verus!
