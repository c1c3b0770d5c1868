//! Price feed listener: the live price snapshot of each exchange and pair.

use crate::connection::ConnectionError;
use crate::counter::{count_one, counted};
use vstd::prelude::*;

verus! {

/// One observation of a pair's price on an exchange.
///
/// `price` and `liquidity` are carried as the feed's fixed-width quantities
/// and never interpreted here; `observed_at` is a timestamp on the clock
/// that callers also pass as `now`.
#[derive(Clone, Copy, Debug, PartialEq, Eq, Structural)]
pub struct PriceSnapshot {
    pub exchange_id: u64,
    pub token_pair: u64,
    pub price: u64,
    pub liquidity: u64,
    pub observed_at: u64,
}

impl PriceSnapshot {
    /// The key under which a snapshot is stored.
    pub open spec fn key(self) -> (u64, u64) {
        (self.exchange_id, self.token_pair)
    }

    /// A snapshot is stale once its age exceeds the horizon. One stamped
    /// after `now` has age zero.
    pub open spec fn is_stale(self, now: u64, max_staleness: u64) -> bool {
        now > self.observed_at && now - self.observed_at > max_staleness
    }
}

/// What one update does to a price table: the snapshot replaces the entry of
/// its key unless that entry is strictly newer.
pub open spec fn table_update(table: Map<(u64, u64), PriceSnapshot>, snapshot: PriceSnapshot) -> Map<
    (u64, u64),
    PriceSnapshot,
> {
    if update_is_stale(table, snapshot) {
        table
    } else {
        table.insert(snapshot.key(), snapshot)
    }
}

/// An update is stale when its key holds a strictly newer snapshot.
pub open spec fn update_is_stale(table: Map<(u64, u64), PriceSnapshot>, snapshot: PriceSnapshot) -> bool {
    table.contains_key(snapshot.key()) && snapshot.observed_at < table[snapshot.key()].observed_at
}

/// The table after a run of updates, applied in order.
pub open spec fn table_after(table: Map<(u64, u64), PriceSnapshot>, updates: Seq<PriceSnapshot>) -> Map<
    (u64, u64),
    PriceSnapshot,
>
    decreases updates.len(),
{
    if updates.len() == 0 {
        table
    } else {
        table_update(table_after(table, updates.drop_last()), updates.last())
    }
}

/// The stored snapshots, at most one for each key.
pub struct PriceTable {
    snapshots: Vec<PriceSnapshot>,
}

impl View for PriceTable {
    type V = Map<(u64, u64), PriceSnapshot>;

    /// Each stored key with its snapshot.
    closed spec fn view(&self) -> Map<(u64, u64), PriceSnapshot> {
        Map::new(
            |k: (u64, u64)| exists|i: int| 0 <= i < self.snapshots@.len() && (#[trigger] self.snapshots@[i]).key() == k,
            |k: (u64, u64)|
                self.snapshots@[choose|i: int|
                    0 <= i < self.snapshots@.len() && (#[trigger] self.snapshots@[i]).key() == k],
        )
    }
}

impl PriceTable {
    /// No key is stored twice.
    #[verifier::type_invariant]
    spec fn distinct_keys(self) -> bool {
        forall|i: int, j: int|
            0 <= i < j < self.snapshots@.len() ==> (#[trigger] self.snapshots@[i]).key() != (
            #[trigger] self.snapshots@[j]).key()
    }

    /// The empty table.
    pub fn new() -> (result: Self)
        ensures
            result@ == Map::<(u64, u64), PriceSnapshot>::empty(),
    {
        let result = PriceTable { snapshots: Vec::new() };
        assert(result@ =~= Map::<(u64, u64), PriceSnapshot>::empty());
        result
    }

    fn position(&self, exchange_id: u64, token_pair: u64) -> (found: Option<usize>)
        ensures
            match found {
                Some(i) => i < self.snapshots@.len() && self.snapshots@[i as int].key() == (
                    exchange_id,
                    token_pair,
                ) && self@.contains_key((exchange_id, token_pair)) && self@[(exchange_id, token_pair)]
                    == self.snapshots@[i as int],
                None => !self@.contains_key((exchange_id, token_pair)),
            },
    {
        proof {
            use_type_invariant(self);
        }
        let mut i: usize = 0;
        while i < self.snapshots.len()
            invariant
                self.distinct_keys(),
                i <= self.snapshots@.len(),
                forall|j: int| 0 <= j < i ==> (#[trigger] self.snapshots@[j]).key() != (exchange_id, token_pair),
            decreases self.snapshots@.len() - i,
        {
            let s = self.snapshots[i];
            if s.exchange_id == exchange_id && s.token_pair == token_pair {
                proof {
                    let k = (exchange_id, token_pair);
                    assert(self.snapshots@[i as int].key() == k);
                    let j = choose|j: int| 0 <= j < self.snapshots@.len() && (#[trigger] self.snapshots@[j]).key() == k;
                    assert(j == i);
                }
                return Some(i);
            }
            i += 1;
        }
        None
    }

    /// The snapshot stored under a key.
    pub fn get(&self, exchange_id: u64, token_pair: u64) -> (found: Option<PriceSnapshot>)
        ensures
            found == if self@.contains_key((exchange_id, token_pair)) {
                Some(self@[(exchange_id, token_pair)])
            } else {
                None
            },
    {
        match self.position(exchange_id, token_pair) {
            Some(i) => Some(self.snapshots[i]),
            None => None,
        }
    }

    /// Offers a snapshot. It replaces the entry of its key unless that entry
    /// is strictly newer. Returns whether the snapshot was stored.
    pub fn update(&mut self, snapshot: PriceSnapshot) -> (stored: bool)
        ensures
            stored == !update_is_stale(old(self)@, snapshot),
            final(self)@ == table_update(old(self)@, snapshot),
    {
        proof {
            use_type_invariant(&*self);
        }
        let found = self.position(snapshot.exchange_id, snapshot.token_pair);
        let mut snapshots: Vec<PriceSnapshot> = Vec::new();
        std::mem::swap(&mut snapshots, &mut self.snapshots);
        let ghost before = snapshots@;
        let stored = match found {
            Some(i) => {
                if snapshot.observed_at < snapshots[i].observed_at {
                    false
                } else {
                    snapshots[i] = snapshot;
                    assert(snapshots@ =~= before.update(i as int, snapshot));
                    true
                }
            },
            None => {
                snapshots.push(snapshot);
                proof {
                    assert forall|j: int| 0 <= j < before.len() implies (#[trigger] before[j]).key()
                        != snapshot.key() by {
                        if before[j].key() == snapshot.key() {
                            assert(old(self)@.contains_key(snapshot.key()));
                        }
                    }
                }
                true
            },
        };
        self.snapshots = snapshots;
        proof {
            let after = self.snapshots@;
            let slot = match found {
                Some(i) => i as int,
                None => before.len() as int,
            };
            if stored {
                assert(after[slot] == snapshot);
                assert forall|j: int| 0 <= j < after.len() && j != slot implies j < before.len() && #[trigger] after[j]
                    == before[j] by {}
                assert forall|k: (u64, u64)| #[trigger]
                    self@.contains_key(k) == old(self)@.insert(snapshot.key(), snapshot).contains_key(k) by {
                    if old(self)@.contains_key(k) {
                        let j = choose|j: int| 0 <= j < before.len() && (#[trigger] before[j]).key() == k;
                        assert(after[j].key() == k);
                    }
                    if k == snapshot.key() {
                        assert(after[slot].key() == k);
                    }
                    if self@.contains_key(k) && k != snapshot.key() {
                        let j = choose|j: int| 0 <= j < after.len() && (#[trigger] after[j]).key() == k;
                        assert(before[j].key() == k);
                    }
                }
                assert forall|k: (u64, u64)| #[trigger] self@.contains_key(k) implies self@[k] == old(self)@.insert(
                    snapshot.key(),
                    snapshot,
                )[k] by {
                    let j = choose|j: int| 0 <= j < after.len() && (#[trigger] after[j]).key() == k;
                    if j != slot {
                        assert(before[j].key() == k);
                        let j0 = choose|j0: int| 0 <= j0 < before.len() && (#[trigger] before[j0]).key() == k;
                        assert(j0 == j);
                    }
                }
                assert(self@ =~= old(self)@.insert(snapshot.key(), snapshot));
            } else {
                assert(after == before);
                assert(self@ =~= old(self)@);
            }
        }
        stored
    }
}

/// Listens to one price feed and keeps its table of snapshots.
pub struct DexStream {
    pub url: String,
    pub connected: bool,
    /// The staleness horizon: the greatest age at which a snapshot is live.
    pub max_staleness: u64,
    /// Updates turned down as stale.
    pub stale_updates: u64,
    pub prices: PriceTable,
}

impl DexStream {
    /// A listener that is not yet connected, with an empty table and no
    /// staleness horizon: no snapshot ever counts as stale.
    pub fn new(url: &str) -> (result: Self)
        ensures
            result.url@ == url@,
            !result.connected,
            result.max_staleness == u64::MAX,
            result.stale_updates == 0,
            result.prices@ == Map::<(u64, u64), PriceSnapshot>::empty(),
    {
        DexStream {
            url: url.to_owned(),
            connected: false,
            max_staleness: u64::MAX,
            stale_updates: 0,
            prices: PriceTable::new(),
        }
    }

    /// Sets the staleness horizon.
    pub fn with_max_staleness(self, max_staleness: u64) -> (result: Self)
        ensures
            result.max_staleness == max_staleness,
            result.url == self.url,
            result.connected == self.connected,
            result.stale_updates == self.stale_updates,
            result.prices == self.prices,
    {
        let mut result = self;
        result.max_staleness = max_staleness;
        result
    }

    /// Records that the feed's connection stands.
    pub fn connect(&mut self)
        ensures
            final(self).connected,
            final(self).url == old(self).url,
            final(self).max_staleness == old(self).max_staleness,
            final(self).stale_updates == old(self).stale_updates,
            final(self).prices == old(self).prices,
    {
        self.connected = true;
    }

    /// Takes the price source's answer to a connection attempt. An accepted
    /// attempt marks the feed connected; a refused one is reported and
    /// leaves the feed as it was.
    pub fn connection_result(&mut self, accepted: bool) -> (result: Result<(), ConnectionError>)
        ensures
            result is Ok <==> accepted,
            result matches Err(e) ==> e == ConnectionError::Refused,
            final(self).connected == (old(self).connected || accepted),
            final(self).url == old(self).url,
            final(self).max_staleness == old(self).max_staleness,
            final(self).stale_updates == old(self).stale_updates,
            final(self).prices == old(self).prices,
    {
        if accepted {
            self.connected = true;
            Ok(())
        } else {
            Err(ConnectionError::Refused)
        }
    }

    /// Offers a snapshot to the table. It replaces the entry of its key
    /// unless that entry is strictly newer; such a stale update changes no
    /// entry and is counted. Returns whether the snapshot was stored.
    pub fn update(&mut self, snapshot: PriceSnapshot) -> (stored: bool)
        ensures
            stored == !update_is_stale(old(self).prices@, snapshot),
            final(self).prices@ == table_update(old(self).prices@, snapshot),
            !stored ==> final(self).prices@ == old(self).prices@,
            final(self).stale_updates == if stored {
                old(self).stale_updates
            } else {
                counted(old(self).stale_updates)
            },
            final(self).url == old(self).url,
            final(self).connected == old(self).connected,
            final(self).max_staleness == old(self).max_staleness,
    {
        let stored = self.prices.update(snapshot);
        if !stored {
            self.stale_updates = count_one(self.stale_updates);
        }
        stored
    }

    /// The live snapshot of a key at time `now`: the stored one, unless none
    /// is stored or the stored one is stale.
    pub fn get(&self, exchange_id: u64, token_pair: u64, now: u64) -> (found: Option<PriceSnapshot>)
        ensures
            found == if self.prices@.contains_key((exchange_id, token_pair)) && !self.prices@[(
                exchange_id,
                token_pair,
            )].is_stale(now, self.max_staleness) {
                Some(self.prices@[(exchange_id, token_pair)])
            } else {
                None
            },
    {
        match self.prices.get(exchange_id, token_pair) {
            Some(s) => {
                if now > s.observed_at && now - s.observed_at > self.max_staleness {
                    None
                } else {
                    Some(s)
                }
            },
            None => None,
        }
    }
}

/// After any run of updates, the snapshot stored under the key of each
/// update is at least as recent as that update.
pub proof fn lemma_stored_is_latest(table: Map<(u64, u64), PriceSnapshot>, updates: Seq<PriceSnapshot>, i: int)
    requires
        0 <= i < updates.len(),
    ensures
        table_after(table, updates).contains_key(updates[i].key()),
        table_after(table, updates)[updates[i].key()].observed_at >= updates[i].observed_at,
    decreases updates.len(),
{
    let earlier = updates.drop_last();
    if i < updates.len() - 1 {
        lemma_stored_is_latest(table, earlier, i);
        assert(earlier[i] == updates[i]);
    }
}

/// A stale update is turned down whole: the table stays as it was, with the
/// newer snapshot under the update's key in every field.
pub proof fn lemma_stale_update_changes_nothing(table: Map<(u64, u64), PriceSnapshot>, snapshot: PriceSnapshot)
    requires
        update_is_stale(table, snapshot),
    ensures
        table_update(table, snapshot) == table,
        table_update(table, snapshot)[snapshot.key()] == table[snapshot.key()],
        table_update(table, snapshot)[snapshot.key()].observed_at > snapshot.observed_at,
{
}

/// An update never makes a stored snapshot older, and never removes one.
pub proof fn lemma_update_never_regresses(
    table: Map<(u64, u64), PriceSnapshot>,
    snapshot: PriceSnapshot,
    key: (u64, u64),
)
    requires
        table.contains_key(key),
    ensures
        table_update(table, snapshot).contains_key(key),
        table_update(table, snapshot)[key].observed_at >= table[key].observed_at,
{
}

} // verus!
