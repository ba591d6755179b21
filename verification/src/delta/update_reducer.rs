//! Reduces several updates of one account to the one with the highest write version.
use crate::clock::system_time_now;
use crate::collections::KeyMap;
use crate::location::AccountLocation;
use crate::pubkey::Pubkey;
use std::time::SystemTime;
use vstd::prelude::*;

verus! {

/// An update waiting to be flushed.
#[derive(Debug, Clone, Copy)]
pub struct PendingUpdate {
    pub slot: u64,
    pub write_version: u64,
    pub location: AccountLocation,
    pub timestamp: SystemTime,
}

/// Reducer statistics.
#[derive(Debug, Clone, Copy, Default)]
pub struct ReducerStats {
    pub pending_count: u64,
    pub flushed_count: u64,
    pub dedup_count: u64,
}

/// Keeps, for each account, only the pending update with the highest write version.
pub struct UpdateReducer {
    pending_updates: KeyMap<Pubkey, PendingUpdate>,
    flushed_count: u64,
    dedup_count: u64,
    flush_threshold: usize,
}

/// The update taken in for a key, as far as the reducer keeps it.
pub open spec fn same_update(u: PendingUpdate, slot: u64, write_version: u64, location: AccountLocation) -> bool {
    u.slot == slot && u.write_version == write_version && u.location == location
}

impl UpdateReducer {
    /// The pending update of each account.
    pub closed spec fn pending(&self) -> Map<Pubkey, PendingUpdate> {
        self.pending_updates@
    }

    /// Number of updates handed out by flushes.
    pub closed spec fn flushed(&self) -> u64 {
        self.flushed_count
    }

    /// Number of updates that found an update of the same account pending.
    pub closed spec fn dedups(&self) -> u64 {
        self.dedup_count
    }

    /// Number of pending accounts at which a flush is due.
    pub closed spec fn threshold(&self) -> usize {
        self.flush_threshold
    }

    pub closed spec fn wf(&self) -> bool {
        self.pending_updates.wf()
    }

    /// An empty reducer that asks for a flush at 10,000 pending accounts.
    pub fn new() -> (r: Self)
        ensures
            r.wf(),
            r.pending() == Map::<Pubkey, PendingUpdate>::empty(),
            r.flushed() == 0,
            r.dedups() == 0,
            r.threshold() == 10_000,
    {
        Self::with_threshold(10_000)
    }

    /// An empty reducer that asks for a flush at `flush_threshold` pending accounts.
    pub fn with_threshold(flush_threshold: usize) -> (r: Self)
        ensures
            r.wf(),
            r.pending() == Map::<Pubkey, PendingUpdate>::empty(),
            r.flushed() == 0,
            r.dedups() == 0,
            r.threshold() == flush_threshold,
    {
        UpdateReducer {
            pending_updates: KeyMap::new(),
            flushed_count: 0,
            dedup_count: 0,
            flush_threshold,
        }
    }

    /// Takes in an update. Returns whether an update of the same account was already
    /// pending (and counts it as deduplicated). The new update replaces the pending
    /// one only when its write version is higher, so the pending update always has the
    /// highest write version seen since the last flush.
    pub fn add_update(
        &mut self,
        pubkey: Pubkey,
        slot: u64,
        write_version: u64,
        location: AccountLocation,
    ) -> (is_dedup: bool)
        requires
            old(self).wf(),
            old(self).dedups() < u64::MAX,
        ensures
            final(self).wf(),
            is_dedup == old(self).pending().contains_key(pubkey),
            final(self).dedups() == old(self).dedups() + (if is_dedup { 1int } else { 0int }),
            final(self).flushed() == old(self).flushed(),
            final(self).threshold() == old(self).threshold(),
            final(self).pending().dom() == old(self).pending().dom().insert(pubkey),
            forall|k: Pubkey| k != pubkey && #[trigger] old(self).pending().contains_key(k)
                ==> final(self).pending()[k] == old(self).pending()[k],
            (!is_dedup || write_version > old(self).pending()[pubkey].write_version) ==> same_update(
                final(self).pending()[pubkey],
                slot,
                write_version,
                location,
            ),
            (is_dedup && write_version <= old(self).pending()[pubkey].write_version)
                ==> final(self).pending()[pubkey] == old(self).pending()[pubkey],
            final(self).pending()[pubkey].write_version == (if is_dedup
                && old(self).pending()[pubkey].write_version >= write_version {
                old(self).pending()[pubkey].write_version
            } else {
                write_version
            }),
    {
        let existing_version: Option<u64> = match self.pending_updates.get(&pubkey) {
            Some(existing) => Some(existing.write_version),
            None => None,
        };
        let is_dedup = existing_version.is_some();
        if is_dedup {
            self.dedup_count = self.dedup_count + 1;
        }
        let should_update = match existing_version {
            Some(v) => write_version > v,
            None => true,
        };
        if should_update {
            let timestamp = system_time_now();
            self.pending_updates.insert(
                pubkey,
                PendingUpdate { slot, write_version, location, timestamp },
            );
        }
        proof {
            assert(self.pending_updates@.dom() =~= old(self).pending_updates@.dom().insert(pubkey));
        }
        is_dedup
    }

    /// The pending updates, one per account.
    pub fn get_pending_updates(&self) -> (v: Vec<(Pubkey, PendingUpdate)>)
        requires
            self.wf(),
        ensures
            v@.len() == self.pending().len(),
            forall|i: int| 0 <= i < v@.len() ==> self.pending().contains_key((#[trigger] v@[i]).0)
                && self.pending()[v@[i].0] == v@[i].1,
            forall|i: int, j: int| 0 <= i < j < v@.len() ==> (#[trigger] v@[i]).0 != (#[trigger] v@[j]).0,
    {
        let n = self.pending_updates.len();
        let mut v: Vec<(Pubkey, PendingUpdate)> = Vec::new();
        let mut i: usize = 0;
        while i < n
            invariant
                self.wf(),
                n == self.pending_updates.pairs().len(),
                i <= n,
                v@ == self.pending_updates.pairs().take(i as int),
            decreases n - i,
        {
            let p = self.pending_updates.pair_at(i);
            v.push(*p);
            proof {
                assert(self.pending_updates.pairs().take(i + 1) =~= self.pending_updates.pairs().take(
                    i as int,
                ).push(self.pending_updates.pairs()[i as int]));
            }
            i = i + 1;
        }
        proof {
            assert(v@ =~= self.pending_updates.pairs());
            self.pending_updates.lemma_len();
            self.pending_updates.lemma_distinct();
            assert forall|i: int| 0 <= i < v@.len() implies self.pending().contains_key(
                (#[trigger] v@[i]).0,
            ) && self.pending()[v@[i].0] == v@[i].1 by {
                self.pending_updates.lemma_pair_in_map(i);
            }
        }
        v
    }

    /// Whether the number of pending accounts has reached the threshold.
    pub fn should_flush(&self) -> (r: bool)
        requires
            self.wf(),
        ensures
            r == (self.pending().len() >= self.threshold()),
    {
        self.pending_updates.len() >= self.flush_threshold
    }

    /// Hands out every pending update and empties the reducer; the flushed count
    /// grows by their number.
    pub fn flush(&mut self) -> (v: Vec<(Pubkey, PendingUpdate)>)
        requires
            old(self).wf(),
            old(self).flushed() + old(self).pending().len() <= u64::MAX,
        ensures
            final(self).wf(),
            v@.len() == old(self).pending().len(),
            forall|i: int| 0 <= i < v@.len() ==> old(self).pending().contains_key((#[trigger] v@[i]).0)
                && old(self).pending()[v@[i].0] == v@[i].1,
            forall|i: int, j: int| 0 <= i < j < v@.len() ==> (#[trigger] v@[i]).0 != (#[trigger] v@[j]).0,
            final(self).pending() == Map::<Pubkey, PendingUpdate>::empty(),
            final(self).flushed() == old(self).flushed() + old(self).pending().len(),
            final(self).dedups() == old(self).dedups(),
            final(self).threshold() == old(self).threshold(),
    {
        let updates = self.get_pending_updates();
        self.pending_updates.clear();
        self.flushed_count = self.flushed_count + updates.len() as u64;
        updates
    }

    /// Pending accounts, flushed updates and deduplicated updates.
    pub fn stats(&self) -> (s: ReducerStats)
        requires
            self.wf(),
        ensures
            s.pending_count == self.pending().len(),
            s.flushed_count == self.flushed(),
            s.dedup_count == self.dedups(),
    {
        let n = self.pending_updates.len();
        ReducerStats {
            pending_count: n as u64,
            flushed_count: self.flushed_count,
            dedup_count: self.dedup_count,
        }
    }

    /// Number of pending accounts.
    pub fn pending_count(&self) -> (n: usize)
        requires
            self.wf(),
        ensures
            n == self.pending().len(),
    {
        self.pending_updates.len()
    }
}

impl Default for UpdateReducer {
    fn default() -> (r: Self)
        ensures
            r.wf(),
            r.pending() == Map::<Pubkey, PendingUpdate>::empty(),
            r.flushed() == 0,
            r.dedups() == 0,
            r.threshold() == 10_000,
    {
        Self::new()
    }
}

} // verus!
