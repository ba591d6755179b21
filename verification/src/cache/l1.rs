//! The in-memory cache of hot encoded accounts, keyed by address, encoding and commitment.
use crate::account::AccountView;
use crate::clock::{instant_now, millis_since};
use crate::pubkey::Pubkey;
use crate::rpc::AccountEncoding;
use crate::slot::CommitmentLevel;
use dashmap::DashMap;
use std::sync::atomic::{AtomicU64, Ordering};
use std::sync::Arc;
use std::time::Instant;
use vstd::prelude::*;

verus! {

/// The concurrent hash map of the `dashmap` crate; opaque, reached through the functions below.
#[verifier::external_type_specification]
#[verifier::external_body]
#[verifier::reject_recursive_types(K)]
#[verifier::reject_recursive_types(V)]
#[verifier::reject_recursive_types(S)]
pub struct ExDashMap<K, V, S>(DashMap<K, V, S>);

/// What a map of cached entries holds.
pub uninterp spec fn l1_entries(m: DashMap<CacheKey, L1CacheEntry>) -> Map<CacheKey, L1CacheEntry>;

/// What a map of access counters holds.
pub uninterp spec fn access_counts(m: DashMap<CacheKey, u64>) -> Map<CacheKey, u64>;

/// The empty map of entries.
pub open spec fn no_entries() -> Map<CacheKey, L1CacheEntry> {
    Map::empty()
}

/// The empty map of counters.
pub open spec fn no_counts() -> Map<CacheKey, u64> {
    Map::empty()
}

/// Calls `DashMap::with_capacity`: an empty map. Below this capacity the shard tables'
/// sizes cannot overflow.
#[verifier::external_body]
fn entries_with_capacity(capacity: usize) -> (m: DashMap<CacheKey, L1CacheEntry>)
    requires
        capacity <= 0x100_0000,
    ensures
        l1_entries(m) == no_entries(),
{
    DashMap::with_capacity(capacity)
}

/// Calls `DashMap::get` and clones the value found: the entry under `key`, if any.
/// Keys compare by the derived `Eq`, which is equality of all fields.
#[verifier::external_body]
fn entries_get(m: &DashMap<CacheKey, L1CacheEntry>, key: &CacheKey) -> (r: Option<L1CacheEntry>)
    ensures
        r is Some <==> l1_entries(*m).contains_key(*key),
        r matches Some(e) ==> e == l1_entries(*m)[*key],
{
    m.get(key).map(|e| e.value().clone())
}

/// Calls `DashMap::insert`: the map afterwards holds `entry` under `key`.
#[verifier::external_body]
fn entries_insert(m: &mut DashMap<CacheKey, L1CacheEntry>, key: CacheKey, entry: L1CacheEntry)
    ensures
        l1_entries(*final(m)) == l1_entries(*old(m)).insert(key, entry),
{
    m.insert(key, entry);
}

/// Calls `DashMap::remove`: the map afterwards holds nothing under `key`.
#[verifier::external_body]
fn entries_remove(m: &mut DashMap<CacheKey, L1CacheEntry>, key: &CacheKey)
    ensures
        l1_entries(*final(m)) == l1_entries(*old(m)).remove(*key),
{
    m.remove(key);
}

/// Calls `DashMap::len`: the number of entries.
#[verifier::external_body]
fn entries_len(m: &DashMap<CacheKey, L1CacheEntry>) -> (n: usize)
    ensures
        n == l1_entries(*m).len(),
{
    m.len()
}

/// Calls `DashMap::is_empty`: whether the map holds no entry.
#[verifier::external_body]
fn entries_is_empty(m: &DashMap<CacheKey, L1CacheEntry>) -> (r: bool)
    ensures
        r == (l1_entries(*m).len() == 0),
{
    m.is_empty()
}

/// Calls `DashMap::iter` and collects the keys: each key once, in the map's own order.
#[verifier::external_body]
fn entries_keys(m: &DashMap<CacheKey, L1CacheEntry>) -> (v: Vec<CacheKey>)
    ensures
        v@.no_duplicates(),
        v@.to_set() == l1_entries(*m).dom(),
{
    m.iter().map(|e| *e.key()).collect()
}

/// Calls `DashMap::clear`: the map afterwards is empty.
#[verifier::external_body]
fn entries_clear(m: &mut DashMap<CacheKey, L1CacheEntry>)
    ensures
        l1_entries(*final(m)) == no_entries(),
{
    m.clear();
}

/// Calls `DashMap::new`: an empty map.
#[verifier::external_body]
fn counts_new() -> (m: DashMap<CacheKey, u64>)
    ensures
        access_counts(m) == no_counts(),
{
    DashMap::new()
}

/// Calls `DashMap::get` and copies the value found: the counter under `key`, if any.
#[verifier::external_body]
fn counts_get(m: &DashMap<CacheKey, u64>, key: &CacheKey) -> (r: Option<u64>)
    ensures
        r is Some <==> access_counts(*m).contains_key(*key),
        r matches Some(c) ==> c == access_counts(*m)[*key],
{
    m.get(key).map(|c| *c.value())
}

/// Calls `DashMap::insert`: the map afterwards holds `count` under `key`.
#[verifier::external_body]
fn counts_insert(m: &mut DashMap<CacheKey, u64>, key: CacheKey, count: u64)
    ensures
        access_counts(*final(m)) == access_counts(*old(m)).insert(key, count),
{
    m.insert(key, count);
}

/// Calls `DashMap::clear`: the map afterwards is empty.
#[verifier::external_body]
fn counts_clear(m: &mut DashMap<CacheKey, u64>)
    ensures
        access_counts(*final(m)) == no_counts(),
{
    m.clear();
}

/// One cached encoded account.
#[derive(Debug)]
pub struct L1CacheEntry {
    /// Encoded account data.
    pub data: Arc<Vec<u8>>,
    /// Encoding of the data.
    pub encoding: AccountEncoding,
    /// Slot of the account version cached.
    pub cached_slot: u64,
    /// Write version of the account version cached.
    pub cached_write_version: u64,
    /// When it was cached.
    pub cached_at: Instant,
    /// Reads so far, shared by all clones of the entry.
    pub access_count: Arc<AtomicU64>,
}

impl Clone for L1CacheEntry {
    fn clone(&self) -> (r: Self)
        ensures
            r == *self,
    {
        L1CacheEntry {
            data: self.data.clone(),
            encoding: self.encoding,
            cached_slot: self.cached_slot,
            cached_write_version: self.cached_write_version,
            cached_at: self.cached_at,
            access_count: self.access_count.clone(),
        }
    }
}

/// Whether the version `(slot, write_version)` is newer than `(cached_slot, cached_write_version)`.
pub open spec fn newer_version(slot: u64, write_version: u64, cached_slot: u64, cached_write_version: u64) -> bool {
    slot > cached_slot || (slot == cached_slot && write_version > cached_write_version)
}

impl L1CacheEntry {
    /// An entry cached now, read once.
    pub fn new(data: Arc<Vec<u8>>, encoding: AccountEncoding, slot: u64, write_version: u64) -> (e: Self)
        ensures
            e.data == data,
            e.encoding == encoding,
            e.cached_slot == slot,
            e.cached_write_version == write_version,
    {
        L1CacheEntry {
            data,
            encoding,
            cached_slot: slot,
            cached_write_version: write_version,
            cached_at: instant_now(),
            access_count: Arc::new(AtomicU64::new(1)),
        }
    }

    /// Whether the account has moved past the cached version: a later slot, or the same
    /// slot with a later write version.
    pub fn is_stale(&self, current_slot: u64, current_write_version: u64) -> (r: bool)
        ensures
            r == newer_version(current_slot, current_write_version, self.cached_slot, self.cached_write_version),
    {
        if current_slot > self.cached_slot {
            return true;
        }
        if current_slot == self.cached_slot && current_write_version > self.cached_write_version {
            return true;
        }
        false
    }

    /// Counts one more read. The counter is shared between threads; it wraps at `u64::MAX`.
    pub fn touch(&self) {
        self.access_count.fetch_add(1, Ordering::Relaxed);
    }

    /// Reads so far; other threads may count reads at any time, so nothing is stated.
    pub fn access_count(&self) -> u64 {
        self.access_count.load(Ordering::Relaxed)
    }

    /// Milliseconds since the entry was cached.
    pub fn age_ms(&self) -> u128 {
        millis_since(&self.cached_at)
    }
}

/// Key of a cached entry: address, encoding and commitment.
#[derive(Debug, Clone, Copy, PartialEq, Eq, Hash)]
pub struct CacheKey {
    pub pubkey: Pubkey,
    pub encoding: AccountEncoding,
    pub commitment: CommitmentLevel,
}

impl CacheKey {
    /// The key of the given parts.
    pub fn new(pubkey: Pubkey, encoding: AccountEncoding, commitment: CommitmentLevel) -> (k: Self)
        ensures
            k.pubkey == pubkey,
            k.encoding == encoding,
            k.commitment == commitment,
    {
        CacheKey { pubkey, encoding, commitment }
    }

    /// The key of an account's cached encoding.
    pub fn from_account(account: &AccountView, encoding: AccountEncoding, commitment: CommitmentLevel) -> (k: Self)
        ensures
            k.pubkey == account.pubkey,
            k.encoding == encoding,
            k.commitment == commitment,
    {
        Self::new(account.pubkey, encoding, commitment)
    }
}

/// Limits of the hot cache.
#[derive(Debug, Clone, Copy)]
pub struct L1CacheConfig {
    /// Entries at which an insert first drops expired entries.
    pub max_entries: usize,
    /// Lifetime of a processed-level entry (ms).
    pub processed_ttl_ms: u64,
    /// Lifetime of a confirmed-level entry (ms).
    pub confirmed_ttl_ms: u64,
    /// Lifetime of a finalized-level entry (ms).
    pub finalized_ttl_ms: u64,
    /// Entries dropped per eviction round.
    pub eviction_batch_size: usize,
}

impl Default for L1CacheConfig {
    fn default() -> (c: Self)
        ensures
            c.max_entries == 1_000_000,
            c.processed_ttl_ms == 60_000,
            c.confirmed_ttl_ms == 300_000,
            c.finalized_ttl_ms == 3_600_000,
            c.eviction_batch_size == 1000,
    {
        L1CacheConfig {
            max_entries: 1_000_000,
            processed_ttl_ms: 60_000,
            confirmed_ttl_ms: 300_000,
            finalized_ttl_ms: 3_600_000,
            eviction_batch_size: 1000,
        }
    }
}

impl L1CacheConfig {
    /// The lifetime of an entry at the given level.
    pub fn ttl_ms(&self, commitment: CommitmentLevel) -> (ms: u64)
        ensures
            ms == match commitment {
                CommitmentLevel::Processed => self.processed_ttl_ms,
                CommitmentLevel::Confirmed => self.confirmed_ttl_ms,
                CommitmentLevel::Finalized => self.finalized_ttl_ms,
            },
    {
        match commitment {
            CommitmentLevel::Processed => self.processed_ttl_ms,
            CommitmentLevel::Confirmed => self.confirmed_ttl_ms,
            CommitmentLevel::Finalized => self.finalized_ttl_ms,
        }
    }
}

/// Counters of the hot cache; each wraps at `u64::MAX`.
#[derive(Debug, Clone, Copy)]
pub struct L1CacheStats {
    hits: u64,
    misses: u64,
    inserts: u64,
    evictions: u64,
    invalidations: u64,
}

impl L1CacheStats {
    /// Reads that found an entry.
    pub closed spec fn total_hits(&self) -> u64 {
        self.hits
    }

    /// Reads that found none.
    pub closed spec fn total_misses(&self) -> u64 {
        self.misses
    }

    /// Inserts.
    pub closed spec fn total_inserts(&self) -> u64 {
        self.inserts
    }

    /// Entries dropped for age.
    pub closed spec fn total_evictions(&self) -> u64 {
        self.evictions
    }

    /// Entries dropped because their account changed.
    pub closed spec fn total_invalidations(&self) -> u64 {
        self.invalidations
    }

    /// Whether every counter is zero.
    pub open spec fn is_zero(&self) -> bool {
        &&& self.total_hits() == 0
        &&& self.total_misses() == 0
        &&& self.total_inserts() == 0
        &&& self.total_evictions() == 0
        &&& self.total_invalidations() == 0
    }

    /// All counters at zero.
    pub fn new() -> (s: Self)
        ensures
            s.is_zero(),
    {
        L1CacheStats { hits: 0, misses: 0, inserts: 0, evictions: 0, invalidations: 0 }
    }

    fn count_hit(&mut self)
        ensures
            final(self).hits == old(self).hits.wrapping_add(1),
            final(self).misses == old(self).misses,
            final(self).inserts == old(self).inserts,
            final(self).evictions == old(self).evictions,
            final(self).invalidations == old(self).invalidations,
    {
        self.hits = self.hits.wrapping_add(1);
    }

    fn count_miss(&mut self)
        ensures
            final(self).misses == old(self).misses.wrapping_add(1),
            final(self).hits == old(self).hits,
            final(self).inserts == old(self).inserts,
            final(self).evictions == old(self).evictions,
            final(self).invalidations == old(self).invalidations,
    {
        self.misses = self.misses.wrapping_add(1);
    }

    fn count_insert(&mut self)
        ensures
            final(self).inserts == old(self).inserts.wrapping_add(1),
            final(self).hits == old(self).hits,
            final(self).misses == old(self).misses,
            final(self).evictions == old(self).evictions,
            final(self).invalidations == old(self).invalidations,
    {
        self.inserts = self.inserts.wrapping_add(1);
    }

    fn count_invalidations(&mut self, count: usize)
        ensures
            final(self).invalidations == old(self).invalidations.wrapping_add(count as u64),
            final(self).hits == old(self).hits,
            final(self).misses == old(self).misses,
            final(self).inserts == old(self).inserts,
            final(self).evictions == old(self).evictions,
    {
        self.invalidations = self.invalidations.wrapping_add(count as u64);
    }

    pub fn hits(&self) -> (n: u64)
        ensures
            n == self.total_hits(),
    {
        self.hits
    }

    pub fn misses(&self) -> (n: u64)
        ensures
            n == self.total_misses(),
    {
        self.misses
    }

    pub fn inserts(&self) -> (n: u64)
        ensures
            n == self.total_inserts(),
    {
        self.inserts
    }

    pub fn invalidations(&self) -> (n: u64)
        ensures
            n == self.total_invalidations(),
    {
        self.invalidations
    }
}

impl Default for L1CacheStats {
    fn default() -> (s: Self)
        ensures
            s.is_zero(),
    {
        L1CacheStats::new()
    }
}

/// The cache of hot encoded accounts.
pub struct L1HotCache {
    cache: DashMap<CacheKey, L1CacheEntry>,
    config: L1CacheConfig,
    stats: L1CacheStats,
    access_tracker: DashMap<CacheKey, u64>,
    ages_read: Ghost<Map<CacheKey, u128>>,
}

/// The lifetime, in milliseconds, of an entry cached at the commitment level.
pub open spec fn ttl_for(config: L1CacheConfig, commitment: CommitmentLevel) -> u64 {
    match commitment {
        CommitmentLevel::Processed => config.processed_ttl_ms,
        CommitmentLevel::Confirmed => config.confirmed_ttl_ms,
        CommitmentLevel::Finalized => config.finalized_ttl_ms,
    }
}

/// An entry under `key` that is `age_ms` old has outlived its level's lifetime.
pub open spec fn expired(config: L1CacheConfig, key: CacheKey, age_ms: u128) -> bool {
    age_ms > ttl_for(config, key.commitment) as u128
}

/// Each entry lives as long as its own commitment level allows: a processed entry
/// expires past the processed lifetime, a confirmed one past the confirmed lifetime, and
/// a finalized one past the finalized lifetime; so an entry expires later when its age
/// is smaller.
pub proof fn lemma_expiry_per_level(config: L1CacheConfig, key: CacheKey, age_ms: u128, younger: u128)
    ensures
        key.commitment == CommitmentLevel::Processed ==> (expired(config, key, age_ms) <==> age_ms
            > config.processed_ttl_ms as u128),
        key.commitment == CommitmentLevel::Confirmed ==> (expired(config, key, age_ms) <==> age_ms
            > config.confirmed_ttl_ms as u128),
        key.commitment == CommitmentLevel::Finalized ==> (expired(config, key, age_ms) <==> age_ms
            > config.finalized_ttl_ms as u128),
        younger <= age_ms && expired(config, key, younger) ==> expired(config, key, age_ms),
{
}

/// Whether an entry under `key`, `age_ms` old, has outlived its level's lifetime.
pub fn is_expired(config: &L1CacheConfig, key: &CacheKey, age_ms: u128) -> (r: bool)
    ensures
        r == expired(*config, *key, age_ms),
        key.commitment == CommitmentLevel::Processed ==> (r <==> age_ms > config.processed_ttl_ms as u128),
        key.commitment == CommitmentLevel::Confirmed ==> (r <==> age_ms > config.confirmed_ttl_ms as u128),
        key.commitment == CommitmentLevel::Finalized ==> (r <==> age_ms > config.finalized_ttl_ms as u128),
{
    age_ms > config.ttl_ms(key.commitment) as u128
}

/// `after` holds exactly the entries of `before` that had not expired at the ages read.
pub open spec fn unexpired(
    after: Map<CacheKey, L1CacheEntry>,
    before: Map<CacheKey, L1CacheEntry>,
    config: L1CacheConfig,
    ages: Map<CacheKey, u128>,
) -> bool {
    &&& kept_some(after, before)
    &&& forall|k: CacheKey| #[trigger] before.contains_key(k) ==> ages.contains_key(k)
    &&& forall|k: CacheKey| #[trigger] before.contains_key(k) ==> (after.contains_key(k) <==> !expired(config, k, ages[k]))
}

impl L1HotCache {
    /// The cached entries.
    pub closed spec fn entries(&self) -> Map<CacheKey, L1CacheEntry> {
        l1_entries(self.cache)
    }

    /// Reads counted per key since its last insert.
    pub closed spec fn reads(&self) -> Map<CacheKey, u64> {
        access_counts(self.access_tracker)
    }

    /// The limits the cache was made with.
    pub closed spec fn limits(&self) -> L1CacheConfig {
        self.config
    }

    /// The counters.
    pub closed spec fn counters(&self) -> L1CacheStats {
        self.stats
    }

    /// The age of each entry as the clock read it at the last eviction round.
    pub closed spec fn ages_read(&self) -> Map<CacheKey, u128> {
        self.ages_read@
    }

    /// An empty cache, its tables sized for a tenth of `max_entries` (at most 2^24 entries).
    pub fn new(config: L1CacheConfig) -> (c: Self)
        ensures
            c.entries() == no_entries(),
            c.reads() == no_counts(),
            c.limits() == config,
            c.counters().is_zero(),
    {
        let capacity = if config.max_entries / 10 <= 0x100_0000 {
            config.max_entries / 10
        } else {
            0x100_0000
        };
        L1HotCache {
            cache: entries_with_capacity(capacity),
            config,
            stats: L1CacheStats::new(),
            access_tracker: counts_new(),
            ages_read: Ghost(Map::empty()),
        }
    }
}

/// The cached keys whose address is one of `pubkeys`.
pub open spec fn keys_of(entries: Map<CacheKey, L1CacheEntry>, pubkeys: Set<Pubkey>) -> Set<CacheKey> {
    entries.dom().filter(|k: CacheKey| pubkeys.contains(k.pubkey))
}

/// Whether `after` keeps some of the entries of `before` and nothing else.
pub open spec fn kept_some(after: Map<CacheKey, L1CacheEntry>, before: Map<CacheKey, L1CacheEntry>) -> bool {
    forall|k: CacheKey| #[trigger] after.contains_key(k) ==> before.contains_key(k) && after[k] == before[k]
}

/// Invalidating an address drops exactly the entries of that address, under every
/// encoding and commitment, and leaves every other entry as it was.
pub proof fn lemma_invalidation_drops_exactly_the_address(entries: Map<CacheKey, L1CacheEntry>, pubkey: Pubkey)
    ensures
        forall|k: CacheKey| #[trigger] entries.remove_keys(keys_of(entries, set![pubkey])).contains_key(k)
            <==> entries.contains_key(k) && k.pubkey != pubkey,
        kept_some(entries.remove_keys(keys_of(entries, set![pubkey])), entries),
{
}

fn contains_pubkey(pubkeys: &[Pubkey], pk: &Pubkey) -> (r: bool)
    ensures
        r == pubkeys@.contains(*pk),
{
    let mut i: usize = 0;
    while i < pubkeys.len()
        invariant
            i <= pubkeys@.len(),
            forall|j: int| 0 <= j < i ==> pubkeys@[j] != *pk,
        decreases pubkeys@.len() - i,
    {
        if pubkeys[i].eq_key(pk) {
            return true;
        }
        i = i + 1;
    }
    false
}

impl L1HotCache {
    /// The entry under `key`, if any. A found entry counts a hit and a read of the entry
    /// (and of its key's counter, where the key has one); otherwise a miss is counted.
    pub fn get(&mut self, key: &CacheKey) -> (r: Option<L1CacheEntry>)
        ensures
            r is Some <==> old(self).entries().contains_key(*key),
            r matches Some(e) ==> e == old(self).entries()[*key],
            final(self).entries() == old(self).entries(),
            final(self).limits() == old(self).limits(),
            r is Some ==> final(self).counters().total_hits() == old(self).counters().total_hits().wrapping_add(1)
                && final(self).counters().total_misses() == old(self).counters().total_misses(),
            r is None ==> final(self).counters().total_misses() == old(self).counters().total_misses().wrapping_add(1)
                && final(self).counters().total_hits() == old(self).counters().total_hits(),
            final(self).counters().total_inserts() == old(self).counters().total_inserts(),
            final(self).counters().total_evictions() == old(self).counters().total_evictions(),
            final(self).counters().total_invalidations() == old(self).counters().total_invalidations(),
            final(self).reads() == if r is Some && old(self).reads().contains_key(*key) {
                old(self).reads().insert(*key, old(self).reads()[*key].wrapping_add(1))
            } else {
                old(self).reads()
            },
    {
        match entries_get(&self.cache, key) {
            Some(entry) => {
                entry.touch();
                self.stats.count_hit();
                match counts_get(&self.access_tracker, key) {
                    Some(c) => {
                        counts_insert(&mut self.access_tracker, *key, c.wrapping_add(1));
                    },
                    None => {},
                }
                Some(entry)
            },
            None => {
                self.stats.count_miss();
                None
            },
        }
    }

    /// Caches `entry` under `key`, its read counter at 1. When the cache already holds
    /// `max_entries` entries, expired entries are dropped first.
    pub fn insert(&mut self, key: CacheKey, entry: L1CacheEntry)
        ensures
            final(self).entries().contains_key(key),
            final(self).entries()[key] == entry,
            kept_some(final(self).entries().remove(key), old(self).entries()),
            old(self).entries().len() < old(self).limits().max_entries ==> final(self).entries()
                == old(self).entries().insert(key, entry),
            old(self).entries().len() >= old(self).limits().max_entries ==> unexpired(
                final(self).entries().remove(key),
                old(self).entries().remove(key),
                old(self).limits(),
                final(self).ages_read(),
            ),
            final(self).reads() == old(self).reads().insert(key, 1),
            final(self).limits() == old(self).limits(),
            final(self).counters().total_inserts() == old(self).counters().total_inserts().wrapping_add(1),
            final(self).counters().total_hits() == old(self).counters().total_hits(),
            final(self).counters().total_misses() == old(self).counters().total_misses(),
            final(self).counters().total_evictions() == old(self).counters().total_evictions(),
            final(self).counters().total_invalidations() == old(self).counters().total_invalidations(),
    {
        let ghost before = self.entries();
        if entries_len(&self.cache) >= self.config.max_entries {
            self.evict_stale_entries();
        }
        let ghost mid = self.entries();
        counts_insert(&mut self.access_tracker, key, 1);
        entries_insert(&mut self.cache, key, entry);
        self.stats.count_insert();
        assert forall|k: CacheKey| #[trigger] self.entries().remove(key).contains_key(k) implies before.contains_key(k)
            && self.entries().remove(key)[k] == before[k] by {
            assert(mid.contains_key(k));
        }
        proof {
            if before.len() >= self.config.max_entries {
                assert(self.entries().remove(key) =~= mid.remove(key));
                assert forall|k: CacheKey| #[trigger] before.remove(key).contains_key(k) implies (self.entries().remove(
                    key,
                ).contains_key(k) <==> !expired(self.config, k, self.ages_read@[k])) by {
                    assert(before.contains_key(k));
                }
            }
        }
    }

    /// Drops the entries older than their level's lifetime, reading each entry's age
    /// from the clock once and recording it.
    fn evict_stale_entries(&mut self)
        ensures
            unexpired(final(self).entries(), old(self).entries(), old(self).limits(), final(self).ages_read()),
            final(self).reads() == old(self).reads(),
            final(self).limits() == old(self).limits(),
            final(self).counters() == old(self).counters(),
    {
        let keys = entries_keys(&self.cache);
        let ghost before = self.entries();
        let mut i: usize = 0;
        while i < keys.len()
            invariant
                i <= keys@.len(),
                keys@.no_duplicates(),
                keys@.to_set() == before.dom(),
                kept_some(self.entries(), before),
                forall|k: CacheKey| #[trigger] before.contains_key(k) && !keys@.take(i as int).contains(k)
                    ==> self.entries().contains_key(k),
                forall|k: CacheKey| #[trigger] keys@.take(i as int).contains(k) ==> self.ages_read@.contains_key(k)
                    && (self.entries().contains_key(k) <==> !expired(self.config, k, self.ages_read@[k])),
                self.reads() == old(self).reads(),
                self.limits() == old(self).limits(),
                self.counters() == old(self).counters(),
            decreases keys@.len() - i,
        {
            let key = keys[i];
            proof {
                assert(keys@.take(i + 1) =~= keys@.take(i as int).push(key));
                assert(keys@.to_set().contains(key));
                assert(!keys@.take(i as int).contains(key)) by {
                    if keys@.take(i as int).contains(key) {
                        let j = choose|j: int| 0 <= j < i && keys@.take(i as int)[j] == key;
                        assert(keys@[j] == keys@[i as int]);
                    }
                }
                assert(self.entries().contains_key(key));
            }
            let ghost pre = self.entries();
            let ghost pre_ages = self.ages_read@;
            match entries_get(&self.cache, &key) {
                Some(entry) => {
                    let age = entry.age_ms();
                    proof {
                        self.ages_read@ = self.ages_read@.insert(key, age);
                    }
                    if is_expired(&self.config, &key, age) {
                        entries_remove(&mut self.cache, &key);
                    }
                },
                None => {},
            }
            proof {
                assert(self.ages_read@.contains_key(key));
                assert forall|k: CacheKey| #[trigger] before.contains_key(k) && !keys@.take(i + 1).contains(k)
                    implies self.entries().contains_key(k) by {
                    assert(keys@.take(i + 1)[i as int] == key);
                    assert(k != key);
                    assert(!keys@.take(i as int).contains(k)) by {
                        if keys@.take(i as int).contains(k) {
                            let j = choose|j: int| 0 <= j < i && keys@.take(i as int)[j] == k;
                            assert(keys@.take(i + 1)[j] == k);
                        }
                    }
                    assert(pre.contains_key(k));
                }
                assert forall|k: CacheKey| #[trigger] keys@.take(i + 1).contains(k) implies self.ages_read@.contains_key(k)
                    && (self.entries().contains_key(k) <==> !expired(self.config, k, self.ages_read@[k])) by {
                    if k != key {
                        assert(keys@.take(i as int).contains(k));
                        assert(pre_ages.contains_key(k));
                        assert(self.ages_read@[k] == pre_ages[k]);
                        assert(self.entries().contains_key(k) == pre.contains_key(k));
                    }
                }
            }
            i = i + 1;
        }
        proof {
            assert(keys@.take(i as int) =~= keys@);
            assert forall|k: CacheKey| #[trigger] before.contains_key(k) implies keys@.contains(k) by {
                assert(keys@.to_set().contains(k));
            }
        }
    }

    /// Drops every entry whose address is one of `pubkeys`, and counts them as invalidations.
    fn drop_entries_of(&mut self, pubkeys: &[Pubkey])
        ensures
            final(self).entries() == old(self).entries().remove_keys(keys_of(old(self).entries(), pubkeys@.to_set())),
            final(self).counters().total_invalidations() == old(self).counters().total_invalidations().wrapping_add(
                keys_of(old(self).entries(), pubkeys@.to_set()).len() as u64,
            ),
            final(self).counters().total_hits() == old(self).counters().total_hits(),
            final(self).counters().total_misses() == old(self).counters().total_misses(),
            final(self).counters().total_inserts() == old(self).counters().total_inserts(),
            final(self).counters().total_evictions() == old(self).counters().total_evictions(),
            final(self).reads() == old(self).reads(),
            final(self).limits() == old(self).limits(),
    {
        let ghost before = self.entries();
        let ghost targets = keys_of(before, pubkeys@.to_set());
        let keys = entries_keys(&self.cache);
        let mut doomed: Vec<CacheKey> = Vec::new();
        let mut i: usize = 0;
        while i < keys.len()
            invariant
                i <= keys@.len(),
                keys@.no_duplicates(),
                keys@.to_set() == before.dom(),
                targets == keys_of(before, pubkeys@.to_set()),
                doomed@.no_duplicates(),
                forall|k: CacheKey| #[trigger] doomed@.contains(k) <==> (keys@.take(i as int).contains(k)
                    && pubkeys@.contains(k.pubkey)),
            decreases keys@.len() - i,
        {
            let key = keys[i];
            proof {
                assert(keys@.take(i + 1) =~= keys@.take(i as int).push(key));
                assert(!keys@.take(i as int).contains(key)) by {
                    if keys@.take(i as int).contains(key) {
                        let j = choose|j: int| 0 <= j < i && keys@.take(i as int)[j] == key;
                        assert(keys@[j] == keys@[i as int]);
                    }
                }
            }
            if contains_pubkey(pubkeys, &key.pubkey) {
                let ghost prev = doomed@;
                doomed.push(key);
                proof {
                    assert(!prev.contains(key));
                    assert forall|a: int, b: int| 0 <= a < b < doomed@.len() implies doomed@[a]
                        != doomed@[b] by {
                        if b == prev.len() {
                            assert(prev[a] == doomed@[a]);
                        }
                    }
                    assert forall|k: CacheKey| #[trigger] doomed@.contains(k) <==> (keys@.take(
                        i + 1,
                    ).contains(k) && pubkeys@.contains(k.pubkey)) by {
                        if doomed@.contains(k) && k != key {
                            let x = choose|x: int| 0 <= x < doomed@.len() && doomed@[x] == k;
                            assert(prev[x] == k);
                        }
                        if prev.contains(k) {
                            let x = choose|x: int| 0 <= x < prev.len() && prev[x] == k;
                            assert(doomed@[x] == k);
                        }
                        if keys@.take(i + 1).contains(k) && k != key {
                            let x = choose|x: int| 0 <= x < i + 1 && #[trigger] keys@.take(i + 1)[x] == k;
                            assert(keys@.take(i as int)[x] == k);
                        }
                        if keys@.take(i as int).contains(k) {
                            let x = choose|x: int| 0 <= x < i && #[trigger] keys@.take(i as int)[x] == k;
                            assert(keys@.take(i + 1)[x] == k);
                        }
                        assert(doomed@[prev.len() as int] == key);
                        assert(keys@.take(i + 1)[i as int] == key);
                    }
                }
            } else {
                proof {
                    assert forall|k: CacheKey| #[trigger] doomed@.contains(k) <==> (keys@.take(
                        i + 1,
                    ).contains(k) && pubkeys@.contains(k.pubkey)) by {
                        if keys@.take(i + 1).contains(k) && k != key {
                            let x = choose|x: int| 0 <= x < i + 1 && #[trigger] keys@.take(i + 1)[x] == k;
                            assert(keys@.take(i as int)[x] == k);
                        }
                        if keys@.take(i as int).contains(k) {
                            let x = choose|x: int| 0 <= x < i && #[trigger] keys@.take(i as int)[x] == k;
                            assert(keys@.take(i + 1)[x] == k);
                        }
                    }
                }
            }
            i = i + 1;
        }
        proof {
            assert(keys@.take(i as int) =~= keys@);
            assert(doomed@.to_set() =~= targets) by {
                assert forall|k: CacheKey| doomed@.to_set().contains(k) <==> targets.contains(k) by {
                    assert(keys@.to_set().contains(k) <==> keys@.contains(k));
                    assert(pubkeys@.to_set().contains(k.pubkey) <==> pubkeys@.contains(k.pubkey));
                }
            }
            doomed@.unique_seq_to_set();
        }
        let mut j: usize = 0;
        while j < doomed.len()
            invariant
                j <= doomed@.len(),
                self.entries() == before.remove_keys(doomed@.take(j as int).to_set()),
                self.reads() == old(self).reads(),
                self.limits() == old(self).limits(),
                self.counters() == old(self).counters(),
            decreases doomed@.len() - j,
        {
            let k = doomed[j];
            entries_remove(&mut self.cache, &k);
            proof {
                assert(doomed@.take(j + 1).to_set() =~= doomed@.take(j as int).to_set().insert(k)) by {
                    assert(doomed@.take(j + 1) =~= doomed@.take(j as int).push(k));
                    assert forall|x: CacheKey| #[trigger] doomed@.take(j + 1).contains(x) <==> (
                    doomed@.take(j as int).contains(x) || x == k) by {
                        if doomed@.take(j + 1).contains(x) && x != k {
                            let y = choose|y: int| 0 <= y < j + 1 && #[trigger] doomed@.take(j + 1)[y] == x;
                            assert(doomed@.take(j as int)[y] == x);
                        }
                        if doomed@.take(j as int).contains(x) {
                            let y = choose|y: int| 0 <= y < j && #[trigger] doomed@.take(j as int)[y] == x;
                            assert(doomed@.take(j + 1)[y] == x);
                        }
                        assert(doomed@.take(j + 1)[j as int] == k);
                    }
                }
                assert(self.entries() =~= before.remove_keys(doomed@.take(j + 1).to_set()));
            }
            j = j + 1;
        }
        assert(doomed@.take(j as int) =~= doomed@);
        self.stats.count_invalidations(doomed.len());
    }

    /// Drops every entry of the address, under any encoding and commitment.
    pub fn invalidate(&mut self, pubkey: Pubkey)
        ensures
            final(self).entries() == old(self).entries().remove_keys(keys_of(old(self).entries(), set![pubkey])),
            final(self).counters().total_invalidations() == old(self).counters().total_invalidations().wrapping_add(
                keys_of(old(self).entries(), set![pubkey]).len() as u64,
            ),
            final(self).counters().total_hits() == old(self).counters().total_hits(),
            final(self).counters().total_misses() == old(self).counters().total_misses(),
            final(self).counters().total_inserts() == old(self).counters().total_inserts(),
            final(self).counters().total_evictions() == old(self).counters().total_evictions(),
            final(self).reads() == old(self).reads(),
            final(self).limits() == old(self).limits(),
    {
        let one = [pubkey];
        assert(one@.to_set() =~= set![pubkey]) by {
            assert(one@[0] == pubkey);
        }
        self.drop_entries_of(one.as_slice());
    }

    /// Drops every entry of each of the addresses.
    pub fn invalidate_batch(&mut self, pubkeys: &[Pubkey])
        ensures
            final(self).entries() == old(self).entries().remove_keys(keys_of(old(self).entries(), pubkeys@.to_set())),
            final(self).counters().total_invalidations() == old(self).counters().total_invalidations().wrapping_add(
                keys_of(old(self).entries(), pubkeys@.to_set()).len() as u64,
            ),
            final(self).counters().total_hits() == old(self).counters().total_hits(),
            final(self).counters().total_misses() == old(self).counters().total_misses(),
            final(self).counters().total_inserts() == old(self).counters().total_inserts(),
            final(self).counters().total_evictions() == old(self).counters().total_evictions(),
            final(self).reads() == old(self).reads(),
            final(self).limits() == old(self).limits(),
    {
        self.drop_entries_of(pubkeys);
    }

    /// The number of cached entries.
    pub fn len(&self) -> (n: usize)
        ensures
            n == self.entries().len(),
    {
        entries_len(&self.cache)
    }

    /// Whether the cache holds no entry.
    pub fn is_empty(&self) -> (r: bool)
        ensures
            r == (self.entries().len() == 0),
    {
        entries_is_empty(&self.cache)
    }

    /// The counters.
    pub fn stats(&self) -> (s: &L1CacheStats)
        ensures
            *s == self.counters(),
    {
        &self.stats
    }

    /// Drops every entry and every read counter.
    pub fn clear(&mut self)
        ensures
            final(self).entries() == no_entries(),
            final(self).reads() == no_counts(),
            final(self).limits() == old(self).limits(),
            final(self).counters() == old(self).counters(),
    {
        entries_clear(&mut self.cache);
        counts_clear(&mut self.access_tracker);
    }
}

} // verus!
