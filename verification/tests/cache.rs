use hyperplane::bitmap::PubkeyBitmap;
use hyperplane::cache::dragonfly::{
    encode,
    cache_key, key_pattern, make_account_info_key, make_program_accounts_key, DragonflyStats,
};
use hyperplane::cache::invalidation::{InvalidationTracker, MaterializedQueryResult};
use hyperplane::cache::l1::{is_expired, CacheKey, L1CacheConfig, L1CacheEntry, L1HotCache};
use hyperplane::pubkey::Pubkey;
use hyperplane::rpc::AccountEncoding;
use hyperplane::slot::CommitmentLevel;
use sha2::{Digest, Sha256};
use std::sync::Arc;

fn unique_pubkey() -> Pubkey {
    Pubkey::new_from_array(solana_sdk::pubkey::Pubkey::new_unique().to_bytes())
}

#[test]
fn test_invalidation_tracking() {
    let mut tracker = InvalidationTracker::new();

    let pubkey1 = unique_pubkey();
    let pubkey2 = unique_pubkey();
    let query_hash = [1u8; 32];

    tracker.register_query(query_hash, &[pubkey1, pubkey2]);

    let affected = tracker.get_affected_queries(pubkey1);
    assert_eq!(affected.len(), 1);
    assert_eq!(affected[0], query_hash);

    let count = tracker.invalidate_for_pubkeys(&[pubkey1]);
    assert_eq!(count, 1);

    let affected = tracker.get_affected_queries(pubkey1);
    assert_eq!(affected.len(), 0);
}

#[test]
fn test_batch_invalidation() {
    let mut tracker = InvalidationTracker::new();

    let pubkeys: Vec<Pubkey> = (0..10).map(|_| unique_pubkey()).collect();
    let query_hash1 = [1u8; 32];
    let query_hash2 = [2u8; 32];

    tracker.register_query(query_hash1, &pubkeys[0..5]);
    tracker.register_query(query_hash2, &pubkeys[3..8]);

    let affected = tracker.get_affected_queries_batch(&pubkeys[3..5]);
    assert!(affected.contains(&query_hash1));
    assert!(affected.contains(&query_hash2));

    let count = tracker.invalidate_for_pubkeys(&pubkeys[3..5]);
    assert_eq!(count, 2);
}

#[test]
fn test_invalidation_drops_materialized_result() {
    let mut tracker = InvalidationTracker::new();
    let pk = unique_pubkey();
    let other = unique_pubkey();
    let q = [7u8; 32];
    tracker.register_query(q, &[pk]);
    tracker.cache_materialized_result(q, MaterializedQueryResult::new(vec![1, 2], 10, PubkeyBitmap::new()));
    assert_eq!(tracker.materialized_count(), 1);
    assert_eq!(tracker.invalidate_for_pubkeys(&[other]), 0);
    assert!(tracker.get_materialized_result(q).is_some());
    assert_eq!(tracker.invalidate_for_pubkeys(&[pk]), 1);
    assert!(tracker.get_materialized_result(q).is_none());
    assert_eq!(tracker.query_count(), 0);
}

#[test]
fn test_l1_cache_basic() {
    let mut cache = L1HotCache::new(L1CacheConfig::default());

    let pubkey = unique_pubkey();
    let key = CacheKey::new(pubkey, AccountEncoding::Base64, CommitmentLevel::Processed);
    let entry = L1CacheEntry::new(Arc::new(vec![1, 2, 3, 4]), AccountEncoding::Base64, 100, 1);

    cache.insert(key.clone(), entry);

    let retrieved = cache.get(&key).unwrap();
    assert_eq!(retrieved.data.len(), 4);
    assert_eq!(retrieved.cached_slot, 100);

    assert_eq!(cache.stats().hits(), 1);
    assert_eq!(cache.stats().inserts(), 1);
}

#[test]
fn test_cache_invalidation() {
    let mut cache = L1HotCache::new(L1CacheConfig::default());

    let pubkey = unique_pubkey();

    for encoding in [AccountEncoding::Base64, AccountEncoding::Base58] {
        let key = CacheKey::new(pubkey, encoding, CommitmentLevel::Processed);
        let entry = L1CacheEntry::new(Arc::new(vec![1, 2, 3]), encoding, 100, 1);
        cache.insert(key, entry);
    }

    assert_eq!(cache.len(), 2);

    cache.invalidate(pubkey);

    assert_eq!(cache.len(), 0);
}

#[test]
fn test_stale_detection() {
    let entry = L1CacheEntry::new(Arc::new(vec![1, 2, 3]), AccountEncoding::Base64, 100, 1);

    assert!(entry.is_stale(101, 1));
    assert!(entry.is_stale(100, 2));
    assert!(!entry.is_stale(100, 1));
    assert!(!entry.is_stale(99, 1));
}

#[test]
fn test_l1_miss_and_batch_invalidation() {
    let mut cache = L1HotCache::new(L1CacheConfig::default());
    let a = unique_pubkey();
    let b = unique_pubkey();
    let c = unique_pubkey();
    for pk in [a, b, c] {
        let key = CacheKey::new(pk, AccountEncoding::Base64, CommitmentLevel::Confirmed);
        cache.insert(key, L1CacheEntry::new(Arc::new(vec![0]), AccountEncoding::Base64, 5, 0));
    }
    let missing = CacheKey::new(a, AccountEncoding::Binary, CommitmentLevel::Confirmed);
    assert!(cache.get(&missing).is_none());
    assert_eq!(cache.stats().misses(), 1);
    assert_eq!(cache.stats().hits(), 0);

    cache.invalidate_batch(&[a, b]);
    assert_eq!(cache.len(), 1);
    assert_eq!(cache.stats().invalidations(), 2);
    let kept = CacheKey::new(c, AccountEncoding::Base64, CommitmentLevel::Confirmed);
    assert!(cache.get(&kept).is_some());

    cache.clear();
    assert!(cache.is_empty());
}

#[test]
fn test_l1_reinsert_replaces_entry() {
    let mut cache = L1HotCache::new(L1CacheConfig::default());
    let key = CacheKey::new(unique_pubkey(), AccountEncoding::Base64, CommitmentLevel::Finalized);
    cache.insert(key, L1CacheEntry::new(Arc::new(vec![1]), AccountEncoding::Base64, 1, 1));
    cache.insert(key, L1CacheEntry::new(Arc::new(vec![2, 2]), AccountEncoding::Base64, 2, 1));
    assert_eq!(cache.len(), 1);
    let e = cache.get(&key).unwrap();
    assert_eq!(e.cached_slot, 2);
    assert_eq!(*e.data, vec![2, 2]);
}

#[test]
fn test_touch_counts_shared_reads() {
    let entry = L1CacheEntry::new(Arc::new(vec![]), AccountEncoding::Base64, 1, 1);
    let copy = entry.clone();
    copy.touch();
    assert_eq!(entry.access_count(), 2);
}

#[test]
fn test_cache_key_generation() {
    let pubkey = unique_pubkey();
    let key = make_account_info_key(pubkey, AccountEncoding::Base64, CommitmentLevel::Processed);

    assert!(key.starts_with("ai:"));
    assert!(key.contains(&pubkey.to_string()));
}

#[test]
fn test_account_info_key_exact() {
    let key = make_account_info_key(Pubkey::default(), AccountEncoding::JsonParsed, CommitmentLevel::Finalized);
    assert_eq!(key, "ai:11111111111111111111111111111111:4:2");
}

#[test]
fn test_program_accounts_key() {
    let program_id = unique_pubkey();
    let filters_hash = vec![1u8; 32];
    let key = make_program_accounts_key(
        program_id,
        &filters_hash,
        AccountEncoding::Base64,
        CommitmentLevel::Processed,
        None,
    );

    assert!(key.starts_with("pa:"));
    assert!(key.contains(&program_id.to_string()));
}

#[test]
fn test_program_accounts_key_hash_part() {
    let program_id = Pubkey::default();
    let filters = [5u8, 6];
    let key = make_program_accounts_key(program_id, &filters, AccountEncoding::Base58, CommitmentLevel::Confirmed, Some("next"));
    let mut hasher = Sha256::new();
    hasher.update([0u8; 32]);
    hasher.update(filters);
    hasher.update([0u8]);
    hasher.update([1u8]);
    hasher.update(b"next");
    let hash = hasher.finalize();
    let hex: String = hash[..8].iter().map(|b| format!("{:02x}", b)).collect();
    assert_eq!(key, format!("pa:11111111111111111111111111111111:{}:0:1", hex));
    let without_cursor = make_program_accounts_key(program_id, &filters, AccountEncoding::Base58, CommitmentLevel::Confirmed, None);
    assert_ne!(key, without_cursor);
}

#[test]
fn test_cache_key_and_pattern_text() {
    assert_eq!(cache_key("synapse", "getAccountInfo", "abc"), "synapse:getAccountInfo:abc");
    assert_eq!(key_pattern("synapse", "abc"), "synapse:*:abc*");
}

#[test]
fn test_dragonfly_stats_parse() {
    let info = "# Stats\r\nkeyspace_hits:10\r\nkeyspace_misses: 5\nkeys:3\nused_memory:+2048\nother:1\n";
    let stats = DragonflyStats::parse(info);
    assert_eq!(stats.hits, 10);
    assert_eq!(stats.misses, 0);
    assert_eq!(stats.keys, 3);
    assert_eq!(stats.memory_bytes, 2048);
}

#[test]
fn test_dragonfly_stats_parse_edges() {
    let stats = DragonflyStats::parse("  keys :7\nkeys:18446744073709551616\nkeyspace_hits:1\nkeyspace_hits:2\nused_memory:9\r");
    assert_eq!(stats.keys, 0);
    assert_eq!(stats.hits, 2);
    assert_eq!(stats.memory_bytes, 0);
    let stats = DragonflyStats::parse("\u{3000}keys\t:5");
    assert_eq!(stats.keys, 5);
    assert_eq!(DragonflyStats::parse(""), DragonflyStats::default());
}

#[test]
fn hex_encoding_is_lower_case_two_digits_per_byte() {
    assert_eq!(encode(&[0x00, 0xab, 0x7f, 0x10]), "00ab7f10");
    assert_eq!(encode(&[]), "");
}

#[test]
fn l1_expiry_follows_the_level_lifetime() {
    let config = L1CacheConfig::default();
    let key = CacheKey::new(unique_pubkey(), AccountEncoding::Base64, CommitmentLevel::Finalized);
    let ttl = config.ttl_ms(CommitmentLevel::Finalized) as u128;
    assert!(!is_expired(&config, &key, ttl));
    assert!(is_expired(&config, &key, ttl + 1));
}
