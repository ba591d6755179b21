use hyperplane::index::data_size_index::DataSizeIndex;
use hyperplane::index::discriminator_index::DiscriminatorIndex;
use hyperplane::index::hot_cold_index::{AccountMetadata, HotColdIndexManager, StorageTier, TieredIndex};
use hyperplane::index::lsm_bitmap::LsmBitmap;
use hyperplane::index::memcmp_accelerator::{token_program, MemcmpAccelerator, OffsetIndex};
use hyperplane::index::token_mint_index::TokenMintIndex;
use hyperplane::index::token_owner_index::TokenOwnerIndex;
use hyperplane::pubkey::Pubkey;
use std::path::PathBuf;

fn unique_pubkey() -> Pubkey {
    Pubkey::new_from_array(solana_sdk::pubkey::Pubkey::new_unique().to_bytes())
}

#[test]
fn test_data_size_index_basic() {
    let mut index = DataSizeIndex::new(PathBuf::from("/tmp/test_data_size_index"));

    let account1 = unique_pubkey();
    let account2 = unique_pubkey();

    index.add_account(account1, 100, 100);
    index.add_account(account2, 100, 101);

    let accounts = index.get_accounts_by_size(100).unwrap();
    assert_eq!(accounts.len(), 2);

    assert_eq!(index.get_size_for_account(&account1), Some(100));

    let stats = index.stats();
    assert_eq!(stats.unique_sizes, 1);
    assert_eq!(stats.total_accounts, 2);
}

#[test]
fn test_data_size_index_move_and_remove() {
    let mut index = DataSizeIndex::new(PathBuf::from("/tmp/test_data_size_index"));
    let a = unique_pubkey();
    index.add_account(a, 10, 1);
    index.add_account(a, 20, 2);
    assert_eq!(index.get_size_for_account(&a), Some(20));
    assert_eq!(index.get_accounts_by_size(20).unwrap(), vec![a]);
    // the account left its old size, and it counts once
    assert_eq!(index.get_accounts_by_size(10).unwrap(), Vec::<Pubkey>::new());
    assert_eq!(index.stats().total_accounts, 1);
    index.remove_account(&a);
    assert_eq!(index.stats().total_accounts, 0);
    assert_eq!(index.get_accounts_by_size(20).unwrap(), Vec::<Pubkey>::new());
    assert_eq!(index.get_size_for_account(&a), None);
}

#[test]
fn test_discriminator_index_basic() {
    let mut index = DiscriminatorIndex::new(PathBuf::from("/tmp/test_discriminator_index"));

    let account1 = unique_pubkey();
    let account2 = unique_pubkey();
    let discriminator = [1, 2, 3, 4, 5, 6, 7, 8];

    index.add_account(account1, discriminator, 100);
    index.add_account(account2, discriminator, 101);

    let accounts = index.get_accounts_by_discriminator(discriminator).unwrap();
    assert_eq!(accounts.len(), 2);

    let stats = index.stats();
    assert_eq!(stats.unique_discriminators, 1);
}

#[test]
fn test_token_mint_index_basic() {
    let mut index = TokenMintIndex::new(PathBuf::from("/tmp/test_token_mint_index"));

    let mint = unique_pubkey();
    let token1 = unique_pubkey();
    let token2 = unique_pubkey();

    index.add_token_account(token1, mint, 100);
    index.add_token_account(token2, mint, 101);

    let tokens = index.get_token_accounts_by_mint(&mint).unwrap();
    assert_eq!(tokens.len(), 2);

    assert_eq!(index.get_mint_for_token_account(&token1), Some(mint));

    let stats = index.stats();
    assert_eq!(stats.total_mints, 1);
    assert_eq!(stats.total_accounts, 2);
}

#[test]
fn test_token_owner_index_basic() {
    let mut index = TokenOwnerIndex::new(PathBuf::from("/tmp/test_token_owner_index"));

    let owner = unique_pubkey();
    let token1 = unique_pubkey();
    let token2 = unique_pubkey();

    index.add_token_account(token1, owner, 100);
    index.add_token_account(token2, owner, 101);

    let tokens = index.get_token_accounts_by_owner(&owner).unwrap();
    assert_eq!(tokens.len(), 2);

    assert_eq!(index.get_owner_for_token_account(&token1), Some(owner));

    let stats = index.stats();
    assert_eq!(stats.total_owners, 1);
    assert_eq!(stats.total_accounts, 2);
}

#[test]
fn test_tiered_index_basic() {
    let mut index = TieredIndex::new();
    index.set_current_slot(1000);

    let pubkey = unique_pubkey();
    index.insert_account(1, pubkey);

    let hot = index.query_hot();
    assert_eq!(hot.len(), 1);

    let stats = index.stats();
    assert_eq!(stats.hot_cardinality, 1);
}

#[test]
fn test_account_metadata_tier_calculation() {
    let mut metadata = AccountMetadata::new(1000);

    assert_eq!(metadata.tier, StorageTier::Hot);

    metadata.last_access_slot = 1000;
    assert_eq!(metadata.calculate_tier(1050), StorageTier::Hot);

    metadata.last_access_slot = 1000;
    assert_eq!(metadata.calculate_tier(2000), StorageTier::Warm);

    metadata.last_access_slot = 1000;
    assert_eq!(metadata.calculate_tier(15000), StorageTier::Cold);
}

#[test]
fn test_tier_boundaries() {
    let mut metadata = AccountMetadata::new(0);
    metadata.last_access_slot = 0;
    assert_eq!(metadata.calculate_tier(99), StorageTier::Hot);
    assert_eq!(metadata.calculate_tier(100), StorageTier::Warm);
    assert_eq!(metadata.calculate_tier(9_999), StorageTier::Warm);
    assert_eq!(metadata.calculate_tier(10_000), StorageTier::Cold);
}

#[test]
fn test_hot_cold_manager() {
    let mut manager = HotColdIndexManager::new();
    manager.update_slot(1000);

    let program_id = unique_pubkey();
    let index = manager.get_or_create_index(program_id);

    let account_pubkey = unique_pubkey();
    index.insert_account(1, account_pubkey);

    let stats = manager.global_stats();
    assert_eq!(stats.total_programs, 1);
    assert_eq!(stats.total_hot, 1);
}

#[test]
fn test_lsm_bitmap_insert_query() {
    let mut bitmap = LsmBitmap::new();

    bitmap.insert(1);
    bitmap.insert(2);
    bitmap.insert(3);

    let result = bitmap.query();
    assert_eq!(result.len(), 3);
    assert!(result.contains(1));
    assert!(result.contains(2));
    assert!(result.contains(3));
}

#[test]
fn test_lsm_bitmap_contains() {
    let mut bitmap = LsmBitmap::new();

    bitmap.insert(100);
    bitmap.insert(200);

    assert!(bitmap.contains(100));
    assert!(bitmap.contains(200));
    assert!(!bitmap.contains(300));
}

#[test]
fn test_lsm_bitmap_stats() {
    let mut bitmap = LsmBitmap::new();

    for i in 0..1000 {
        bitmap.insert(i);
    }

    let stats = bitmap.stats();
    assert!(stats.estimated_total >= 1000);
    assert_eq!(stats.delta_count, 1);
}

#[test]
fn test_lsm_bitmap_compaction() {
    let mut bitmap = LsmBitmap::with_config(2, 100);

    for i in 0..250 {
        bitmap.insert(i);
    }

    bitmap.compact();

    let stats = bitmap.stats();
    assert_eq!(stats.delta_count, 1);
    assert!(stats.estimated_total >= 250);
    assert_eq!(bitmap.query().len(), 250);
}

#[test]
fn test_lsm_bitmap_remove() {
    let mut bitmap = LsmBitmap::new();
    bitmap.insert(5);
    bitmap.insert(6);
    bitmap.compact();
    bitmap.remove(5);
    assert!(!bitmap.contains(5));
    assert!(bitmap.contains(6));
    // removal reaches the deltas too
    bitmap.insert(7);
    bitmap.remove(7);
    assert!(!bitmap.contains(7));
    assert!(!bitmap.query().contains(7));
}

#[test]
fn test_memcmp_accelerator_basic() {
    let mut accelerator = MemcmpAccelerator::new(PathBuf::from("/tmp/memcmp"));

    let token_program_id = unique_pubkey();
    accelerator.configure_program(token_program_id, token_program());

    let mut data = vec![0u8; 100];
    data[0..8].copy_from_slice(&[1, 2, 3, 4, 5, 6, 7, 8]);
    data[32..64].copy_from_slice(&[9; 32]);
    data[64..96].copy_from_slice(&[10; 32]);

    accelerator.insert_account(token_program_id, 1, &data);

    let result = accelerator.query(token_program_id, 0, &[1, 2, 3, 4, 5, 6, 7, 8]);
    assert!(result.is_some());
    assert!(result.unwrap().contains(1));

    let result = accelerator.query(token_program_id, 32, &[9; 32]);
    assert!(result.is_some());

    let result = accelerator.query(token_program_id, 64, &[10; 32]);
    assert!(result.is_some());

    let result = accelerator.query(token_program_id, 0, &[0; 8]);
    assert!(result.is_none());
}

#[test]
fn test_offset_index_stats() {
    let mut index = OffsetIndex::new();

    for i in 0..100 {
        index.insert(&[1, 2, 3], i);
    }

    let stats = index.stats();
    assert_eq!(stats.unique_keys, 1);
    assert_eq!(stats.total_entries, 100);
    assert_eq!(stats.total_entries as f64 / stats.unique_keys as f64, 100.0);
}
