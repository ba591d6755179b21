use hyperplane::account::{Account, AccountView};
use hyperplane::bitmap::{PubkeyBitmap, PubkeyDictionary};
use hyperplane::dictionary::DictionaryState;
use hyperplane::location::{AccountLocation, StorageType};
use hyperplane::pubkey::Pubkey;
use hyperplane::rpc::{AccountEncoding, RpcContext};
use hyperplane::slot::{AtomicSlotTracker, CommitmentLevel, SlotContext};
use std::sync::Arc;

fn unique_pubkey() -> Pubkey {
    Pubkey::new_from_array(solana_sdk::pubkey::Pubkey::new_unique().to_bytes())
}

#[test]
fn test_location_ordering() {
    let loc1 = AccountLocation::new_base(1, 0, 100, 0, 80, 100, 1);
    let loc2 = AccountLocation::new_base(1, 100, 100, 0, 80, 100, 2);
    let loc3 = AccountLocation::new_base(1, 200, 100, 0, 80, 101, 1);

    assert!(loc2.is_newer_than(&loc1));
    assert!(loc3.is_newer_than(&loc1));
    assert!(loc3.is_newer_than(&loc2));
    assert!(!loc1.is_newer_than(&loc2));
}

#[test]
fn test_read_ranges() {
    let loc = AccountLocation::new_base(1, 1000, 120, 20, 100, 100, 1);

    assert_eq!(loc.read_range(), 1000..1120);
    assert_eq!(loc.data_range(), 1020..1120);
}

#[test]
fn test_rpc_context_defaults() {
    let ctx = RpcContext::default();
    assert_eq!(ctx.commitment, CommitmentLevel::Processed);
    assert_eq!(ctx.encoding, AccountEncoding::Base64);
    assert_eq!(ctx.limit, Some(1000));
    assert!(ctx.with_context);
}

#[test]
fn test_slot_context_update() {
    let mut ctx = SlotContext::new();
    ctx.update(100, 99);

    assert_eq!(ctx.processed_slot, 100);
    assert_eq!(ctx.confirmed_slot, 99);
    assert_eq!(ctx.finalized_slot, 69);

    ctx.update(200, 199);
    assert_eq!(ctx.processed_slot, 200);
    assert_eq!(ctx.confirmed_slot, 199);
    assert_eq!(ctx.finalized_slot, 169);
}

#[test]
fn test_commitment_satisfaction() {
    assert!(CommitmentLevel::Finalized.satisfies(&CommitmentLevel::Processed));
    assert!(CommitmentLevel::Finalized.satisfies(&CommitmentLevel::Confirmed));
    assert!(CommitmentLevel::Confirmed.satisfies(&CommitmentLevel::Processed));
    assert!(!CommitmentLevel::Processed.satisfies(&CommitmentLevel::Confirmed));
}

#[test]
fn test_atomic_slot_tracker() {
    let tracker = AtomicSlotTracker::new();
    let ctx = SlotContext {
        processed_slot: 100,
        confirmed_slot: 99,
        finalized_slot: 69,
        parent_slot: 99,
    };
    tracker.update(&ctx);

    assert_eq!(tracker.get_watermark(CommitmentLevel::Processed), 100);
    assert_eq!(tracker.get_watermark(CommitmentLevel::Confirmed), 99);
    assert_eq!(tracker.get_watermark(CommitmentLevel::Finalized), 69);
}

#[test]
fn test_account_view_conversion() {
    let solana_account = Account {
        lamports: 1000,
        data: vec![1, 2, 3, 4],
        owner: Pubkey::default(),
        executable: false,
        rent_epoch: 0,
    };

    let location = AccountLocation::new_base(1, 0, 100, 0, 4, 100, 1);
    let view = AccountView::from_solana_account(Pubkey::default(), &solana_account, 100, 1, location);

    assert_eq!(view.lamports, 1000);
    assert_eq!(view.data_size(), 4);
    assert_eq!(view.slot, 100);

    let converted = view.to_solana_account();
    assert_eq!(converted.lamports, 1000);
    assert_eq!(converted.data, vec![1, 2, 3, 4]);
}

#[test]
fn test_discriminator_extraction() {
    let account = AccountView {
        pubkey: Pubkey::default(),
        lamports: 0,
        data: Arc::new(vec![1, 2, 3, 4, 5, 6, 7, 8, 9, 10]),
        owner: Pubkey::default(),
        executable: false,
        slot: 0,
        write_version: 0,
        rent_epoch: 0,
        storage_type: StorageType::Base,
        location: AccountLocation::new_base(0, 0, 0, 0, 10, 0, 0),
    };

    assert_eq!(account.discriminator(), Some([1, 2, 3, 4, 5, 6, 7, 8]));
}

#[test]
fn test_discriminator_of_short_data_is_none() {
    let account = AccountView {
        pubkey: Pubkey::default(),
        lamports: 0,
        data: Arc::new(vec![1, 2, 3, 4, 5, 6, 7]),
        owner: Pubkey::default(),
        executable: false,
        slot: 0,
        write_version: 0,
        rent_epoch: 0,
        storage_type: StorageType::Base,
        location: AccountLocation::new_base(0, 0, 0, 0, 7, 0, 0),
    };
    assert_eq!(account.discriminator(), None);
}

#[test]
fn test_bitmap_operations() {
    let mut bitmap1 = PubkeyBitmap::new();
    bitmap1.insert(1);
    bitmap1.insert(2);
    bitmap1.insert(3);

    let mut bitmap2 = PubkeyBitmap::new();
    bitmap2.insert(2);
    bitmap2.insert(3);
    bitmap2.insert(4);

    let intersection = bitmap1.intersection(&bitmap2);
    assert_eq!(intersection.len(), 2);
    assert!(intersection.contains(2));
    assert!(intersection.contains(3));

    let union = bitmap1.union(&bitmap2);
    assert_eq!(union.len(), 4);

    let diff = bitmap1.difference(&bitmap2);
    assert_eq!(diff.len(), 1);
    assert!(diff.contains(1));
}

#[test]
fn test_pubkey_dictionary() {
    let mut dict = PubkeyDictionary::new();
    let pk1 = unique_pubkey();
    let pk2 = unique_pubkey();

    let id1 = dict.insert(pk1);
    let id2 = dict.insert(pk2);

    assert_eq!(dict.get_id(&pk1), Some(id1));
    assert_eq!(dict.get_id(&pk2), Some(id2));
    assert_eq!(dict.get_pubkey(id1), Some(pk1));
    assert_eq!(dict.get_pubkey(id2), Some(pk2));
    assert_eq!(dict.len(), 2);
}

#[test]
fn test_pubkey_dictionary_reinsert_keeps_id() {
    let mut dict = PubkeyDictionary::new();
    let pk = unique_pubkey();
    let first = dict.insert(pk);
    let second = dict.insert(pk);
    assert_eq!(first, 0);
    assert_eq!(second, 0);
    assert_eq!(dict.len(), 1);
}

#[test]
fn test_bitmap_serialization() {
    let mut bitmap = PubkeyBitmap::new();
    bitmap.insert(1);
    bitmap.insert(100);
    bitmap.insert(1000);

    let bytes = bitmap.serialize();
    let deserialized = PubkeyBitmap::deserialize(&bytes).unwrap();

    assert_eq!(deserialized.len(), 3);
    assert!(deserialized.contains(1));
    assert!(deserialized.contains(100));
    assert!(deserialized.contains(1000));
}

#[test]
fn test_bitmap_iter_ascending() {
    let mut bitmap = PubkeyBitmap::new();
    bitmap.insert(30);
    bitmap.insert(10);
    bitmap.insert(20);
    assert_eq!(bitmap.iter(), vec![10, 20, 30]);
    assert_eq!(bitmap.first_n(2), vec![10, 20]);
}

#[test]
fn test_pubkey_base58_text() {
    assert_eq!(Pubkey::default().to_string(), "11111111111111111111111111111111");
}

#[test]
fn test_dictionary_state_assignments() {
    let mut state = DictionaryState::new();
    let a = Pubkey::new_from_array([1u8; 32]);
    let b = Pubkey::new_from_array([2u8; 32]);
    assert_eq!(state.cached_id(&a), None);
    assert_eq!(state.assign(a), 0);
    assert_eq!(state.cached_id(&a), Some(0));
    assert_eq!(state.get_pubkey(0), Some(a));
    let writes = state.assign_batch(&[a, b, b]);
    assert_eq!(writes, vec![(b, 1)]);
    assert_eq!(state.next_id(), 2);
    assert_eq!(state.known_ids(&[b, Pubkey::default(), a]), vec![1, 0]);
    assert_eq!(state.get_pubkey(1), Some(b));
    assert_eq!(state.len(), 2);
}

#[test]
fn dictionary_state_reopens_from_stored_pairs() {
    let a = Pubkey::new_from_array([1u8; 32]);
    let b = Pubkey::new_from_array([2u8; 32]);
    let c = Pubkey::new_from_array([3u8; 32]);
    let mut st = DictionaryState::from_stored(&[(b, 1), (a, 0)]).unwrap();
    assert_eq!(st.cached_id(&a), Some(0));
    assert_eq!(st.cached_id(&b), Some(1));
    assert_eq!(st.get_pubkey(1), Some(b));
    assert_eq!(st.next_id(), 2);
    assert_eq!(st.assign(c), 2);
    assert_eq!(st.cached_id(&c), Some(2));
    assert!(DictionaryState::from_stored(&[]).is_some());
    assert!(DictionaryState::from_stored(&[(a, 1)]).is_none());
    assert!(DictionaryState::from_stored(&[(a, 0), (a, 1)]).is_none());
    assert!(DictionaryState::from_stored(&[(a, 0), (b, 0)]).is_none());
}
