use hyperplane::delta::delta_consumer::{delta_location, DeltaConsumer, DeltaConsumerConfig, DeltaConsumerError};
use hyperplane::delta::update_reducer::UpdateReducer;
use hyperplane::location::{AccountLocation, StorageType};
use hyperplane::pubkey::Pubkey;

fn unique_pubkey() -> Pubkey {
    Pubkey::new_from_array(solana_sdk::pubkey::Pubkey::new_unique().to_bytes())
}

#[test]
fn test_delta_consumer_config() {
    let config = DeltaConsumerConfig::default();
    assert_eq!(config.poll_interval_ms, 10);
    assert_eq!(config.flush_batch_size, 1000);
}

#[test]
fn test_update_reducer_dedup() {
    let mut reducer = UpdateReducer::new();

    let pubkey = unique_pubkey();
    let location1 = AccountLocation {
        file_id: 1,
        offset: 1024,
        stored_size: 100,
        data_offset: 50,
        data_len: 100,
        slot: 100,
        write_version: 1,
        storage_type: StorageType::Delta,
    };

    assert!(!reducer.add_update(pubkey, 100, 1, location1));
    assert_eq!(reducer.pending_count(), 1);

    let location2 = AccountLocation {
        file_id: 1,
        offset: 2048,
        stored_size: 100,
        data_offset: 50,
        data_len: 100,
        slot: 101,
        write_version: 2,
        storage_type: StorageType::Delta,
    };
    assert!(reducer.add_update(pubkey, 101, 2, location2));
    assert_eq!(reducer.pending_count(), 1);

    let pending = reducer.get_pending_updates();
    assert_eq!(pending.len(), 1);
    assert_eq!(pending[0].1.write_version, 2);

    let stats = reducer.stats();
    assert_eq!(stats.dedup_count, 1);
}

#[test]
fn test_update_reducer_flush() {
    let mut reducer = UpdateReducer::with_threshold(3);

    for i in 0..3 {
        let pubkey = unique_pubkey();
        let location = AccountLocation {
            file_id: 1,
            offset: 1024 * i,
            stored_size: 100,
            data_offset: 50,
            data_len: 100,
            slot: 100 + i,
            write_version: 1,
            storage_type: StorageType::Delta,
        };
        reducer.add_update(pubkey, 100 + i, 1, location);
    }

    assert!(reducer.should_flush());

    let updates = reducer.flush();
    assert_eq!(updates.len(), 3);
    assert_eq!(reducer.pending_count(), 0);

    let stats = reducer.stats();
    assert_eq!(stats.flushed_count, 3);
}

#[test]
fn test_update_reducer_keeps_highest_write_version() {
    let mut reducer = UpdateReducer::new();
    let pubkey = unique_pubkey();
    let loc = AccountLocation::new_delta(1, 0, 10, 5, 7);
    reducer.add_update(pubkey, 5, 7, loc);
    let older = AccountLocation::new_delta(1, 64, 10, 6, 3);
    assert!(reducer.add_update(pubkey, 6, 3, older));
    let pending = reducer.get_pending_updates();
    assert_eq!(pending.len(), 1);
    assert_eq!(pending[0].1.write_version, 7);
    assert_eq!(pending[0].1.slot, 5);
    assert!(!reducer.should_flush());
}

#[test]
fn test_delta_consumer_segments() {
    let mut consumer = DeltaConsumer::new(DeltaConsumerConfig {
        flush_batch_size: 2,
        ..DeltaConsumerConfig::default()
    });
    assert!(consumer.start().is_ok());
    assert!(matches!(consumer.start(), Err(DeltaConsumerError::AlreadyRunning)));
    assert!(consumer.needs_new_segment());
    consumer.record_write(42);
    assert!(!consumer.should_flush_segment());
    assert_eq!(consumer.maybe_flush_segment(), None);
    consumer.record_write(43);
    assert!(consumer.should_flush_segment());
    assert_eq!(consumer.maybe_flush_segment(), Some(42));
    assert!(consumer.needs_new_segment());
    consumer.record_processed(5);
    consumer.record_error();
    let stats = consumer.stats(9);
    assert_eq!(stats.total_processed, 5);
    assert_eq!(stats.total_errors, 1);
    assert_eq!(stats.pending_updates, 9);
    assert_eq!(consumer.stop(), None);
    assert!(!consumer.is_running());
}

#[test]
fn test_delta_location_shape() {
    let loc = delta_location(9, 4, 300);
    assert_eq!(loc, AccountLocation::new_delta(0, 0, 300, 9, 4));
    assert_eq!(loc.storage_type, StorageType::Delta);
}

#[test]
fn test_ingest_entry() {
    let mut consumer = DeltaConsumer::new(DeltaConsumerConfig::default());
    let mut reducer = UpdateReducer::new();
    assert!(matches!(
        consumer.ingest_entry(&mut reducer, &[1u8; 31], 5, 1, 10),
        Err(DeltaConsumerError::InvalidPubkey)
    ));
    assert_eq!(reducer.pending_count(), 0);
    assert!(consumer.needs_new_segment());

    assert_eq!(consumer.ingest_entry(&mut reducer, &[1u8; 32], 5, 1, 10).unwrap(), Some(5));
    assert_eq!(consumer.ingest_entry(&mut reducer, &[1u8; 32], 6, 2, 10).unwrap(), None);
    assert_eq!(reducer.pending_count(), 1);
    assert_eq!(reducer.stats().dedup_count, 1);
    let pending = reducer.get_pending_updates();
    assert_eq!(pending[0].1.write_version, 2);
    assert_eq!(pending[0].1.location, delta_location(6, 2, 10));
    assert_eq!(consumer.stats(reducer.pending_count()).current_segment_entries, 2);
    assert_eq!(pending[0].1.slot, 6);
    // an older write version leaves the pending update as it was
    consumer.ingest_entry(&mut reducer, &[1u8; 32], 7, 1, 99).unwrap();
    let pending = reducer.get_pending_updates();
    assert_eq!(pending[0].1.slot, 6);
    assert_eq!(pending[0].1.location, delta_location(6, 2, 10));
}

#[test]
fn finishing_a_round_counts_and_flushes() {
    let mut consumer = DeltaConsumer::new(DeltaConsumerConfig {
        flush_batch_size: 2,
        ..DeltaConsumerConfig::default()
    });
    consumer.record_write(10);
    assert_eq!(consumer.finish_round(1), None);
    consumer.record_write(11);
    assert_eq!(consumer.finish_round(1), Some(10));
    assert_eq!(consumer.stats(0).total_processed, 2);
    assert!(consumer.needs_new_segment());
}
