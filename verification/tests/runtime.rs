use hyperplane::account::AccountView;
use hyperplane::cli::{test_line_events, TestConfig, TestEvent};
use hyperplane::location::{AccountLocation, StorageType};
use hyperplane::pubkey::Pubkey;
use hyperplane::runtime::{IndexManager, IndexManagerConfig, RuntimeConfig, RuntimeStats, SynapseRuntime};
use std::sync::Arc;

const TOKEN_PROGRAM: [u8; 32] = [
    6, 167, 213, 23, 166, 155, 76, 121, 104, 160, 73, 198, 153, 124, 57, 121, 87, 101, 152, 199,
    246, 121, 126, 178, 126, 126, 39, 39, 34, 118, 153, 81,
];

fn account(pubkey: Pubkey, owner: Pubkey, data: Vec<u8>) -> AccountView {
    AccountView {
        pubkey,
        lamports: 1,
        data: Arc::new(data),
        owner,
        executable: false,
        slot: 1,
        write_version: 1,
        rent_epoch: 0,
        storage_type: StorageType::Base,
        location: AccountLocation::new_base(0, 0, 0, 0, 0, 1, 1),
    }
}

#[test]
fn test_runtime_config_defaults() {
    let c = RuntimeConfig::default();
    assert_eq!(c.ring_buffer_path, "/dev/shm/synapse-geyser.ring");
    assert_eq!(c.query_workers, 8);
    assert_eq!(c.index_workers, 4);
    assert_eq!(c.rpc_bind, "0.0.0.0:8898");
    assert!(c.enable_metrics);
    assert_eq!(c.metrics_port, 9090);
    let s = RuntimeStats {
        geysers_processed: 1,
        accounts_indexed: 2,
        queries_executed: 3,
        current_slot: 4,
        root_slot: 5,
        uptime_secs: 6,
    };
    assert_eq!(s.root_slot, 5);
}

#[test]
fn test_index_manager_feeds_indexes() {
    let mut manager = IndexManager::new(IndexManagerConfig::default());
    let token_program = Pubkey::new_from_array(TOKEN_PROGRAM);
    let mut data = vec![0u8; 80];
    data[0..32].copy_from_slice(&[4u8; 32]);
    data[32..64].copy_from_slice(&[5u8; 32]);
    let token_account = Pubkey::new_from_array([1u8; 32]);
    manager.update_account(&account(token_account, token_program, data), 7);

    let plain = Pubkey::new_from_array([2u8; 32]);
    manager.update_account(&account(plain, Pubkey::default(), vec![9u8; 5]), 8);

    let stats = manager.stats();
    assert_eq!(stats.total_updates, 2);
    assert_eq!(stats.total_indexed, 2);

    let sizes = manager.data_size_index().unwrap();
    assert_eq!(sizes.get_size_for_account(&token_account), Some(80));
    assert_eq!(sizes.get_size_for_account(&plain), Some(5));
    let tags = manager.discriminator_index().unwrap();
    assert_eq!(tags.get_discriminator_for_account(&token_account), Some([4u8; 8]));
    assert_eq!(tags.get_discriminator_for_account(&plain), None);

    manager.remove_account(&token_account);
    assert_eq!(manager.data_size_index().unwrap().get_size_for_account(&token_account), None);
}

#[test]
fn test_index_manager_respects_config() {
    let config = IndexManagerConfig {
        enable_data_size: false,
        enable_discriminator: false,
        ..IndexManagerConfig::default()
    };
    let manager = IndexManager::new(config);
    assert!(manager.data_size_index().is_none());
    assert!(manager.discriminator_index().is_none());
}

#[test]
fn test_console_config_defaults() {
    let c = TestConfig::default();
    assert_eq!(c.features, "rocksdb-backend");
    assert_eq!(c.profile, "all");
    assert_eq!(c.timeout, 300);
    assert!(!c.verbose);
    assert!(c.report_file.is_none());
    let e = TestEvent::Finished { total: 3, passed: 2, failed: 1 };
    assert!(matches!(e, TestEvent::Finished { total: 3, passed: 2, failed: 1 }));
}

#[test]
fn test_test_line_events() {
    let ev = test_line_events("test index::tests::basic ... ok");
    assert_eq!(ev.len(), 2);
    assert!(matches!(&ev[0], TestEvent::TestPassed(n) if n == "index::tests::basic"));
    assert!(matches!(&ev[1], TestEvent::Log(l) if l == "test index::tests::basic ... ok"));

    let ev = test_line_events("test a ... FAILED");
    assert!(matches!(&ev[0], TestEvent::TestFailed(n, l) if n == "a" && l == "test a ... FAILED"));

    let ev = test_line_events("test slow ... ignored");
    assert!(matches!(&ev[0], TestEvent::TestIgnored(n) if n == "slow"));

    let ev = test_line_events("test result: ok. 3 passed");
    assert_eq!(ev.len(), 1);
    let ev = test_line_events("running 3 tests");
    assert_eq!(ev.len(), 1);

    // the name stops at the next "test " and at the marker
    let ev = test_line_events("test x test y ... ok");
    assert!(matches!(&ev[0], TestEvent::TestPassed(n) if n == "x "));
}

#[test]
fn test_runtime_creation() {
    let config = RuntimeConfig::default();
    let runtime = SynapseRuntime::new(config);
    assert!(runtime.is_ok());
}

#[test]
fn test_runtime_stats() {
    let config = RuntimeConfig::default();
    let runtime = SynapseRuntime::new(config).unwrap();

    let stats = runtime.stats();
    assert_eq!(stats.geysers_processed, 0);
    assert_eq!(stats.queries_executed, 0);
    assert_eq!(stats.uptime_secs, 0);
}

#[test]
fn test_runtime_counts_updates() {
    let mut runtime = SynapseRuntime::new(RuntimeConfig::default()).unwrap();
    assert!(!runtime.is_running());
    runtime.mark_started();
    runtime.record_geyser_update(42);
    runtime.record_geyser_update(43);
    let stats = runtime.stats();
    assert_eq!(stats.geysers_processed, 2);
    assert_eq!(stats.current_slot, 43);
    assert_eq!(stats.root_slot, 0);
    let token_program = Pubkey::new_from_array(TOKEN_PROGRAM);
    runtime.index_manager_mut().update_account(&account(Pubkey::new_from_array([3u8; 32]), token_program, vec![0u8; 4]), 43);
    assert_eq!(runtime.stats().accounts_indexed, 1);
    runtime.stop();
    assert!(!runtime.is_running());
}
