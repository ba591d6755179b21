use hyperplane::location::AccountLocation;
use hyperplane::mapper::MmapAccountFile;
use hyperplane::pubkey::Pubkey;
use hyperplane::scanner::{
    build_base_locator, build_pubkey_dictionary, AccountFileScanner, ScannerConfig, ScannerError,
};

fn mapped(bytes: &[u8]) -> memmap2::Mmap {
    let mut m = memmap2::MmapMut::map_anon(bytes.len()).unwrap();
    m.copy_from_slice(bytes);
    m.make_read_only().unwrap()
}

fn names(list: &[&str]) -> Vec<String> {
    list.iter().map(|s| s.to_string()).collect()
}

#[test]
fn scanner_config_defaults() {
    let config = ScannerConfig::with_threads(6);
    assert_eq!(config.num_threads, 6);
    assert!(!config.detect_appendvec);
    assert!(config.validate_accounts);
    assert_eq!(config.progress_interval, 10);
    assert_eq!(config.accounts_path, std::path::PathBuf::from("/mnt/accounts"));
}

#[test]
fn discovery_orders_files_by_id() {
    let scanner = AccountFileScanner::new(ScannerConfig::with_threads(2));
    let found = scanner
        .discover_account_files(true, &names(&["7.0", "notes", "3.1", "7.2", "x.1", "12.0"]))
        .unwrap();
    assert_eq!(found, vec![(3, 2), (7, 0), (7, 3), (12, 5)]);
}

#[test]
fn discovery_of_missing_directory_fails() {
    let scanner = AccountFileScanner::new(ScannerConfig::with_threads(2));
    let r = scanner.discover_account_files(false, &names(&["1.0"]));
    assert!(matches!(r, Err(ScannerError::DirectoryNotFound(_))));
}

#[test]
fn scan_targets_without_account_files_fail() {
    let scanner = AccountFileScanner::new(ScannerConfig::with_threads(2));
    let r = scanner.scan_targets(true, &names(&["readme", "invalid"]));
    match r {
        Err(ScannerError::NoAccountFiles(p)) => assert_eq!(p, std::path::PathBuf::from("/mnt/accounts")),
        _ => panic!("expected NoAccountFiles"),
    }
    let r = scanner.scan_targets(false, &names(&["1.0"]));
    assert!(matches!(r, Err(ScannerError::DirectoryNotFound(_))));
    let r = scanner.scan_targets(true, &names(&["2.0", "1.0"])).unwrap();
    assert_eq!(r, vec![(1, 1), (2, 0)]);
}

#[test]
fn kept_mappings_are_found_and_cleared() {
    let mut scanner = AccountFileScanner::new(ScannerConfig::with_threads(2));
    assert!(scanner.get_mmap_file(4).is_none());
    scanner.keep_mmap_file(MmapAccountFile::new(4, mapped(&[1u8; 64]), "4.0".to_string()));
    scanner.keep_mmap_file(MmapAccountFile::new(9, mapped(&[2u8; 32]), "9.0".to_string()));
    let f = scanner.get_mmap_file(4).unwrap();
    assert_eq!(f.file_id, 4);
    assert_eq!(f.file_size(), 64);
    assert_eq!(f.path, "4.0");
    assert_eq!(scanner.get_mmap_file(9).unwrap().file_size(), 32);
    scanner.clear_mmap_cache();
    assert!(scanner.get_mmap_file(4).is_none());
    assert!(scanner.get_mmap_file(9).is_none());
}

#[test]
fn dictionary_from_scanned_pubkeys() {
    let a = Pubkey::new_from_array([1u8; 32]);
    let b = Pubkey::new_from_array([2u8; 32]);
    let c = Pubkey::new_from_array([3u8; 32]);
    let dict = build_pubkey_dictionary(&[b, a, b, c]);
    assert_eq!(dict.len(), 3);
    assert_eq!(dict.get_id(&b), Some(0));
    assert_eq!(dict.get_id(&a), Some(1));
    assert_eq!(dict.get_id(&c), Some(2));
}

#[test]
fn base_locator_keeps_last_location() {
    let a = Pubkey::new_from_array([1u8; 32]);
    let b = Pubkey::new_from_array([2u8; 32]);
    let first = AccountLocation::new_base(1, 0, 100, 0, 100, 5, 1);
    let second = AccountLocation::new_base(2, 64, 100, 0, 100, 6, 2);
    let other = AccountLocation::new_base(1, 128, 100, 0, 100, 5, 3);
    let locator = build_base_locator(&[(a, first), (b, other), (a, second)]);
    assert_eq!(locator.len(), 2);
    assert_eq!(locator.get(&a), Some(&second));
    assert_eq!(locator.get(&b), Some(&other));
}
