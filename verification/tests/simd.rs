use hyperplane::index::simd_bitmap::{SimdBitmapEngine, SimdRoaringBitmap};
use hyperplane::index::tiered_dictionary::{L1HotDict, L2WarmDict, TieredDictionary};
use std::path::PathBuf;
use std::sync::Arc;

#[test]
fn test_simd_bitmap_and() {
    let engine = SimdBitmapEngine::new(1024);

    let a = vec![0b1100u64, 0b1010];
    let b = vec![0b1010u64, 0b1100];
    let mut result = vec![0u64; 2];

    engine.bitmap_and(&a, &b, &mut result);

    assert_eq!(result[0], 0b1000);
    assert_eq!(result[1], 0b1000);
}

#[test]
fn test_simd_bitmap_or() {
    let engine = SimdBitmapEngine::new(1024);

    let a = vec![0b1100u64, 0b1010];
    let b = vec![0b1010u64, 0b1100];
    let mut result = vec![0u64; 2];

    engine.bitmap_or(&a, &b, &mut result);

    assert_eq!(result[0], 0b1110);
    assert_eq!(result[1], 0b1110);
}

#[test]
fn test_simd_bitmap_xor_and_sizes() {
    let engine = SimdBitmapEngine::new(1024);
    let a = vec![0b1100u64, 0b1010];
    let b = vec![0b1010u64, 0b1100];
    let mut result = vec![0u64; 2];
    engine.bitmap_xor(&a, &b, &mut result);
    assert_eq!(result, vec![0b0110, 0b0110]);
    assert_eq!(engine.intersection_size(&a, &b), 2);
    assert_eq!(engine.union_size(&a, &b), 6);
}

#[test]
fn test_simd_popcount() {
    let engine = SimdBitmapEngine::new(1024);

    let bitmap = vec![0b1111u64, 0b1010, 0b0011];
    let count = engine.popcount(&bitmap);

    assert_eq!(count, 8);
}

#[test]
fn test_simd_find_set_bits() {
    let engine = SimdBitmapEngine::new(1024);
    let bitmap = vec![0u64, 0b1001, 1u64 << 63];
    assert_eq!(engine.find_first_set(&bitmap), Some(64));
    assert_eq!(engine.find_all_set(&bitmap), vec![64, 67, 191]);
    assert_eq!(engine.find_first_set(&[0u64, 0]), None);
}

#[test]
fn test_simd_merge_sorted() {
    let engine = SimdBitmapEngine::new(1024);
    assert_eq!(engine.merge_sorted(&[1, 3, 5], &[2, 3, 6]), vec![1, 2, 3, 5, 6]);
    assert_eq!(engine.merge_sorted(&[], &[4]), vec![4]);
}

#[test]
fn test_simd_roaring_bitmap() {
    let engine = Arc::new(SimdBitmapEngine::new(1024));

    let mut bitmap1 = SimdRoaringBitmap::new(engine.clone());
    bitmap1.insert(1);
    bitmap1.insert(2);
    bitmap1.insert(3);

    let mut bitmap2 = SimdRoaringBitmap::new(engine.clone());
    bitmap2.insert(2);
    bitmap2.insert(3);
    bitmap2.insert(4);

    let intersection = bitmap1.intersection(&bitmap2);
    assert_eq!(intersection.len(), 2);
    assert!(intersection.contains(2));
    assert!(intersection.contains(3));

    let union = bitmap1.union(&bitmap2);
    assert_eq!(union.len(), 4);

    let difference = bitmap1.difference(&bitmap2);
    assert_eq!(difference.iter(), vec![1]);
}

#[test]
fn test_l1_hot_dict() {
    let mut l1 = L1HotDict::new(100);

    l1.insert(1000, 1, 1);
    l1.insert(1000, 2, 2);

    let entry = l1.get(1000).unwrap();
    assert_eq!(entry.account_ids.len(), 2);
    assert!(entry.account_ids.contains(&1));
    assert!(entry.account_ids.contains(&2));
}

#[test]
fn test_l2_warm_dict_range_and_eviction() {
    let mut l2 = L2WarmDict::new(2);
    l2.insert(30, 1, 1);
    l2.insert(10, 2, 1);
    l2.insert(20, 3, 1);
    // full at two keys: the smallest key made room
    assert_eq!(l2.len(), 2);
    let keys: Vec<u64> = l2.range(0, 100).iter().map(|e| e.key).collect();
    assert_eq!(keys, vec![20, 30]);
    assert_eq!(l2.range(21, 30).len(), 1);
}

#[test]
fn test_tiered_dictionary() {
    let mut dict = TieredDictionary::new(PathBuf::from("/tmp/tiered_dict/cold.dict"), 100, 1000);

    dict.insert(1000, 1);
    dict.insert(2000, 2);

    let entry = dict.get(1000).unwrap();
    assert_eq!(entry.key, 1000);
    assert_eq!(entry.account_ids, vec![1]);

    let stats = dict.stats();
    assert_eq!(stats.l1_count, 2);
}

#[test]
fn test_tiered_dictionary_demotion() {
    let mut dict = TieredDictionary::new(PathBuf::from("/tmp/tiered_dict/cold.dict"), 100, 1000);
    dict.update_slot(5);
    dict.insert(7, 70);
    dict.demote_l1_to_l2(7);
    let stats = dict.stats();
    assert_eq!((stats.l1_count, stats.l2_count), (0, 1));
    // a hit in the warm tier is promoted back to the hot tier
    let entry = dict.get(7).unwrap();
    assert_eq!(entry.account_ids, vec![70]);
    assert_eq!(dict.stats().l1_count, 1);
    assert!(dict.demote_l2_to_l3(7).is_ok());
    assert_eq!(dict.stats().l3_count, 1);
    assert_eq!(dict.stats().total_count, 3);
}

#[test]
fn test_simd_jaccard() {
    let engine = Arc::new(SimdBitmapEngine::new(1024));

    let mut bitmap1 = SimdRoaringBitmap::new(engine.clone());
    bitmap1.insert(1);
    bitmap1.insert(2);
    bitmap1.insert(3);

    let mut bitmap2 = SimdRoaringBitmap::new(engine.clone());
    bitmap2.insert(2);
    bitmap2.insert(3);
    bitmap2.insert(4);

    // The similarity is the intersection's size over the union's size.
    let jaccard = bitmap1.intersection(&bitmap2).len() as f64 / bitmap1.union(&bitmap2).len() as f64;
    assert!((jaccard - 0.5).abs() < 0.01); // 2/4 = 0.5
}

#[test]
fn l1_hot_dict_full_tier_evicts_least_accessed() {
    let mut l1 = L1HotDict::new(2);
    l1.insert(1, 10, 1);
    l1.insert(2, 20, 1);
    l1.get(1);
    let e = l1.insert(3, 30, 2).unwrap();
    assert_eq!(e.key, 3);
    assert_eq!(e.account_ids, vec![30]);
    assert_eq!(e.access_count, 1);
    assert_eq!(l1.len(), 2);
    assert!(l1.get(2).is_none());
    assert!(l1.get(1).is_some());
}
