use hyperplane::bitmap::PubkeyBitmap;
use hyperplane::index::data_size_index::DataSizeIndex;
use hyperplane::index::discriminator_index::DiscriminatorIndex;
use hyperplane::pubkey::Pubkey;
use hyperplane::query::bitmap_intersection::BitmapIntersectionEngine;
use hyperplane::query::cost_estimator::QueryCostEstimator;
use hyperplane::query::cost_model::{FilterType, QueryCostModel};
use hyperplane::query::types::GpaFilter;
use std::path::PathBuf;

fn unique_pubkey() -> Pubkey {
    Pubkey::new_from_array(solana_sdk::pubkey::Pubkey::new_unique().to_bytes())
}

#[test]
fn test_bitmap_intersection_basic() {
    let engine = BitmapIntersectionEngine::new();

    let mut bitmap1 = PubkeyBitmap::new();
    bitmap1.insert(1);
    bitmap1.insert(2);
    bitmap1.insert(3);

    let mut bitmap2 = PubkeyBitmap::new();
    bitmap2.insert(2);
    bitmap2.insert(3);
    bitmap2.insert(4);

    let result = engine.intersect(&[&bitmap1, &bitmap2]);

    assert_eq!(result.bitmap.len(), 2);
    assert!(result.bitmap.contains(2));
    assert!(result.bitmap.contains(3));
    assert_eq!(result.num_bitmaps, 2);
}

#[test]
fn test_bitmap_union_basic() {
    let engine = BitmapIntersectionEngine::new();

    let mut bitmap1 = PubkeyBitmap::new();
    bitmap1.insert(1);
    bitmap1.insert(2);

    let mut bitmap2 = PubkeyBitmap::new();
    bitmap2.insert(3);
    bitmap2.insert(4);

    let result = engine.union(&[&bitmap1, &bitmap2]);

    assert_eq!(result.len(), 4);
}

#[test]
fn test_bitmap_intersection_empty_input_and_difference() {
    let engine = BitmapIntersectionEngine::new();
    let result = engine.intersect(&[]);
    assert_eq!(result.bitmap.len(), 0);
    assert_eq!(result.num_bitmaps, 0);

    let mut a = PubkeyBitmap::new();
    a.insert(1);
    a.insert(2);
    let mut b = PubkeyBitmap::new();
    b.insert(2);
    let d = engine.difference(&a, &b);
    assert_eq!(d.len(), 1);
    assert!(d.contains(1));
}

#[test]
fn test_cost_estimator_basic() {
    let estimator = QueryCostEstimator::new();

    let mut bitmap = PubkeyBitmap::new();
    bitmap.insert(1);
    bitmap.insert(2);
    bitmap.insert(3);
    bitmap.insert(4);
    bitmap.insert(5);

    let estimate = estimator.estimate_get_program_accounts(&bitmap, 0, 0, false);

    assert!(estimate.total_cost > 0);
    assert_eq!(estimate.estimated_cardinality, 5);
}

#[test]
fn test_cost_estimator_with_filters() {
    let estimator = QueryCostEstimator::new();

    let mut bitmap = PubkeyBitmap::new();
    for i in 0..1000 {
        bitmap.insert(i);
    }

    let estimate_no_filter = estimator.estimate_get_program_accounts(&bitmap, 0, 0, false);
    let estimate_with_filter = estimator.estimate_get_program_accounts(&bitmap, 1, 0, false);

    assert!(estimate_with_filter.estimated_cardinality < estimate_no_filter.estimated_cardinality);
}

#[test]
fn test_cost_estimator_exact_values() {
    let estimator = QueryCostEstimator::new();
    let mut bitmap = PubkeyBitmap::new();
    for i in 0..1000 {
        bitmap.insert(i);
    }
    let e = estimator.estimate_get_program_accounts(&bitmap, 1, 0, false);
    assert_eq!(e.estimated_cardinality, 100);
    assert_eq!(e.components.intersection_cost, 20);
    assert_eq!(e.components.fetch_cost, 100);
    assert_eq!(e.total_cost, 220);
    assert!(!e.should_stream);

    let mut small = PubkeyBitmap::new();
    for i in 0..5 {
        small.insert(i);
    }
    let e = estimator.estimate_get_program_accounts(&small, 1, 1, true);
    assert_eq!(e.estimated_cardinality, 1);
    assert_eq!(e.components.filter_cost, 10);
    assert_eq!(e.total_cost, 151);

    let mut big = PubkeyBitmap::new();
    for i in 0..1001 {
        big.insert(i);
    }
    assert!(estimator.estimate_get_program_accounts(&big, 0, 0, false).should_stream);
}

#[test]
fn test_cost_model_basic() {
    let mut cost_model = QueryCostModel::new();

    let mut sizes = DataSizeIndex::new(PathBuf::from("/tmp/test_sizes"));
    for _ in 0..500 {
        sizes.add_account(unique_pubkey(), 165, 0);
    }
    let mut tags = DiscriminatorIndex::new(PathBuf::from("/tmp/test_tags"));
    for _ in 0..50 {
        tags.add_account(unique_pubkey(), [0, 1, 2, 3, 4, 5, 6, 7], 0);
    }
    cost_model.refresh_statistics(
        vec![(unique_pubkey(), 1000)],
        &sizes,
        vec![((32, vec![1, 2, 3]), 100)],
        &tags,
        1,
    );

    let filters = vec![
        GpaFilter::DataSize(165),
        GpaFilter::Memcmp { offset: 32, bytes: vec![1, 2, 3] },
        GpaFilter::Discriminator([0, 1, 2, 3, 4, 5, 6, 7]),
    ];

    let plan = cost_model.create_optimized_plan(unique_pubkey(), &filters);

    assert!(matches!(plan.execution_order[0], FilterType::Discriminator(_)));
    assert!(matches!(plan.execution_order[1], FilterType::Memcmp(_, _)));
    assert!(matches!(plan.execution_order[2], FilterType::DataSize(_)));

    assert!(plan.intermediate_cardinalities.windows(2).all(|w| w[0] <= w[1]));
}

#[test]
fn test_cost_model_plan_values() {
    let mut cost_model = QueryCostModel::new();
    let program = unique_pubkey();
    cost_model.update_account_statistics(&program, 10, &[1, 1, 1, 1, 1, 1, 1, 1, 9]);
    cost_model.update_account_statistics(&program, 10, &[2]);
    let stats = cost_model.get_statistics();
    assert_eq!(stats.total_accounts, 2);

    let e = cost_model.estimate_cardinality(&GpaFilter::DataSize(10));
    assert_eq!(e.estimated_cardinality, 2);
    assert_eq!(e.confidence_percent, 90);
    let e = cost_model.estimate_cardinality(&GpaFilter::DataSize(11));
    assert_eq!(e.estimated_cardinality, 0);
    assert_eq!(e.confidence_percent, 50);
    let e = cost_model.estimate_cardinality(&GpaFilter::Discriminator([1; 8]));
    assert_eq!(e.estimated_cardinality, 1);
    assert_eq!(e.confidence_percent, 95);

    let plan = cost_model.create_optimized_plan(program, &[GpaFilter::Discriminator([1; 8])]);
    assert_eq!(plan.intermediate_cardinalities, vec![1, 1]);
    // two lookups (20) + one intersection over 1 candidate (1) + memory for 1 result (2)
    assert_eq!(plan.estimated_total_cost, 23);
    assert_eq!(plan.estimated_time_us, 23);
}
