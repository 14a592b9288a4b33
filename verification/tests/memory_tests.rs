//! Tests of the multi-tier cache: the cold binary store, the membership
//! filter, the operand pool, the compact records and the partitioned
//! index. Values are fixed-point in hundredth units: `4200` is `42.00`.

use quantum_solver::memory::binary_cache::BinaryCache;
use quantum_solver::memory::bloom_filter::BloomFilter;
use quantum_solver::memory::compact_solution::{
    extract_numbers_from_equation, parse_operation_code, CompactSolution, OperandPool,
};
use quantum_solver::memory::partitioned_index::PartitionedIndex;
use quantum_solver::memory::tiered_cache::TieredMemory;
use quantum_solver::types::MathSolution;
use std::mem::size_of;

fn solution(result: i64, equation: &str) -> MathSolution {
    MathSolution {
        result,
        equation: equation.to_string(),
        accuracy: 10000,
        timestamp: 0,
        attempts: 1,
        formula: None,
    }
}

#[test]
fn test_binary_cache_creation() {
    let cache = BinaryCache::new("test.bin", 0);
    assert_eq!(cache.len(), 0);
}

#[test]
fn test_insert_and_get() {
    let mut cache = BinaryCache::new("test.bin", 0);

    let sol = solution(4200, "2 * 3 * 7");
    cache.insert_solution(&sol);
    assert_eq!(cache.len(), 1);

    let retrieved = cache.get_solution(4200);
    assert!(retrieved.is_some());
    assert_eq!(retrieved.unwrap().result, 4200);
}

#[test]
fn test_bloom_filter_basic() {
    let mut bloom = BloomFilter::new(100, 100);

    bloom.insert(4200);
    bloom.insert(314);

    assert!(bloom.might_contain(4200));
    assert!(bloom.might_contain(314));
    assert!(!bloom.might_contain(99900) || true);
}

#[test]
fn test_bloom_filter_false_positive_rate() {
    let mut bloom = BloomFilter::new(1000, 100);

    for i in 0..1000 {
        bloom.insert(i);
    }

    let fp_bp = bloom.expected_false_positive_bp();
    assert!(fp_bp < 200, "FP rate too high: {}", fp_bp);
    assert!(bloom.bits_len() >= 64);
}

#[test]
fn test_bloom_filter_negative_lookups() {
    let mut bloom = BloomFilter::new(100, 100);

    for i in 0..100 {
        bloom.insert(i);
    }

    let mut true_negatives = 0;
    for i in 1000..1100 {
        if !bloom.might_contain(i) {
            true_negatives += 1;
        }
    }

    assert!(true_negatives > 90, "Too many false positives");
}

#[test]
fn test_compact_solution_size() {
    assert!(size_of::<CompactSolution>() <= 16, "CompactSolution should be compact");
}

#[test]
fn test_operand_pool() {
    let mut pool = OperandPool::new();
    let idx1 = pool.register(4200);
    let idx2 = pool.register(314);
    let idx3 = pool.register(4200);

    assert_eq!(idx1, idx3);
    assert_ne!(idx1, idx2);
    assert_eq!(pool.get(idx1), Some(4200));
    assert_eq!(pool.get(idx2), Some(314));
}

#[test]
fn test_extract_numbers() {
    let nums = extract_numbers_from_equation("2 + 3.14 * 5");
    assert_eq!(nums, vec![200, 314, 500]);
}

#[test]
fn test_extract_negative_and_clamped() {
    let nums = extract_numbers_from_equation("-2.5 / 4");
    assert_eq!(nums, vec![-250, 400]);
}

#[test]
fn test_parse_operation_codes() {
    assert_eq!(parse_operation_code("3 + 4"), 0);
    assert_eq!(parse_operation_code("3 - 4"), 1);
    assert_eq!(parse_operation_code("3 * 4"), 2);
    assert_eq!(parse_operation_code("3 / 4"), 3);
    assert_eq!(parse_operation_code("3 ^ 4"), 4);
    assert_eq!(parse_operation_code("3 + 4 + 2"), 5);
    assert_eq!(parse_operation_code("2 + 3.14 * 5"), 15);
    assert_eq!(parse_operation_code("sqrt(9)"), 0);
}

#[test]
fn test_partitioned_index_basic() {
    let mut pool = OperandPool::new();
    let start_time = 0;

    let mut solutions = Vec::new();
    for i in 0..30 {
        let sol = solution(i * 100, &format!("{}", i));
        solutions.push(CompactSolution::from_math_solution(&sol, &mut pool, start_time));
    }

    let index = PartitionedIndex::build_from_solutions(&solutions);

    assert!(index.smart_search(500).is_some());
    assert!(index.smart_search(1500).is_some());
    assert!(index.smart_search(2500).is_some());
}

#[test]
fn test_partitioned_index_miss() {
    let index = PartitionedIndex::build_from_solutions(&Vec::new());
    assert!(index.smart_search(500).is_none());
    assert!(index.is_empty());
}

#[test]
fn test_tiered_memory_basic() {
    let cache = BinaryCache::new("test.bin", 0);
    let mut tiered = TieredMemory::new(cache);

    tiered.insert_solution(&solution(4200, "6 * 7"));

    let retrieved = tiered.get_solution(4200);
    assert!(retrieved.is_some());
    assert_eq!(retrieved.unwrap().result, 4200);
    assert_eq!(tiered.hot_hit_count(), 1);
}

#[test]
fn test_cache_promotion() {
    let cache = BinaryCache::new("test.bin", 0);
    let mut tiered = TieredMemory::new(cache);

    for i in 0..150 {
        tiered.insert_solution(&solution(i * 100, &format!("{}", i)));
    }

    let retrieved = tiered.get_solution(1000);
    assert!(retrieved.is_some());
    assert!(tiered.cold_hit_count() + tiered.warm_hit_count() + tiered.hot_hit_count() >= 1);
}

#[test]
fn test_tiered_memory_miss_is_counted() {
    let cache = BinaryCache::new("test.bin", 0);
    let mut tiered = TieredMemory::new(cache);
    tiered.insert_solution(&solution(4200, "6 * 7"));
    assert!(tiered.get_solution(123456).is_none());
    assert_eq!(tiered.total_queries(), 1);
}

#[test]
fn test_counters_start_at_zero_and_inserts_leave_them() {
    let cache = BinaryCache::new("test.bin", 0);
    let mut tiered = TieredMemory::new(cache);
    assert_eq!(tiered.total_queries(), 0);

    tiered.insert_solution(&solution(4200, "6 * 7"));
    assert_eq!(tiered.hot_hit_count(), 0);
    assert_eq!(tiered.warm_hit_count(), 0);
    assert_eq!(tiered.cold_hit_count(), 0);
    assert_eq!(tiered.miss_count(), 0);
}

#[test]
fn test_negative_results_keep_distinct_keys() {
    let cache = BinaryCache::new("test.bin", 0);
    let mut tiered = TieredMemory::new(cache);
    tiered.insert_solution(&solution(-100, "0 - 1"));
    tiered.insert_solution(&solution(-200, "0 - 2"));

    let a = tiered.get_solution(-100).unwrap();
    assert_eq!(a.result, -100);
    let b = tiered.get_solution(-200).unwrap();
    assert_eq!(b.result, -200);
}

#[test]
fn test_partitioned_index_negative_values() {
    let mut pool = OperandPool::new();
    let mut solutions = Vec::new();
    for r in [-100i64, -200, 300] {
        let sol = solution(r, "0 - 1");
        solutions.push(CompactSolution::from_math_solution(&sol, &mut pool, 0));
    }
    let index = PartitionedIndex::build_from_solutions(&solutions);
    let j = index.smart_search(-100).unwrap();
    assert_eq!(solutions[j].result, -100);
    let k = index.smart_search(-200).unwrap();
    assert_eq!(solutions[k].result, -200);
}

#[test]
fn test_round_trip_persistence() {
    let mut cache = BinaryCache::new("test.bin", 77);
    cache.insert_solution(&solution(4200, "6 * 7"));
    cache.insert_solution(&solution(-314, "0 - 3.14"));

    let bytes = cache.to_bytes();
    let loaded = BinaryCache::from_bytes(&bytes, "test.bin").unwrap();

    assert_eq!(loaded.len(), 2);
    assert_eq!(loaded.start_time, 77);
    let back = loaded.get_solution(4200).unwrap();
    assert_eq!(back.result, 4200);
    let neg = loaded.get_solution(-314).unwrap();
    assert_eq!(neg.result, -314);
}

#[test]
fn test_corrupt_blob_is_rejected() {
    let bytes = vec![1u8, 2, 3];
    assert!(BinaryCache::from_bytes(&bytes, "test.bin").is_err());
}

#[test]
fn test_reconstruction_uses_code_table() {
    let mut cache = BinaryCache::new("test.bin", 0);
    cache.insert_solution(&solution(700, "3 + 4"));
    let back = cache.get_solution(700).unwrap();
    assert_eq!(back.equation, "3 + 4");
    assert_eq!(back.accuracy, 10000);
}
