//! The multi-tier solution cache: compact binary records, the operand
//! pool, the probabilistic membership filter, the range-partitioned
//! index, the cold binary store and the tiered front end.

pub mod binary_cache;
pub mod bloom_filter;
pub mod compact_solution;
pub mod partitioned_index;
pub mod tiered_cache;
