//! The layered solution store: a bounded LRU hot tier of packed records,
//! a bounded FIFO warm tier with an index map, the unbounded cold store,
//! a range-partitioned index over it, and a membership filter that
//! short-circuits definite misses. A record in the indexed part of the
//! cold tier is never lost: the filter never rejects it and the index
//! always finds its key.

use vstd::prelude::*;
use vstd::hash_map::HashMapWithView;
use crate::memory::binary_cache::{BinaryCache, encode_cache};
use crate::memory::bloom_filter::BloomFilter;
use crate::memory::compact_solution::{CompactSolution, clamp_i32, op_code_of, delta_secs,
    extracted_nums};
use crate::memory::partitioned_index::lemma_key_of_injective;
use crate::memory::partitioned_index::{PartitionedIndex, key_of, key_of_x};
use crate::types::{MathSolution, ACC_PERFECT};

verus! {

/// Declares the outside LRU cache type so it can stand in a field; its
/// contents are reached only through the named view and the wrappers
/// below.
#[verifier::external_type_specification]
#[verifier::external_body]
#[verifier::reject_recursive_types(K)]
#[verifier::reject_recursive_types(V)]
#[verifier::reject_recursive_types(S)]
pub struct ExLruCache<K, V, S>(lru::LruCache<K, V, S>);

/// The packed form of one record, as two words.
pub type PackedRecord = (u64, u64);

/// The hot tier's underlying cache type.
pub type HotLru = lru::LruCache<u32, PackedRecord, std::collections::hash_map::RandomState>;

/// What the hot tier holds: packed records by quantized key. Recency
/// order is not modeled; eviction may drop any entry.
pub uninterp spec fn hot_map(c: &HotLru) -> Map<u32, PackedRecord>;

/// A hot tier with nothing in it.
pub open spec fn empty_hot_map() -> Map<u32, PackedRecord> {
    Map::empty()
}

/// Relies on `lru::LruCache::with_hasher`: a fresh, empty cache of the
/// given capacity.
#[verifier::external_body]
fn hot_new(cap: usize) -> (r: HotLru)
    requires
        cap >= 1,
    ensures
        hot_map(&r) == empty_hot_map(),
{
    lru::LruCache::with_hasher(
        std::num::NonZeroUsize::new(cap).unwrap(),
        std::collections::hash_map::RandomState::new(),
    )
}

/// Relies on `lru::LruCache::get`: returns the stored value for the key;
/// it only refreshes recency, leaving the contents unchanged.
#[verifier::external_body]
fn hot_get(c: &mut HotLru, k: u32) -> (r: Option<PackedRecord>)
    ensures
        hot_map(&*final(c)) == hot_map(&*old(c)),
        r == (if hot_map(&*old(c)).contains_key(k) {
            Some(hot_map(&*old(c))[k])
        } else {
            None
        }),
{
    c.get(&k).copied()
}

/// Relies on `lru::LruCache::put`: stores the pair under the key; when
/// the cache is full one other entry (the least recently used) may be
/// evicted, so the new contents lie within the old contents plus the new
/// pair.
#[verifier::external_body]
fn hot_put(c: &mut HotLru, k: u32, v: PackedRecord)
    ensures
        hot_map(&*final(c)).contains_key(k),
        hot_map(&*final(c))[k] == v,
        hot_map(&*final(c)).submap_of(hot_map(&*old(c)).insert(k, v)),
{
    c.put(k, v);
}

/// The low word of a packed record: the 32-bit result pattern, the
/// operation code and the timestamp delta.
pub open spec fn pack_lo(c: CompactSolution) -> u64 {
    (((c.result as u32) as u64) + (c.operation_code as u64) * 0x1_0000_0000 + (
    c.timestamp_delta as u64) * 0x100_0000_0000) as u64
}

/// The high word of a packed record: the three operand indices.
pub open spec fn pack_hi(c: CompactSolution) -> u64 {
    ((c.operands@[0] as u64) + (c.operands@[1] as u64) * 0x1_0000 + (c.operands@[2] as u64)
        * 0x1_0000_0000) as u64
}

/// Packs a record into two words.
fn pack_record(c: &CompactSolution) -> (r: (u64, u64))
    ensures
        r.0 == pack_lo(*c),
        r.1 == pack_hi(*c),
{
    let lo: u64 = ((c.result as u32) as u64) + (c.operation_code as u64) * 0x1_0000_0000 + (
    c.timestamp_delta as u64) * 0x100_0000_0000;
    let hi: u64 = (c.operands[0] as u64) + (c.operands[1] as u64) * 0x1_0000 + (
    c.operands[2] as u64) * 0x1_0000_0000;
    (lo, hi)
}

/// Unpacks two words back into the record they encode.
fn unpack_record(lo: u64, hi: u64) -> (r: CompactSolution)
    ensures
        forall|c: CompactSolution|
            lo == pack_lo(c) && hi == pack_hi(c) ==> r == c,
{
    let result: i32 = ((lo % 0x1_0000_0000) as u32) as i32;
    let op: u8 = ((lo / 0x1_0000_0000) % 0x100) as u8;
    let delta: u16 = ((lo / 0x100_0000_0000) % 0x1_0000) as u16;
    let o0: u16 = (hi % 0x1_0000) as u16;
    let o1: u16 = ((hi / 0x1_0000) % 0x1_0000) as u16;
    let o2: u16 = ((hi / 0x1_0000_0000) % 0x1_0000) as u16;
    let r = CompactSolution {
        result,
        operation_code: op,
        operands: [o0, o1, o2],
        timestamp_delta: delta,
    };
    proof {
        assert forall|c: CompactSolution| lo == pack_lo(c) && hi == pack_hi(c) implies r == c by {
            lemma_pack_fields(c);
            let cr = c.result;
            assert((cr as u32) as i32 == cr) by (bit_vector);
            assert(r.operands@ =~= c.operands@);
            assert(r.operands == c.operands);
        }
    }
    r
}

/// The packed words decompose back into the record's fields.
proof fn lemma_pack_fields(c: CompactSolution)
    ensures
        pack_lo(c) % 0x1_0000_0000 == (c.result as u32) as u64,
        (pack_lo(c) / 0x1_0000_0000) % 0x100 == c.operation_code as u64,
        (pack_lo(c) / 0x100_0000_0000) % 0x1_0000 == c.timestamp_delta as u64,
        pack_hi(c) % 0x1_0000 == c.operands@[0] as u64,
        (pack_hi(c) / 0x1_0000) % 0x1_0000 == c.operands@[1] as u64,
        (pack_hi(c) / 0x1_0000_0000) % 0x1_0000 == c.operands@[2] as u64,
{
    let x = (c.result as u32) as int;
    let op = c.operation_code as int;
    let dl = c.timestamp_delta as int;
    let h = op + 256 * dl;
    let lo = pack_lo(c) as int;
    assert(lo == x + 0x1_0000_0000 * h);
    vstd::arithmetic::div_mod::lemma_fundamental_div_mod_converse(lo, 0x1_0000_0000, h, x);
    vstd::arithmetic::div_mod::lemma_fundamental_div_mod_converse(h, 256, dl, op);
    assert(lo / 0x100_0000_0000 == dl) by {
        vstd::arithmetic::div_mod::lemma_fundamental_div_mod_converse(
            lo,
            0x100_0000_0000,
            dl,
            x + 0x1_0000_0000 * op,
        );
    }
    let o0 = c.operands@[0] as int;
    let o1 = c.operands@[1] as int;
    let o2 = c.operands@[2] as int;
    let g = o1 + 0x1_0000 * o2;
    let hi = pack_hi(c) as int;
    assert(hi == o0 + 0x1_0000 * g);
    vstd::arithmetic::div_mod::lemma_fundamental_div_mod_converse(hi, 0x1_0000, g, o0);
    vstd::arithmetic::div_mod::lemma_fundamental_div_mod_converse(g, 0x1_0000, o2, o1);
    assert(hi / 0x1_0000_0000 == o2) by {
        vstd::arithmetic::div_mod::lemma_fundamental_div_mod_converse(
            hi,
            0x1_0000_0000,
            o2,
            o0 + 0x1_0000 * o1,
        );
    }
}

/// Bumps a counter, saturating.
fn bump(x: u64) -> (r: u64)
    ensures
        r as int == vstd::math::min(x as int + 1, u64::MAX as int),
{
    if x < u64::MAX {
        x + 1
    } else {
        x
    }
}

/// The layered store.
pub struct TieredMemory {
    hot_cache: HotLru,
    warm_cache: Vec<CompactSolution>,
    warm_index: HashMapWithView<u32, usize>,
    cold_storage: BinaryCache,
    cold_index: PartitionedIndex,
    bloom: BloomFilter,
    hot_hits: u64,
    warm_hits: u64,
    cold_hits: u64,
    misses: u64,
    indexed: Ghost<int>,
}

impl TieredMemory {
    /// The cold tier's records.
    pub closed spec fn cold_records(&self) -> Seq<CompactSolution> {
        self.cold_storage.solutions@
    }

    /// How many cold records the partitioned index covers; records past
    /// this point wait for the next periodic rebuild.
    pub closed spec fn indexed_count(&self) -> int {
        self.indexed@
    }

    /// What the hot tier holds: packed records by quantized key.
    pub closed spec fn hot_contents(&self) -> Map<u32, PackedRecord> {
        hot_map(&self.hot_cache)
    }

    /// What the warm tier holds, in insertion order.
    pub closed spec fn warm_contents(&self) -> Seq<CompactSolution> {
        self.warm_cache@
    }

    /// The warm tier's index map, from quantized keys to warm positions.
    pub closed spec fn warm_keys(&self) -> Map<u32, usize> {
        self.warm_index@
    }

    /// The store's invariant: the filter is sound for every cold record,
    /// the partitioned index is well formed and covers the indexed
    /// prefix, at most ninety-nine trailing records are unindexed, and
    /// the warm tier's index points at real warm entries.
    pub closed spec fn inv(&self) -> bool {
        &&& self.bloom.wf()
        &&& self.cold_storage.wf()
        &&& forall|i: int|
            0 <= i < self.cold_storage.solutions@.len() ==> self.bloom.inserted_set().contains(
                (#[trigger] self.cold_storage.solutions@[i]).result,
            )
        &&& self.cold_index.wf_for(self.cold_storage.solutions@)
        &&& self.cold_index.complete_for(self.cold_storage.solutions@, self.indexed@)
        &&& 0 <= self.indexed@ <= self.cold_storage.solutions@.len()
        &&& self.indexed@ >= self.cold_storage.solutions@.len() - (
        self.cold_storage.solutions@.len() as int) % 100
        &&& forall|k: u32|
            (#[trigger] self.warm_index@.contains_key(k)) ==> self.warm_index@[k]
                < self.warm_cache@.len() && key_of(
                self.warm_cache@[self.warm_index@[k] as int].result,
            ) == k
        &&& forall|j: int|
            0 <= j < self.warm_cache@.len() ==> self.bloom.inserted_set().contains(
                (#[trigger] self.warm_cache@[j]).result,
            )
        &&& forall|k: u32|
            (#[trigger] hot_map(&self.hot_cache).contains_key(k)) ==> exists|c: CompactSolution|
                hot_map(&self.hot_cache)[k] == (pack_lo(c), pack_hi(c)) && key_of(c.result) == k
                    && self.bloom.inserted_set().contains(c.result)
    }

    /// Wraps a cold store: the index is built over all of its records and
    /// the filter is seeded with every record's result.
    pub fn new(cold_storage: BinaryCache) -> (r: Self)
        requires
            cold_storage.wf(),
            cold_storage.solutions@.len() <= 0x8000_0000,
        ensures
            r.inv(),
            r.cold_records() == cold_storage.solutions@,
            r.indexed_count() == cold_storage.solutions@.len(),
            r.spec_hot_hits() == 0,
            r.spec_warm_hits() == 0,
            r.spec_cold_hits() == 0,
            r.spec_misses() == 0,
            r.hot_contents() == Map::<u32, PackedRecord>::empty(),
            r.warm_contents() == Seq::<CompactSolution>::empty(),
            r.cold_start_time() == cold_storage.start_time,
    {
        let cold_index = PartitionedIndex::build_from_solutions(&cold_storage.solutions);
        let n = cold_storage.solutions.len();
        let seed = if n == 0 {
            1
        } else {
            n
        };
        let mut bloom = BloomFilter::new(seed, 100);
        let mut i: usize = 0;
        while i < n
            invariant
                i <= n,
                n == cold_storage.solutions@.len(),
                bloom.wf(),
                forall|j: int|
                    0 <= j < i ==> bloom.inserted_set().contains(
                        (#[trigger] cold_storage.solutions@[j]).result,
                    ),
            decreases n - i,
        {
            bloom.insert(cold_storage.solutions[i].result);
            i = i + 1;
        }
        let ghost n_ghost = cold_storage.solutions@.len() as int;
        TieredMemory {
            hot_cache: hot_new(100),
            warm_cache: Vec::new(),
            warm_index: HashMapWithView::new(),
            cold_storage,
            cold_index,
            bloom,
            hot_hits: 0,
            warm_hits: 0,
            cold_hits: 0,
            misses: 0,
            indexed: Ghost(n_ghost),
        }
    }

    /// Looks a target value up: the filter first (a rejection is a
    /// definite miss), then the hot, warm and cold tiers in order, with a
    /// warm hit promoted to hot and a cold hit promoted to warm. A hit
    /// always carries the target's own (clamped) result value; a value
    /// present in the indexed part of the cold tier, or keyed in the hot
    /// tier, is always found; and exactly one of the four counters rises,
    /// the miss counter exactly on a miss.
    pub fn get_solution(&mut self, target: i64) -> (r: Option<MathSolution>)
        requires
            old(self).inv(),
        ensures
            final(self).inv(),
            final(self).cold_records() == old(self).cold_records(),
            final(self).indexed_count() == old(self).indexed_count(),
            r matches Some(sol) ==> sol.accuracy == ACC_PERFECT,
            r matches Some(sol) ==> sol.result as int == clamp_i32(target as int),
            (exists|k: int|
                0 <= k < old(self).indexed_count() && (#[trigger] old(self).cold_records()[k]).result
                    as int == clamp_i32(target as int)) ==> r is Some,
            old(self).hot_contents().contains_key(key_of(clamp_i32(target as int) as i32))
                ==> r is Some && final(self).spec_hot_hits() as int == vstd::math::min(
                old(self).spec_hot_hits() as int + 1,
                u64::MAX as int,
            ),
            final(self).spec_hot_hits() != old(self).spec_hot_hits() ==> old(self).hot_contents().contains_key(key_of(clamp_i32(target as int) as i32)),
            final(self).cold_pool() == old(self).cold_pool(),
            final(self).cold_start_time() == old(self).cold_start_time(),
            r is None ==> final(self).hot_contents() == old(self).hot_contents() && final(self).warm_contents() == old(self).warm_contents() && final(self).warm_keys() == old(self).warm_keys(),
            final(self).spec_misses() as int == (if r is None {
                vstd::math::min(old(self).spec_misses() as int + 1, u64::MAX as int)
            } else {
                old(self).spec_misses() as int
            }),
            r is None ==> final(self).spec_hot_hits() == old(self).spec_hot_hits() && final(self).spec_warm_hits() == old(self).spec_warm_hits() && final(self).spec_cold_hits()
                == old(self).spec_cold_hits(),
            r is Some ==> ({
                ||| (final(self).spec_hot_hits() as int == vstd::math::min(
                    old(self).spec_hot_hits() as int + 1,
                    u64::MAX as int,
                ) && final(self).spec_warm_hits() == old(self).spec_warm_hits() && final(self).spec_cold_hits() == old(self).spec_cold_hits())
                ||| (final(self).spec_warm_hits() as int == vstd::math::min(
                    old(self).spec_warm_hits() as int + 1,
                    u64::MAX as int,
                ) && final(self).spec_hot_hits() == old(self).spec_hot_hits() && final(self).spec_cold_hits() == old(self).spec_cold_hits())
                ||| (final(self).spec_cold_hits() as int == vstd::math::min(
                    old(self).spec_cold_hits() as int + 1,
                    u64::MAX as int,
                ) && final(self).spec_hot_hits() == old(self).spec_hot_hits() && final(self).spec_warm_hits() == old(self).spec_warm_hits())
            }),
    {
        let t32: i32 = if target > 2147483647 {
            2147483647
        } else if target < -2147483648 {
            -2147483648
        } else {
            target as i32
        };
        let key = key_of_x(t32);
        if !self.bloom.might_contain(t32) {
            proof {
                if exists|k: int|
                    0 <= k < self.indexed@ && (#[trigger] self.cold_storage.solutions@[k]).result
                        as int == clamp_i32(target as int) {
                    let k = choose|k: int|
                        0 <= k < self.indexed@
                            && (#[trigger] self.cold_storage.solutions@[k]).result as int
                            == clamp_i32(target as int);
                    assert(self.bloom.inserted_set().contains(
                        self.cold_storage.solutions@[k].result,
                    ));
                    assert(self.cold_storage.solutions@[k].result == t32);
                }
                assert(t32 as int == clamp_i32(target as int));
                if hot_map(&self.hot_cache).contains_key(key) {
                    let c = choose|c: CompactSolution|
                        hot_map(&self.hot_cache)[key] == (pack_lo(c), pack_hi(c)) && key_of(
                            c.result,
                        ) == key && self.bloom.inserted_set().contains(c.result);
                    lemma_key_of_injective(c.result, t32);
                }
            }
            self.misses = bump(self.misses);
            return None;
        }
        if let Some(word) = hot_get(&mut self.hot_cache, key) {
            self.hot_hits = bump(self.hot_hits);
            let compact = unpack_record(word.0, word.1);
            proof {
                assert(hot_map(&old(self).hot_cache).contains_key(key));
                let c = choose|c: CompactSolution|
                    hot_map(&old(self).hot_cache)[key] == (pack_lo(c), pack_hi(c)) && key_of(
                        c.result,
                    ) == key;
                assert(word.0 == pack_lo(c) && word.1 == pack_hi(c));
                assert(compact == c);
                lemma_key_of_injective(c.result, t32);
                assert(compact.result == t32);
                assert(t32 as int == clamp_i32(target as int));
            }
            let sol = compact.to_math_solution(&self.cold_storage.operand_pool,
                self.cold_storage.start_time);
            return Some(sol);
        }
        proof {
            assert(!old(self).hot_contents().contains_key(key));
            assert(t32 as int == clamp_i32(target as int));
        }
        let warm_pos: Option<usize> = match self.warm_index.get(&key) {
            Some(i) => Some(*i),
            None => None,
        };
        if let Some(i) = warm_pos {
            if i < self.warm_cache.len() {
                self.warm_hits = bump(self.warm_hits);
                let compact = self.warm_cache[i];
                proof {
                    assert(key_of(compact.result) == key);
                    lemma_key_of_injective(compact.result, t32);
                    assert(compact.result == t32);
                    assert(t32 as int == clamp_i32(target as int));
                }
                let word = pack_record(&compact);
                let ghost pre_hot = hot_map(&self.hot_cache);
                hot_put(&mut self.hot_cache, key, word);
                proof {
                    assert(self.bloom.inserted_set().contains(compact.result));
                    assert forall|k2: u32| #[trigger]
                        hot_map(&self.hot_cache).contains_key(k2) implies exists|
                        c: CompactSolution,
                    |
                        hot_map(&self.hot_cache)[k2] == (pack_lo(c), pack_hi(c)) && key_of(
                            c.result,
                        ) == k2 && self.bloom.inserted_set().contains(c.result) by {
                        if k2 == key {
                            assert(hot_map(&self.hot_cache)[k2] == (
                                pack_lo(compact),
                                pack_hi(compact),
                            ) && key_of(compact.result) == k2
                                && self.bloom.inserted_set().contains(compact.result));
                        } else {
                            assert(pre_hot.insert(key, word).contains_key(k2));
                            assert(pre_hot.contains_key(k2));
                            assert(hot_map(&self.hot_cache)[k2] == pre_hot[k2]);
                        }
                    }
                }
                let sol = compact.to_math_solution(&self.cold_storage.operand_pool,
                    self.cold_storage.start_time);
                return Some(sol);
            }
        }
        if let Some(i) = self.cold_index.smart_search(t32) {
            if i < self.cold_storage.solutions.len() {
                self.cold_hits = bump(self.cold_hits);
                let compact = self.cold_storage.solutions[i];
                proof {
                    assert(self.cold_index.bucket(self.cold_index.routed(t32)).contains_key(
                        key_of(t32),
                    ));
                    assert(key_of(compact.result) == key_of(t32));
                    lemma_key_of_injective(compact.result, t32);
                    assert(compact.result == t32);
                    assert(t32 as int == clamp_i32(target as int));
                }
                let sol = compact.to_math_solution(&self.cold_storage.operand_pool,
                    self.cold_storage.start_time);
                self.promote_to_warm(key_of_x(compact.result), compact);
                return Some(sol);
            }
        }
        proof {
            if exists|k: int|
                0 <= k < self.indexed@ && (#[trigger] self.cold_storage.solutions@[k]).result
                    as int == clamp_i32(target as int) {
                let k = choose|k: int|
                    0 <= k < self.indexed@ && (#[trigger] self.cold_storage.solutions@[k]).result
                        as int == clamp_i32(target as int);
                assert(self.cold_storage.solutions@[k].result == t32);
                assert(self.cold_index.bucket(self.cold_index.routed(t32)).contains_key(
                    key_of(t32),
                ));
            }
        }
        self.misses = bump(self.misses);
        None
    }

    /// Moves a record into the warm tier; a full warm tier first drops
    /// its oldest entry and rebuilds the index map.
    fn promote_to_warm(&mut self, key: u32, solution: CompactSolution)
        requires
            old(self).inv(),
            key == key_of(solution.result),
            old(self).bloom.inserted_set().contains(solution.result),
        ensures
            final(self).inv(),
            final(self).cold_records() == old(self).cold_records(),
            final(self).indexed_count() == old(self).indexed_count(),
            final(self).cold_pool() == old(self).cold_pool(),
            final(self).cold_start_time() == old(self).cold_start_time(),
            final(self).hot_contents() == old(self).hot_contents(),
            final(self).spec_hot_hits() == old(self).spec_hot_hits(),
            final(self).spec_warm_hits() == old(self).spec_warm_hits(),
            final(self).spec_cold_hits() == old(self).spec_cold_hits(),
            final(self).spec_misses() == old(self).spec_misses(),
    {
        if self.warm_cache.len() >= 1000 {
            self.warm_cache.remove(0);
            let mut fresh: HashMapWithView<u32, usize> = HashMapWithView::new();
            let n = self.warm_cache.len();
            let mut i: usize = 0;
            while i < n
                invariant
                    i <= n,
                    n == self.warm_cache@.len(),
                    forall|k: u32|
                        (#[trigger] fresh@.contains_key(k)) ==> fresh@[k]
                            < self.warm_cache@.len() && key_of(
                            self.warm_cache@[fresh@[k] as int].result,
                        ) == k,
                decreases n - i,
            {
                let k = key_of_x(self.warm_cache[i].result);
                fresh.insert(k, i);
                i = i + 1;
            }
            self.warm_index = fresh;
        }
        let index = self.warm_cache.len();
        self.warm_cache.push(solution);
        self.warm_index.insert(key, index);
        proof {
            assert forall|k: u32| #[trigger]
                self.warm_index@.contains_key(k) implies self.warm_index@[k]
                < self.warm_cache@.len() && key_of(
                self.warm_cache@[self.warm_index@[k] as int].result,
            ) == k by {
            }
        }
    }

    /// Stores a solution: the filter learns its quantized result, the
    /// cold tier appends the compact record (result clamped, shape code
    /// and timestamp delta as compression defines them, operands interned
    /// in the pool), the hot tier caches the packed record under its key,
    /// and every hundredth record triggers a full index rebuild.
    pub fn insert_solution(&mut self, solution: &MathSolution)
        requires
            old(self).inv(),
            old(self).cold_records().len() < 0xffff_ffff,
        ensures
            final(self).inv(),
            final(self).cold_records().len() == old(self).cold_records().len() + 1,
            forall|k: int|
                0 <= k < old(self).cold_records().len() ==> final(self).cold_records()[k] == old(self).cold_records()[k],
            final(self).cold_records().last().result as int == clamp_i32(solution.result as int),
            final(self).cold_records().last().operation_code == op_code_of(solution.equation@),
            final(self).cold_records().last().timestamp_delta as int == delta_secs(
                solution.timestamp,
                old(self).cold_start_time(),
            ),
            final(self).cold_start_time() == old(self).cold_start_time(),
            final(self).cold_pool().len() >= old(self).cold_pool().len(),
            forall|k: int|
                0 <= k < old(self).cold_pool().len() ==> final(self).cold_pool()[k] == old(self).cold_pool()[k],
            ({
                let nums = extracted_nums(solution.equation@);
                old(self).cold_pool().len() + 3 <= 0x10000 ==> forall|k: int|
                    0 <= k < 3 && k < nums.len()
                        ==> (#[trigger] final(self).cold_records().last().operands@[k])
                        < final(self).cold_pool().len()
                        && final(self).cold_pool()[
                        final(self).cold_records().last().operands@[k] as int] == nums[k]
            }),
            final(self).hot_contents().contains_key(
                key_of(final(self).cold_records().last().result),
            ),
            final(self).hot_contents()[key_of(final(self).cold_records().last().result)] == (
                pack_lo(final(self).cold_records().last()),
                pack_hi(final(self).cold_records().last()),
            ),
            final(self).cold_records().len() as int % 100 == 0 ==> final(self).indexed_count()
                == final(self).cold_records().len() as int,
            final(self).spec_hot_hits() == old(self).spec_hot_hits(),
            final(self).spec_warm_hits() == old(self).spec_warm_hits(),
            final(self).spec_cold_hits() == old(self).spec_cold_hits(),
            final(self).spec_misses() == old(self).spec_misses(),
    {
        let compact = CompactSolution::from_math_solution(
            solution,
            &mut self.cold_storage.operand_pool,
            self.cold_storage.start_time,
        );
        self.bloom.insert(compact.result);
        self.cold_storage.solutions.push(compact);
        let key = key_of_x(compact.result);
        let word = pack_record(&compact);
        let ghost pre_hot = hot_map(&self.hot_cache);
        hot_put(&mut self.hot_cache, key, word);
        proof {
            assert(self.bloom.inserted_set().contains(compact.result));
            assert forall|k2: u32| #[trigger]
                hot_map(&self.hot_cache).contains_key(k2) implies exists|c: CompactSolution|
                hot_map(&self.hot_cache)[k2] == (pack_lo(c), pack_hi(c)) && key_of(c.result)
                    == k2 && self.bloom.inserted_set().contains(c.result) by {
                if k2 == key {
                    assert(hot_map(&self.hot_cache)[k2] == (pack_lo(compact), pack_hi(compact))
                        && key_of(compact.result) == k2
                        && self.bloom.inserted_set().contains(compact.result));
                } else {
                    assert(pre_hot.insert(key, word).contains_key(k2));
                    assert(pre_hot.contains_key(k2));
                    assert(hot_map(&self.hot_cache)[k2] == pre_hot[k2]);
                    let c0 = choose|c: CompactSolution|
                        hot_map(&old(self).hot_cache)[k2] == (pack_lo(c), pack_hi(c)) && key_of(
                            c.result,
                        ) == k2 && old(self).bloom.inserted_set().contains(c.result);
                    assert(self.bloom.inserted_set().contains(c0.result));
                }
            }
        }
        let n = self.cold_storage.solutions.len();
        if n % 100 == 0 {
            self.cold_index = PartitionedIndex::build_from_solutions(&self.cold_storage.solutions);
            proof {
                self.indexed@ = self.cold_storage.solutions@.len() as int;
            }
        } else {
            proof {
                assert(self.cold_index.wf_for(self.cold_storage.solutions@)) by {
                    assert(self.cold_index == old(self).cold_index);
                }
                assert(self.cold_index.complete_for(self.cold_storage.solutions@, self.indexed@));
            }
        }
    }

    /// Serializes the cold tier into one blob.
    pub fn save_bytes(&self) -> (r: Vec<u8>)
        requires
            self.inv(),
            self.cold_records().len() <= 0xffff_ffff,
        ensures
            r@ == encode_cache(
                self.cold_records(),
                self.cold_pool(),
                self.cold_start_time(),
            ),
    {
        self.cold_storage.to_bytes()
    }

    /// The cold tier's operand pool.
    pub closed spec fn cold_pool(&self) -> Seq<i64> {
        self.cold_storage.operand_pool@
    }

    /// The cold tier's start epoch.
    pub closed spec fn cold_start_time(&self) -> u64 {
        self.cold_storage.start_time
    }

    /// How many lookups were answered or missed in total.
    pub fn total_queries(&self) -> (r: u64)
        ensures
            r as int == vstd::math::min(
                self.spec_hot_hits() as int + self.spec_warm_hits() as int + self.spec_cold_hits()
                    as int + self.spec_misses() as int,
                u64::MAX as int,
            ),
    {
        let a = self.hot_hits;
        let b = if a <= u64::MAX - self.warm_hits {
            a + self.warm_hits
        } else {
            u64::MAX
        };
        let c = if b <= u64::MAX - self.cold_hits {
            b + self.cold_hits
        } else {
            u64::MAX
        };
        if c <= u64::MAX - self.misses {
            c + self.misses
        } else {
            u64::MAX
        }
    }

    /// The hot-tier hit counter.
    pub closed spec fn spec_hot_hits(&self) -> u64 {
        self.hot_hits
    }

    /// The warm-tier hit counter.
    pub closed spec fn spec_warm_hits(&self) -> u64 {
        self.warm_hits
    }

    /// The cold-tier hit counter.
    pub closed spec fn spec_cold_hits(&self) -> u64 {
        self.cold_hits
    }

    /// The miss counter.
    pub closed spec fn spec_misses(&self) -> u64 {
        self.misses
    }

    /// The hot-tier hit count.
    pub fn hot_hit_count(&self) -> (r: u64)
        ensures
            r == self.spec_hot_hits(),
    {
        self.hot_hits
    }

    /// The warm-tier hit count.
    pub fn warm_hit_count(&self) -> (r: u64)
        ensures
            r == self.spec_warm_hits(),
    {
        self.warm_hits
    }

    /// The cold-tier hit count.
    pub fn cold_hit_count(&self) -> (r: u64)
        ensures
            r == self.spec_cold_hits(),
    {
        self.cold_hits
    }

    /// The miss count.
    pub fn miss_count(&self) -> (r: u64)
        ensures
            r == self.spec_misses(),
    {
        self.misses
    }

    /// The expected false-positive rate of the filter, in hundredths of a
    /// percent.
    pub fn filter_false_positive_bp(&self) -> (r: u64)
        requires
            self.inv(),
        ensures
            r <= 10000,
    {
        self.bloom.expected_false_positive_bp()
    }

    /// How many records the cold tier holds.
    pub fn len(&self) -> (r: usize)
        ensures
            r == self.cold_records().len(),
    {
        self.cold_storage.len()
    }

    /// Whether the cold tier holds no record.
    pub fn is_empty(&self) -> (r: bool)
        ensures
            r == (self.cold_records().len() == 0),
    {
        self.cold_storage.is_empty()
    }
}

} // verus!
