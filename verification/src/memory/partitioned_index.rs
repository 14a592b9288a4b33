//! The three-way range-partitioned index over the cold tier: result keys
//! are split into head, middle and tail buckets at boundaries chosen near
//! the 33rd and 66th percentiles at build time, and a lookup is routed to
//! the one bucket its value belongs to.

use vstd::prelude::*;
use std::collections::BTreeMap;
use crate::memory::compact_solution::CompactSolution;

verus! {

broadcast use vstd::laws_cmp::group_laws_cmp;

/// The integer key a result value is indexed under: the value shifted
/// into the unsigned range, so that distinct results always carry
/// distinct keys and the key order follows the value order.
pub open spec fn key_of(v: i32) -> u32 {
    (v as int + 0x8000_0000) as u32
}

/// Distinct results carry distinct keys.
pub proof fn lemma_key_of_injective(a: i32, b: i32)
    requires
        key_of(a) == key_of(b),
    ensures
        a == b,
{
    assert(a as int + 0x8000_0000 == (a as int + 0x8000_0000) as u32);
    assert(b as int + 0x8000_0000 == (b as int + 0x8000_0000) as u32);
}

/// Computes a result value's index key.
pub fn key_of_x(v: i32) -> (r: u32)
    ensures
        r == key_of(v),
{
    let shifted: i64 = v as i64 + 0x8000_0000;
    shifted as u32
}

/// A three-bucket range index from quantized result keys to positions in
/// the cold store.
pub struct PartitionedIndex {
    head: BTreeMap<u32, usize>,
    middle: BTreeMap<u32, usize>,
    tail: BTreeMap<u32, usize>,
    head_max: i32,
    middle_max: i32,
}

impl PartitionedIndex {
    /// The head bucket's entries.
    pub closed spec fn heads(&self) -> Map<u32, usize> {
        self.head@
    }

    /// The middle bucket's entries.
    pub closed spec fn middles(&self) -> Map<u32, usize> {
        self.middle@
    }

    /// The tail bucket's entries.
    pub closed spec fn tails(&self) -> Map<u32, usize> {
        self.tail@
    }

    /// The head bucket's upper boundary.
    pub closed spec fn hmax(&self) -> i32 {
        self.head_max
    }

    /// The middle bucket's upper boundary.
    pub closed spec fn mmax(&self) -> i32 {
        self.middle_max
    }

    /// Which bucket a value routes to.
    pub open spec fn routed(&self, v: i32) -> int {
        if v <= self.hmax() {
            0
        } else if v <= self.mmax() {
            1
        } else {
            2
        }
    }

    /// One bucket's entries.
    pub open spec fn bucket(&self, b: int) -> Map<u32, usize> {
        if b == 0 {
            self.heads()
        } else if b == 1 {
            self.middles()
        } else {
            self.tails()
        }
    }

    /// What a routed lookup returns.
    pub open spec fn search_spec(&self, v: i32) -> Option<usize> {
        let m = self.bucket(self.routed(v));
        if m.contains_key(key_of(v)) {
            Some(m[key_of(v)])
        } else {
            None
        }
    }

    /// What a fan-out lookup returns: the first bucket holding the key,
    /// in head, middle, tail order.
    pub open spec fn fanout_spec(&self, v: i32) -> Option<usize> {
        let k = key_of(v);
        if self.heads().contains_key(k) {
            Some(self.heads()[k])
        } else if self.middles().contains_key(k) {
            Some(self.middles()[k])
        } else if self.tails().contains_key(k) {
            Some(self.tails()[k])
        } else {
            None
        }
    }

    /// Every bucket entry points at a record of the store whose key it
    /// carries, and sits in exactly the bucket that record's value routes
    /// to.
    pub open spec fn wf_for(&self, sols: Seq<CompactSolution>) -> bool {
        forall|b: int, k: u32|
            0 <= b < 3 && #[trigger] self.bucket(b).contains_key(k) ==> {
                let i = self.bucket(b)[k];
                &&& i < sols.len()
                &&& key_of(sols[i as int].result) == k
                &&& self.routed(sols[i as int].result) == b
            }
    }

    /// Every record before `upto` is reachable: the bucket its value
    /// routes to holds its key.
    pub open spec fn complete_for(&self, sols: Seq<CompactSolution>, upto: int) -> bool {
        forall|i: int|
            0 <= i < upto && i < sols.len() ==> self.bucket(
                self.routed(#[trigger] sols[i].result),
            ).contains_key(key_of(sols[i].result))
    }

    /// How many keys the three buckets hold together.
    pub open spec fn key_count(&self) -> int {
        self.heads().len() as int + self.middles().len() as int + self.tails().len() as int
    }

    /// Builds the index over the store's records: an empty store yields
    /// an empty index with zero boundaries; otherwise the boundaries are
    /// the one-third and two-thirds positions of the sorted results, and
    /// every record's key is inserted into the bucket its value routes
    /// to. A key appearing twice keeps the later record's position.
    pub fn build_from_solutions(solutions: &Vec<CompactSolution>) -> (r: Self)
        ensures
            r.wf_for(solutions@),
            r.complete_for(solutions@, solutions@.len() as int),
            r.key_count() <= solutions@.len(),
            solutions@.len() == 0 ==> r.heads() == Map::<u32, usize>::empty() && r.middles()
                == Map::<u32, usize>::empty() && r.tails() == Map::<u32, usize>::empty()
                && r.hmax() == 0 && r.mmax() == 0,
            solutions@.len() > 0 ==> r.hmax() <= r.mmax() && boundaries_from_percentiles(
                r.hmax(),
                r.mmax(),
                results_of(solutions@),
            ),
    {
        broadcast use vstd::seq_lib::group_to_multiset_ensures;

        let n = solutions.len();
        if n == 0 {
            return PartitionedIndex {
                head: BTreeMap::new(),
                middle: BTreeMap::new(),
                tail: BTreeMap::new(),
                head_max: 0,
                middle_max: 0,
            };
        }
        let mut results: Vec<i32> = Vec::new();
        let mut i: usize = 0;
        while i < n
            invariant
                i <= n,
                n == solutions@.len(),
                results@.len() == i,
                forall|k: int| 0 <= k < i ==> results@[k] == (#[trigger] solutions@[k]).result,
            decreases n - i,
        {
            results.push(solutions[i].result);
            i = i + 1;
        }
        let ghost raw = results@;
        sort_values(&mut results);
        let third = n / 3;
        let head_max = if third > 0 {
            results[third]
        } else {
            results[0]
        };
        let middle_max = if 2 * third < n {
            results[2 * third]
        } else {
            results[n - 1]
        };
        proof {
            assert(raw =~= results_of(solutions@));
            let ss = results@;
            let third = raw.len() as int / 3;
            assert(ss.to_multiset() == raw.to_multiset());
            assert(head_max == ss[if third > 0 {
                third
            } else {
                0
            }]);
            assert(middle_max == ss[if 2 * third < raw.len() {
                2 * third
            } else {
                raw.len() - 1
            }]);
            assert(boundaries_from_percentiles(head_max, middle_max, results_of(solutions@)));
            let i1: int = if third > 0 {
                third
            } else {
                0
            };
            let i2: int = if 2 * third < raw.len() {
                2 * third
            } else {
                raw.len() - 1
            };
            assert(i1 <= i2);
            assert(head_max <= middle_max);
        }
        let mut idx = PartitionedIndex {
            head: BTreeMap::new(),
            middle: BTreeMap::new(),
            tail: BTreeMap::new(),
            head_max,
            middle_max,
        };
        let mut i: usize = 0;
        while i < n
            invariant
                i <= n,
                n == solutions@.len(),
                idx.hmax() == head_max,
                idx.mmax() == middle_max,
                idx.wf_for(solutions@),
                idx.complete_for(solutions@, i as int),
                idx.key_count() <= i,
            decreases n - i,
        {
            insert_routed(&mut idx, solutions, i);
            i = i + 1;
        }
        idx
    }

    /// Looks a value up in the one bucket it routes to.
    pub fn smart_search(&self, target: i32) -> (r: Option<usize>)
        ensures
            r == self.search_spec(target),
    {
        let key = key_of_x(target);
        let found = if target <= self.head_max {
            self.head.get(&key)
        } else if target <= self.middle_max {
            self.middle.get(&key)
        } else {
            self.tail.get(&key)
        };
        match found {
            Some(i) => Some(*i),
            None => None,
        }
    }

    /// Looks a value up in every bucket, returning the first hit.
    pub fn parallel_search(&self, target: i32) -> (r: Option<usize>)
        ensures
            r == self.fanout_spec(target),
    {
        let key = key_of_x(target);
        if let Some(i) = self.head.get(&key) {
            return Some(*i);
        }
        if let Some(i) = self.middle.get(&key) {
            return Some(*i);
        }
        if let Some(i) = self.tail.get(&key) {
            return Some(*i);
        }
        None
    }

    /// How many keys the three buckets hold together, saturating.
    pub fn len(&self) -> (r: usize)
        ensures
            r as int == vstd::math::min(
                self.heads().len() as int + self.middles().len() as int
                    + self.tails().len() as int,
                usize::MAX as int,
            ),
    {
        let h = self.head.len();
        let m = self.middle.len();
        let t = self.tail.len();
        let hm = if h <= usize::MAX - m {
            h + m
        } else {
            usize::MAX
        };
        if hm <= usize::MAX - t {
            hm + t
        } else {
            usize::MAX
        }
    }

    /// Whether no key is indexed.
    pub fn is_empty(&self) -> (r: bool)
        ensures
            r == (self.heads().len() + self.middles().len() + self.tails().len() == 0),
    {
        self.head.is_empty() && self.middle.is_empty() && self.tail.is_empty()
    }

    /// An empty index.
    pub fn new_empty() -> (r: Self)
        ensures
            r.heads() == Map::<u32, usize>::empty(),
            r.middles() == Map::<u32, usize>::empty(),
            r.tails() == Map::<u32, usize>::empty(),
    {
        PartitionedIndex {
            head: BTreeMap::new(),
            middle: BTreeMap::new(),
            tail: BTreeMap::new(),
            head_max: 0,
            middle_max: 0,
        }
    }
}


/// Inserts one record's key into the bucket its value routes to,
/// preserving the index's well-formedness and extending its coverage by
/// one record.
fn insert_routed(idx: &mut PartitionedIndex, solutions: &Vec<CompactSolution>, i: usize)
    requires
        i < solutions@.len(),
        old(idx).wf_for(solutions@),
        old(idx).complete_for(solutions@, i as int),
    ensures
        final(idx).wf_for(solutions@),
        final(idx).complete_for(solutions@, i + 1),
        final(idx).hmax() == old(idx).hmax(),
        final(idx).mmax() == old(idx).mmax(),
        final(idx).key_count() <= old(idx).key_count() + 1,
{
    broadcast use vstd::laws_cmp::group_laws_cmp;

    let ghost pre = *idx;
    let v = solutions[i].result;
    let key = key_of_x(v);
    let ghost route = pre.routed(v);
    if v <= idx.head_max {
        idx.head.insert(key, i);
    } else if v <= idx.middle_max {
        idx.middle.insert(key, i);
    } else {
        idx.tail.insert(key, i);
    }
    proof {
        assert(idx.hmax() == pre.hmax() && idx.mmax() == pre.mmax());
        assert(idx.bucket(route) =~= pre.bucket(route).insert(key, i as usize));
        assert(idx.bucket(route).dom() =~= pre.bucket(route).dom().insert(key));
        assert(idx.bucket(route).len() <= pre.bucket(route).len() + 1);
        assert(forall|b: int| 0 <= b < 3 && b != route ==> idx.bucket(b) == pre.bucket(b));
        assert forall|b: int, k2: u32|
            0 <= b < 3 && #[trigger] idx.bucket(b).contains_key(k2) implies {
            let p = idx.bucket(b)[k2];
            p < solutions@.len() && key_of(solutions@[p as int].result) == k2 && idx.routed(
                solutions@[p as int].result,
            ) == b
        } by {
            if b == route && k2 == key {
                assert(idx.bucket(b)[k2] == i);
                assert(idx.routed(v) == route);
            } else {
                assert(pre.bucket(b).contains_key(k2));
                assert(idx.bucket(b)[k2] == pre.bucket(b)[k2]);
                assert(pre.routed(solutions@[pre.bucket(b)[k2] as int].result) == b);
            }
        }
        assert forall|t: int| 0 <= t < i + 1 && t < solutions@.len() implies idx.bucket(
            idx.routed(#[trigger] solutions@[t].result),
        ).contains_key(key_of(solutions@[t].result)) by {
            if t == i {
                assert(idx.routed(v) == route);
                assert(idx.bucket(route).contains_key(key));
            } else {
                let rb = pre.routed(solutions@[t].result);
                assert(pre.bucket(rb).contains_key(key_of(solutions@[t].result)));
                assert(idx.routed(solutions@[t].result) == rb);
                if rb == route {
                    assert(idx.bucket(rb).contains_key(key_of(solutions@[t].result)));
                } else {
                    assert(idx.bucket(rb) == pre.bucket(rb));
                }
            }
        }
    }
}

/// The result values of the records, in order.
pub open spec fn results_of(sols: Seq<CompactSolution>) -> Seq<i32> {
    sols.map_values(|c: CompactSolution| c.result)
}

/// The boundaries come from a sorted copy of the result values: the
/// head boundary at the one-third position and the middle boundary at
/// the two-thirds position (clamped to the ends).
pub open spec fn boundaries_from_percentiles(hmax: i32, mmax: i32, rs: Seq<i32>) -> bool
    recommends
        rs.len() > 0,
{
    exists|ss: Seq<i32>|
        {
            let third = rs.len() as int / 3;
            &&& (#[trigger] ss.to_multiset()) == rs.to_multiset()
            &&& ss.len() == rs.len()
            &&& sorted_seq(ss)
            &&& hmax == ss[if third > 0 {
                third
            } else {
                0
            }]
            &&& mmax == ss[if 2 * third < rs.len() {
                2 * third
            } else {
                rs.len() - 1
            }]
        }
}

/// Whether a value sequence is in ascending order.
pub open spec fn sorted_seq(s: Seq<i32>) -> bool {
    forall|a: int, b: int| 0 <= a < b < s.len() ==> s[a] <= s[b]
}

/// Sorts a value list in place by insertion, keeping the same values;
/// the boundaries built from the result are a routing heuristic, not a
/// correctness concern.
fn sort_values(v: &mut Vec<i32>)
    ensures
        final(v)@.len() == old(v)@.len(),
        final(v)@.to_multiset() == old(v)@.to_multiset(),
        sorted_seq(final(v)@),
{
    broadcast use vstd::seq_lib::to_multiset_update;
    broadcast use vstd::seq_lib::group_to_multiset_ensures;

    let n = v.len();
    if n == 0 {
        return ;
    }
    let mut i: usize = 1;
    while i < n
        invariant
            1 <= i <= n,
            v@.len() == n,
            v@.to_multiset() == old(v)@.to_multiset(),
            sorted_seq(v@.take(i as int)),
        decreases n - i,
    {
        broadcast use vstd::seq_lib::to_multiset_update;
        broadcast use vstd::seq_lib::group_to_multiset_ensures;

        proof {
            assert forall|a: int, b: int| 0 <= a < b < i implies v@[a] <= v@[b] by {
                assert(v@.take(i as int)[a] == v@[a] && v@.take(i as int)[b] == v@[b]);
            }
        }
        let mut j: usize = i;
        while j > 0 && v[j - 1] > v[j]
            invariant
                0 <= j <= i < n,
                v@.len() == n,
                v@.to_multiset() == old(v)@.to_multiset(),
                forall|a: int, b: int| 0 <= a < b < j ==> v@[a] <= v@[b],
                forall|a: int, b: int| j <= a < b <= i ==> v@[a] <= v@[b],
                forall|a: int, b: int| 0 <= a < j && j < b <= i ==> v@[a] <= v@[b],
            decreases j,
        {
            broadcast use vstd::seq_lib::to_multiset_update;
            broadcast use vstd::seq_lib::group_to_multiset_ensures;

            let ghost before = v@;
            let x = v[j - 1];
            let y = v[j];
            v.set(j - 1, y);
            v.set(j, x);
            proof {
                let m = before.to_multiset();
                assert(before.contains(x));
                assert(m.count(x) >= 1);
                let s1 = before.update(j - 1, y);
                assert(s1[j as int] == y);
                assert(s1.to_multiset() == m.insert(y).remove(x));
                assert(v@ == s1.update(j as int, x));
                assert(v@.to_multiset() == s1.to_multiset().insert(x).remove(y));
                assert(m.insert(y).count(x) >= 1);
                assert(m.insert(y).remove(x).insert(x) =~= m.insert(y));
                assert(m.insert(y).remove(y) =~= m);
                assert(v@.to_multiset() =~= m);
            }
            j = j - 1;
        }
        proof {
            assert forall|a: int, b: int| 0 <= a < b < i + 1 implies #[trigger] v@.take(
                i + 1,
            )[a] <= #[trigger] v@.take(i + 1)[b] by {
                assert(v@.take(i + 1)[a] == v@[a] && v@.take(i + 1)[b] == v@[b]);
                if j == 0 {
                } else {
                    if b == j {
                        if a < j - 1 {
                            assert(v@[a] <= v@[j - 1]);
                        }
                    }
                }
            }
        }
        i = i + 1;
    }
    proof {
        assert(v@.take(n as int) =~= v@);
    }
}

} // verus!
