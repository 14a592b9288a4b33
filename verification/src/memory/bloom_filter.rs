//! The probabilistic membership filter guarding the cold tier: a bit
//! array with a double hash derived from the key's 32-bit pattern,
//! perturbed by a per-slot seed multiplier. Membership tests may answer
//! yes for a key never inserted, but never answer no for one that was.

use vstd::prelude::*;

verus! {

/// Holds the outside crate's bit vector; Verus refuses the type's own
/// declaration (its trait bounds cannot be declared), so the collection
/// lives behind this opaque holder and is reached only through the named
/// view and the wrappers below.
#[verifier::external_body]
pub struct BitArray {
    inner: bitvec::vec::BitVec<usize, bitvec::order::Lsb0>,
}

/// What the bit vector holds, bit by bit.
pub uninterp spec fn bits_of(b: &BitArray) -> Seq<bool>;

/// Relies on `bitvec::vec::BitVec::repeat`: a fresh vector of `n` equal
/// bits.
#[verifier::external_body]
fn bits_new(n: usize) -> (r: BitArray)
    ensures
        bits_of(&r) == Seq::new(n as nat, |i: int| false),
{
    BitArray { inner: bitvec::vec::BitVec::repeat(false, n) }
}

/// Relies on `bitvec::slice::BitSlice::set` (through the vector's deref):
/// writes one bit, leaving the others.
#[verifier::external_body]
fn bits_set_true(b: &mut BitArray, i: usize)
    requires
        i < bits_of(&*old(b)).len(),
    ensures
        bits_of(&*final(b)) == bits_of(&*old(b)).update(i as int, true),
{
    b.inner.set(i, true);
}

/// Relies on `bitvec::slice::BitSlice::get` (through the vector's deref):
/// reads one bit.
#[verifier::external_body]
fn bits_get(b: &BitArray, i: usize) -> (r: bool)
    requires
        i < bits_of(b).len(),
    ensures
        r == bits_of(b)[i as int],
{
    match b.inner.get(i) {
        Some(bit) => *bit,
        None => false,
    }
}

/// Relies on `bitvec::slice::BitSlice::len` (through the vector's deref):
/// how many bits the vector holds.
#[verifier::external_body]
fn bits_len(b: &BitArray) -> (r: usize)
    ensures
        r == bits_of(b).len(),
{
    b.inner.len()
}

/// The double hash of a key for one seed slot: the key's 32-bit pattern
/// perturbed by the seed times a golden-ratio constant, mixed by a
/// Fibonacci multiplier and folded over its halves.
pub open spec fn bloom_hash(value: i32, seed: u64) -> u64 {
    let h0 = (value as u32) as u64;
    let h1 = h0 ^ mul64(seed, 0x9e3779b9);
    let h2 = mul64(h1, 0x9e3779b97f4a7c15);
    h2 ^ (h2 >> 32)
}

/// 64-bit wrapping multiplication.
pub open spec fn mul64(a: u64, b: u64) -> u64 {
    ((a * b) % 0x1_0000_0000_0000_0000) as u64
}

/// Computes the double hash of a key for one seed slot.
fn hash_slot(value: i32, seed: u64) -> (r: u64)
    ensures
        r == bloom_hash(value, seed),
{
    let h0: u64 = (value as u32) as u64;
    let h1: u64 = h0 ^ seed.wrapping_mul(0x9e3779b9);
    let h2: u64 = h1.wrapping_mul(0x9e3779b97f4a7c15);
    h2 ^ (h2 >> 32)
}

/// The bit position a key occupies for one seed slot.
pub open spec fn bloom_pos(value: i32, seed: u64, len: nat) -> int
    recommends
        len > 0,
{
    (bloom_hash(value, seed) as int) % (len as int)
}

/// How many doublings bring a power of two up to the ratio `1/rate`,
/// capped at thirty-two: the number of hash bits of information one key
/// needs.
pub open spec fn size_log(ratio: int, l: int, pow: int) -> int
    decreases 32 - l,
{
    if pow < ratio && l < 32 {
        size_log(
            ratio,
            l + 1,
            if pow <= 0x8000_0000 {
                2 * pow
            } else {
                pow
            },
        )
    } else {
        l
    }
}

/// Bits per expected key for a target rate: `log2(1/rate)` scaled by
/// about `1 / ln 2`.
pub open spec fn bits_per_item_of(false_positive_bp: u64) -> int {
    size_log(10000 as int / false_positive_bp as int, 1, 2) * 1443 / 1000 + 1
}

/// The sized bit count: expected keys times bits per key, at least 64
/// and capped.
pub open spec fn bloom_bit_count(expected_items: usize, false_positive_bp: u64) -> int {
    let want = expected_items as int * bits_per_item_of(false_positive_bp);
    if want < 64 {
        64
    } else if want > 0x0fff_ffff {
        0x0fff_ffff
    } else {
        want
    }
}

/// The sized hash count: bits per key times about `ln 2`, clamped
/// between one and ten.
pub open spec fn bloom_hash_count_of(false_positive_bp: u64) -> int {
    let k0 = bits_per_item_of(false_positive_bp) * 693 / 1000 + 1;
    if k0 < 1 {
        1
    } else if k0 > 10 {
        10
    } else {
        k0
    }
}

/// A probabilistic membership filter with no false negatives.
pub struct BloomFilter {
    bits: BitArray,
    hash_count: usize,
    item_count: usize,
    inserted: Ghost<Set<i32>>,
}

impl BloomFilter {
    /// The set of keys ever inserted.
    pub closed spec fn inserted_set(&self) -> Set<i32> {
        self.inserted@
    }

    /// How many keys were inserted.
    pub closed spec fn spec_len(&self) -> usize {
        self.item_count
    }

    /// How many bits the filter holds.
    pub closed spec fn spec_bits_len(&self) -> nat {
        bits_of(&self.bits).len()
    }

    /// How many hash slots each key occupies.
    pub closed spec fn spec_hash_count(&self) -> usize {
        self.hash_count
    }

    /// The filter's invariant: the bit array is non-empty, between one
    /// and ten hash slots are used, and every inserted key has all of its
    /// slots set.
    pub closed spec fn wf(&self) -> bool {
        &&& bits_of(&self.bits).len() >= 64
        &&& 1 <= self.hash_count <= 10
        &&& forall|v: i32, s: int|
            self.inserted@.contains(v) && 0 <= s < self.hash_count ==> bits_of(
                &self.bits,
            )[#[trigger] bloom_pos(v, s as u64, bits_of(&self.bits).len())]
    }

    /// Sizes a filter for an expected number of keys and a target false
    /// positive rate in hundredths of a percent. The sizing follows the
    /// usual rule of thumb: about `log2(1/rate) / ln 2` bits per key,
    /// with the hash count matching, clamped between one and ten.
    pub fn new(expected_items: usize, false_positive_bp: u64) -> (r: Self)
        requires
            expected_items <= 0x8000_0000,
            1 <= false_positive_bp <= 10000,
        ensures
            r.wf(),
            r.inserted_set() == Set::<i32>::empty(),
            r.spec_len() == 0,
            r.spec_bits_len() >= 64,
            1 <= r.spec_hash_count() <= 10,
            expected_items == 0 ==> r.spec_bits_len() == 64 && r.spec_hash_count() == 3,
            expected_items > 0 ==> r.spec_bits_len() == bloom_bit_count(
                expected_items,
                false_positive_bp,
            ) && r.spec_hash_count() as int == bloom_hash_count_of(false_positive_bp),
    {
        if expected_items == 0 {
            return BloomFilter {
                bits: bits_new(64),
                hash_count: 3,
                item_count: 0,
                inserted: Ghost(Set::empty()),
            };
        }
        let ratio: u64 = 10000 / false_positive_bp;
        let mut l: u64 = 1;
        let mut pow: u64 = 2;
        while pow < ratio && l < 32
            invariant
                1 <= l <= 32,
                2 <= pow <= 0x1_0000_0000,
                ratio == 10000 as int / false_positive_bp as int,
                size_log(ratio as int, 1, 2) == size_log(ratio as int, l as int, pow as int),
            decreases 32 - l,
        {
            if pow <= 0x8000_0000 {
                pow = pow * 2;
            }
            l = l + 1;
        }
        proof {
            assert(l as int == size_log(ratio as int, 1, 2));
        }
        let bits_per_item: u64 = l * 1443 / 1000 + 1;
        proof {
            assert(bits_per_item as int == bits_per_item_of(false_positive_bp));
        }
        proof {
            assert(bits_per_item <= 47);
            assert((expected_items as int) * (bits_per_item as int) <= 0x8000_0000 * 47)
                by (nonlinear_arith)
                requires
                    0 <= expected_items as int <= 0x8000_0000,
                    0 <= bits_per_item as int <= 47,
            ;
        }
        let want: u64 = (expected_items as u64) * bits_per_item;
        let bit_count: usize = if want < 64 {
            64
        } else if want > 0x0fff_ffff {
            0x0fff_ffff
        } else {
            want as usize
        };
        let k0: u64 = (bits_per_item * 693) / 1000 + 1;
        let hash_count: usize = if k0 < 1 {
            1
        } else if k0 > 10 {
            10
        } else {
            k0 as usize
        };
        BloomFilter {
            bits: bits_new(bit_count),
            hash_count,
            item_count: 0,
            inserted: Ghost(Set::empty()),
        }
    }

    /// Inserts a key: sets the key's bit in every hash slot.
    pub fn insert(&mut self, value: i32)
        requires
            old(self).wf(),
        ensures
            final(self).wf(),
            final(self).inserted_set() == old(self).inserted_set().insert(value),
            final(self).spec_len() == vstd::math::min(
                old(self).spec_len() as int + 1,
                usize::MAX as int,
            ),
            final(self).spec_hash_count() == old(self).spec_hash_count(),
            final(self).spec_bits_len() == old(self).spec_bits_len(),
            forall|j: int|
                0 <= j < old(self).spec_bits_len() && bits_of_self(&*old(self))[j]
                    ==> bits_of_self(&*final(self))[j],
            forall|s: int|
                0 <= s < final(self).spec_hash_count() ==> bits_of_self(&*final(self))[
                    #[trigger] bloom_pos(value, s as u64, final(self).spec_bits_len())],
    {
        let len = bits_len(&self.bits);
        let k = self.hash_count;
        let mut s: usize = 0;
        while s < k
            invariant
                s <= k,
                k == self.hash_count,
                self.hash_count == old(self).hash_count,
                self.item_count == old(self).item_count,
                self.inserted@ == old(self).inserted@,
                old(self).wf(),
                len == bits_of(&self.bits).len(),
                len == bits_of(&old(self).bits).len(),
                forall|j: int|
                    0 <= j < len && bits_of(&old(self).bits)[j] ==> bits_of(&self.bits)[j],
                forall|j: int|
                    0 <= j < s ==> bits_of(&self.bits)[#[trigger] bloom_pos(
                        value,
                        j as u64,
                        len as nat,
                    )],
            decreases k - s,
        {
            let h = hash_slot(value, s as u64);
            let pos = (h % (len as u64)) as usize;
            proof {
                assert(pos as int == bloom_pos(value, s as u64, len as nat));
            }
            bits_set_true(&mut self.bits, pos);
            s = s + 1;
        }
        proof {
            self.inserted@ = self.inserted@.insert(value);
        }
        if self.item_count < usize::MAX {
            self.item_count = self.item_count + 1;
        }
        proof {
            assert forall|v: i32, t: int|
                self.inserted@.contains(v) && 0 <= t < self.hash_count implies bits_of(
                &self.bits,
            )[#[trigger] bloom_pos(v, t as u64, bits_of(&self.bits).len())] by {
                if v == value {
                } else {
                    assert(old(self).inserted@.contains(v));
                    assert(bits_of(&old(self).bits)[bloom_pos(v, t as u64, len as nat)]);
                }
            }
        }
    }

    /// Tests membership: answers exactly whether every hash slot of the
    /// key is set; for a key that was inserted the answer is always yes.
    pub fn might_contain(&self, value: i32) -> (r: bool)
        requires
            self.wf(),
        ensures
            r == (forall|s: int|
                0 <= s < self.spec_hash_count() ==> bits_of_self(self)[#[trigger] bloom_pos(
                    value,
                    s as u64,
                    self.spec_bits_len(),
                )]),
            self.inserted_set().contains(value) ==> r,
    {
        let len = bits_len(&self.bits);
        let k = self.hash_count;
        let mut s: usize = 0;
        while s < k
            invariant
                s <= k,
                k == self.hash_count,
                self.wf(),
                len == bits_of(&self.bits).len(),
                forall|j: int|
                    0 <= j < s ==> bits_of(&self.bits)[#[trigger] bloom_pos(
                        value,
                        j as u64,
                        len as nat,
                    )],
            decreases k - s,
        {
            let h = hash_slot(value, s as u64);
            let pos = (h % (len as u64)) as usize;
            proof {
                assert(pos as int == bloom_pos(value, s as u64, len as nat));
            }
            if !bits_get(&self.bits, pos) {
                proof {
                    let t = s as int;
                    assert(!bits_of_self(self)[bloom_pos(value, t as u64, self.spec_bits_len())]);
                }
                return false;
            }
            s = s + 1;
        }
        true
    }

    /// How many keys were inserted.
    pub fn len(&self) -> (r: usize)
        ensures
            r == self.spec_len(),
    {
        self.item_count
    }

    /// Whether no key was inserted yet.
    pub fn is_empty(&self) -> (r: bool)
        ensures
            r == (self.spec_len() == 0),
    {
        self.item_count == 0
    }

    /// How many bits the filter holds.
    pub fn bits_len(&self) -> (r: usize)
        ensures
            r == self.spec_bits_len(),
    {
        bits_len(&self.bits)
    }

    /// A coarse estimate of the false positive rate in hundredths of a
    /// percent, from the load `k * n / m` by a rational approximation of
    /// `(1 - e^-load)^k`; zero while the filter is empty. Observability
    /// only.
    pub fn expected_false_positive_bp(&self) -> (r: u64)
        requires
            self.wf(),
        ensures
            r <= 10000,
            self.spec_len() == 0 ==> r == 0,
            self.spec_len() > 0 ==> r as int == fp_rate_after(
                self.spec_hash_count() as int,
                fp_load(
                    self.spec_hash_count() as int,
                    self.spec_len() as int,
                    self.spec_bits_len() as int,
                ),
            ),
    {
        if self.item_count == 0 {
            return 0;
        }
        let k = self.hash_count as u64;
        let m = self.bits_len();
        let n: u64 = if self.item_count > 0xffff_ffff {
            0xffff_ffff
        } else {
            self.item_count as u64
        };
        proof {
            assert((k as int) * (n as int) <= 10 * 0xffff_ffff) by (nonlinear_arith)
                requires
                    0 <= k as int <= 10,
                    0 <= n as int <= 0xffff_ffff,
            ;
            assert((k as int) * (n as int) * 10000 <= 10 * 0xffff_ffff * 10000)
                by (nonlinear_arith)
                requires
                    0 <= (k as int) * (n as int) <= 10 * 0xffff_ffff,
            ;
        }
        let load: u128 = (k as u128) * (n as u128) * 10000 / (m as u128);
        let x: u64 = if load > 4_000_000 {
            4_000_000
        } else {
            load as u64
        };
        proof {
            assert(x as int == fp_load(k as int, self.spec_len() as int,
                self.spec_bits_len() as int));
        }
        let factor_num: u64 = x;
        let factor_den: u64 = x + 10000;
        let mut rate: u64 = 10000;
        let mut i: u64 = 0;
        while i < k
            invariant
                i <= k,
                rate <= 10000,
                factor_den >= factor_num,
                factor_num <= 4_000_000,
                factor_den == factor_num + 10000,
                rate as int == fp_rate_after(i as int, factor_num as int),
            decreases k - i,
        {
            proof {
                let ri = rate as int;
                let fn_ = factor_num as int;
                let fd = factor_den as int;
                assert(ri * fn_ <= 10000 * fd) by (nonlinear_arith)
                    requires
                        0 <= ri <= 10000,
                        0 <= fn_ <= fd,
                ;
                assert((ri * fn_) / fd <= 10000) by (nonlinear_arith)
                    requires
                        ri * fn_ <= 10000 * fd,
                        fd > 0,
                        ri * fn_ >= 0,
                ;
                assert(ri * fn_ <= 40_000_000_000) by (nonlinear_arith)
                    requires
                        0 <= ri <= 10000,
                        0 <= fn_ <= 4_000_000,
                ;
            }
            rate = rate * factor_num / factor_den;
            i = i + 1;
        }
        proof {
            assert(rate as int == fp_rate_after(k as int, factor_num as int));
        }
        rate
    }
}

/// The load of the filter in hundredth-percent units: `k * n / m`,
/// with the key count saturated at 32 bits and the whole load capped.
pub open spec fn fp_load(k: int, n: int, m: int) -> int
    recommends
        m > 0,
{
    let n_cap = if n > 0xffff_ffff {
        0xffff_ffff
    } else {
        n
    };
    let load = k * n_cap * 10000 / m;
    if load > 4_000_000 {
        4_000_000
    } else {
        load
    }
}

/// The estimate `(x / (x + 1))^k` of the false positive rate, in
/// hundredth-percent units, computed by the implemented integer
/// recurrence.
pub open spec fn fp_rate_after(i: int, x: int) -> int
    decreases i,
{
    if i <= 0 {
        10000
    } else {
        fp_rate_after(i - 1, x) * x / (x + 10000)
    }
}

/// The filter's bit sequence, for stating contracts.
pub open spec fn bits_of_self(f: &BloomFilter) -> Seq<bool> {
    bits_of_field(f)
}

/// Reaches the private bit field.
pub closed spec fn bits_of_field(f: &BloomFilter) -> Seq<bool> {
    bits_of(&f.bits)
}

} // verus!
