//! The cold tier: an append-only store of compact records with the
//! operand pool and the start-time epoch, serialized as one binary blob
//! of fixed-width little-endian fields. Decoding validates the blob and
//! provably inverts encoding; a corrupt blob is a hard error.

use vstd::prelude::*;
use vstd::bytes::{spec_u16_to_le_bytes, spec_u16_from_le_bytes, spec_u32_to_le_bytes,
    spec_u32_from_le_bytes, spec_u64_to_le_bytes, spec_u64_from_le_bytes,
    lemma_auto_spec_u16_to_from_le_bytes, lemma_auto_spec_u32_to_from_le_bytes,
    lemma_auto_spec_u64_to_from_le_bytes, u16_to_le_bytes, u32_to_le_bytes, u64_to_le_bytes,
    u16_from_le_bytes, u32_from_le_bytes, u64_from_le_bytes};
use vstd::slice::slice_subrange;
use crate::memory::compact_solution::{CompactSolution, OperandPool, recon_chars};
use crate::types::{MathSolution, ACC_PERFECT};

verus! {

/// Why a persisted blob could not be read back.
#[derive(Clone, Copy, Debug, PartialEq, Eq)]
pub enum CacheError {
    /// The blob is not a well-formed serialization.
    Corrupt,
}

/// One record, encoded: the 32-bit result pattern, the operation code,
/// three operand indices and the timestamp delta, little endian.
pub open spec fn enc_record(c: CompactSolution) -> Seq<u8> {
    spec_u32_to_le_bytes(c.result as u32) + seq![c.operation_code] + spec_u16_to_le_bytes(
        c.operands@[0],
    ) + spec_u16_to_le_bytes(c.operands@[1]) + spec_u16_to_le_bytes(c.operands@[2])
        + spec_u16_to_le_bytes(c.timestamp_delta)
}

/// All records, encoded in order.
pub open spec fn enc_records(s: Seq<CompactSolution>) -> Seq<u8>
    decreases s.len(),
{
    if s.len() == 0 {
        Seq::empty()
    } else {
        enc_records(s.drop_last()) + enc_record(s.last())
    }
}

/// The operand pool, encoded as 64-bit patterns in order.
pub open spec fn enc_pool(p: Seq<i64>) -> Seq<u8>
    decreases p.len(),
{
    if p.len() == 0 {
        Seq::empty()
    } else {
        enc_pool(p.drop_last()) + spec_u64_to_le_bytes(p.last() as u64)
    }
}

/// The whole blob: the epoch, the record count and records, the operand
/// count and operands.
pub open spec fn encode_cache(s: Seq<CompactSolution>, p: Seq<i64>, start: u64) -> Seq<u8> {
    spec_u64_to_le_bytes(start) + spec_u32_to_le_bytes(s.len() as u32) + enc_records(s)
        + spec_u32_to_le_bytes(p.len() as u32) + enc_pool(p)
}

pub proof fn lemma_enc_record_len(c: CompactSolution)
    ensures
        enc_record(c).len() == 13,
{
    lemma_auto_spec_u16_to_from_le_bytes();
    lemma_auto_spec_u32_to_from_le_bytes();
}

pub proof fn lemma_enc_records_len(s: Seq<CompactSolution>)
    ensures
        enc_records(s).len() == 13 * s.len(),
    decreases s.len(),
{
    if s.len() > 0 {
        lemma_enc_records_len(s.drop_last());
        lemma_enc_record_len(s.last());
    }
}

pub proof fn lemma_enc_pool_len(p: Seq<i64>)
    ensures
        enc_pool(p).len() == 8 * p.len(),
    decreases p.len(),
{
    if p.len() > 0 {
        lemma_enc_pool_len(p.drop_last());
        lemma_auto_spec_u64_to_from_le_bytes();
    }
}

pub proof fn lemma_encode_len(s: Seq<CompactSolution>, p: Seq<i64>, start: u64)
    ensures
        encode_cache(s, p, start).len() == 16 + 13 * s.len() + 8 * p.len(),
{
    lemma_auto_spec_u64_to_from_le_bytes();
    lemma_auto_spec_u32_to_from_le_bytes();
    lemma_enc_records_len(s);
    lemma_enc_pool_len(p);
}

/// The blob's parts sit at their fixed offsets.
pub proof fn lemma_encode_shape(s: Seq<CompactSolution>, p: Seq<i64>, start: u64)
    ensures
        ({
            let e = encode_cache(s, p, start);
            let ns = s.len() as int;
            let np = p.len() as int;
            &&& e.len() == 16 + 13 * ns + 8 * np
            &&& e.subrange(0, 8) == spec_u64_to_le_bytes(start)
            &&& e.subrange(8, 12) == spec_u32_to_le_bytes(s.len() as u32)
            &&& e.subrange(12, 12 + 13 * ns) == enc_records(s)
            &&& e.subrange(12 + 13 * ns, 16 + 13 * ns) == spec_u32_to_le_bytes(p.len() as u32)
            &&& e.subrange(16 + 13 * ns, 16 + 13 * ns + 8 * np) == enc_pool(p)
        }),
{
    lemma_encode_len(s, p, start);
    lemma_auto_spec_u64_to_from_le_bytes();
    lemma_auto_spec_u32_to_from_le_bytes();
    lemma_enc_records_len(s);
    lemma_enc_pool_len(p);
    let e = encode_cache(s, p, start);
    let ns = s.len() as int;
    let np = p.len() as int;
    assert(e.subrange(0, 8) =~= spec_u64_to_le_bytes(start));
    assert(e.subrange(8, 12) =~= spec_u32_to_le_bytes(s.len() as u32));
    assert(e.subrange(12, 12 + 13 * ns) =~= enc_records(s));
    assert(e.subrange(12 + 13 * ns, 16 + 13 * ns) =~= spec_u32_to_le_bytes(p.len() as u32));
    assert(e.subrange(16 + 13 * ns, 16 + 13 * ns + 8 * np) =~= enc_pool(p));
}

/// Each record's encoding sits at its offset inside the record area.
pub proof fn lemma_enc_records_at(s: Seq<CompactSolution>, i: int)
    requires
        0 <= i < s.len(),
    ensures
        enc_records(s).subrange(13 * i, 13 * i + 13) == enc_record(s[i]),
    decreases s.len(),
{
    lemma_enc_records_len(s);
    lemma_enc_record_len(s.last());
    if i == s.len() - 1 {
        lemma_enc_records_len(s.drop_last());
        assert(enc_records(s).subrange(13 * i, 13 * i + 13) =~= enc_record(s.last()));
    } else {
        lemma_enc_records_at(s.drop_last(), i);
        lemma_enc_records_len(s.drop_last());
        assert(enc_records(s).subrange(13 * i, 13 * i + 13) =~= enc_records(
            s.drop_last(),
        ).subrange(13 * i, 13 * i + 13));
        assert(s.drop_last()[i] == s[i]);
    }
}

/// Each operand's encoding sits at its offset inside the pool area.
pub proof fn lemma_enc_pool_at(p: Seq<i64>, i: int)
    requires
        0 <= i < p.len(),
    ensures
        enc_pool(p).subrange(8 * i, 8 * i + 8) == spec_u64_to_le_bytes(p[i] as u64),
    decreases p.len(),
{
    lemma_enc_pool_len(p);
    lemma_auto_spec_u64_to_from_le_bytes();
    if i == p.len() - 1 {
        lemma_enc_pool_len(p.drop_last());
        assert(enc_pool(p).subrange(8 * i, 8 * i + 8) =~= spec_u64_to_le_bytes(
            p.last() as u64,
        ));
    } else {
        lemma_enc_pool_at(p.drop_last(), i);
        lemma_enc_pool_len(p.drop_last());
        assert(enc_pool(p).subrange(8 * i, 8 * i + 8) =~= enc_pool(p.drop_last()).subrange(
            8 * i,
            8 * i + 8,
        ));
        assert(p.drop_last()[i] == p[i]);
    }
}

/// The first record index holding a result, or -1.
pub open spec fn find_result(s: Seq<CompactSolution>, t: i32, i: int) -> int
    decreases s.len() - i,
{
    if i < 0 || i >= s.len() {
        -1
    } else if s[i].result == t {
        i
    } else {
        find_result(s, t, i + 1)
    }
}

/// The cold store: compact records, the operand pool they reference, the
/// start-time epoch, and the path the blob belongs to.
pub struct BinaryCache {
    pub solutions: Vec<CompactSolution>,
    pub operand_pool: OperandPool,
    pub start_time: u64,
    pub file_path: String,
}

impl BinaryCache {
    /// The store's invariant: the operand pool is within its index range.
    pub open spec fn wf(&self) -> bool {
        self.operand_pool@.len() <= 0x10000
    }

    /// The path the blob belongs to.
    pub open spec fn spec_file_path(&self) -> Seq<char> {
        self.file_path@
    }

    /// An empty store for a blob path, started at the given epoch.
    pub fn new(file_path: &str, now_ms: u64) -> (r: Self)
        ensures
            r.wf(),
            r.solutions@.len() == 0,
            r.operand_pool@.len() == 0,
            r.start_time == now_ms,
            r.spec_file_path() == file_path@,
    {
        BinaryCache {
            solutions: Vec::new(),
            operand_pool: OperandPool::new(),
            start_time: now_ms,
            file_path: file_path.to_owned(),
        }
    }

    /// The blob path.
    pub fn file_path(&self) -> (r: &str)
        ensures
            r@ == self.spec_file_path(),
    {
        self.file_path.as_str()
    }

    /// Looks a result value up by linear scan; a hit expands the first
    /// matching record.
    pub fn get_solution(&self, target: i32) -> (r: Option<MathSolution>)
        ensures
            ({
                let f = find_result(self.solutions@, target, 0);
                match r {
                    Some(sol) => {
                        &&& f >= 0
                        &&& sol.result == self.solutions@[f].result as i64
                        &&& sol.equation@ == recon_chars(
                            self.solutions@[f].operation_code,
                            self.solutions@[f].operands@,
                            self.operand_pool@,
                        )
                        &&& sol.accuracy == ACC_PERFECT
                    },
                    None => f == -1,
                }
            }),
    {
        let n = self.solutions.len();
        let mut i: usize = 0;
        while i < n
            invariant
                i <= n,
                n == self.solutions@.len(),
                find_result(self.solutions@, target, 0) == find_result(
                    self.solutions@,
                    target,
                    i as int,
                ),
            decreases n - i,
        {
            if self.solutions[i].result == target {
                let sol = self.solutions[i].to_math_solution(&self.operand_pool, self.start_time);
                return Some(sol);
            }
            i = i + 1;
        }
        None
    }

    /// Appends a solution as a compact record; the store is append-only
    /// (existing records are untouched) and the operand pool only grows.
    pub fn insert_solution(&mut self, solution: &MathSolution)
        requires
            old(self).wf(),
        ensures
            final(self).wf(),
            final(self).solutions@.len() == old(self).solutions@.len() + 1,
            forall|k: int|
                0 <= k < old(self).solutions@.len() ==> final(self).solutions@[k] == old(
                    self,
                ).solutions@[k],
            final(self).solutions@.last().result as int
                == crate::memory::compact_solution::clamp_i32(solution.result as int),
            final(self).solutions@.last().operation_code
                == crate::memory::compact_solution::op_code_of(solution.equation@),
            final(self).solutions@.last().timestamp_delta as int
                == crate::memory::compact_solution::delta_secs(
                solution.timestamp,
                old(self).start_time,
            ),
            final(self).operand_pool@.len() >= old(self).operand_pool@.len(),
            forall|k: int|
                0 <= k < old(self).operand_pool@.len() ==> final(self).operand_pool@[k] == old(
                    self,
                ).operand_pool@[k],
            ({
                let nums = crate::memory::compact_solution::extracted_nums(solution.equation@);
                old(self).operand_pool@.len() + 3 <= 0x10000 ==> forall|k: int|
                    0 <= k < 3 && k < nums.len()
                        ==> (#[trigger] final(self).solutions@.last().operands@[k])
                        < final(self).operand_pool@.len()
                        && final(self).operand_pool@[
                        final(self).solutions@.last().operands@[k] as int] == nums[k]
            }),
            final(self).start_time == old(self).start_time,
            final(self).spec_file_path() == old(self).spec_file_path(),
    {
        let compact = CompactSolution::from_math_solution(
            solution,
            &mut self.operand_pool,
            self.start_time,
        );
        self.solutions.push(compact);
    }

    /// How many records the store holds.
    pub fn len(&self) -> (r: usize)
        ensures
            r == self.solutions@.len(),
    {
        self.solutions.len()
    }

    /// Whether the store holds no record.
    pub fn is_empty(&self) -> (r: bool)
        ensures
            r == (self.solutions@.len() == 0),
    {
        self.solutions.len() == 0
    }

    /// Serializes the store into one blob.
    #[verifier::rlimit(40)]
    pub fn to_bytes(&self) -> (r: Vec<u8>)
        requires
            self.wf(),
            self.solutions@.len() <= 0xffff_ffff,
        ensures
            r@ == encode_cache(self.solutions@, self.operand_pool@, self.start_time),
    {
        let mut out: Vec<u8> = Vec::new();
        let mut part = u64_to_le_bytes(self.start_time);
        append_bytes(&mut out, &part);
        let n = self.solutions.len();
        part = u32_to_le_bytes(n as u32);
        append_bytes(&mut out, &part);
        let ghost header = out@;
        let mut i: usize = 0;
        while i < n
            invariant
                i <= n,
                n == self.solutions@.len(),
                self.wf(),
                out@ == header + enc_records(self.solutions@.take(i as int)),
            decreases n - i,
        {
            let ghost pre = out@;
            append_record(&mut out, &self.solutions[i]);
            proof {
                assert(self.solutions@.take(i + 1).drop_last() =~= self.solutions@.take(i as int));
                assert(self.solutions@.take(i + 1).last() == self.solutions@[i as int]);
                bs_assoc(header, enc_records(self.solutions@.take(i as int)),
                    enc_record(self.solutions@[i as int]));
            }
            i = i + 1;
        }
        proof {
            assert(self.solutions@.take(n as int) =~= self.solutions@);
        }
        let m = self.operand_pool.len();
        part = u32_to_le_bytes(m as u32);
        append_bytes(&mut out, &part);
        let ghost header2 = out@;
        let mut j: usize = 0;
        while j < m
            invariant
                j <= m,
                m == self.operand_pool@.len(),
                m <= 0x10000,
                out@ == header2 + enc_pool(self.operand_pool@.take(j as int)),
            decreases m - j,
        {
            let ghost pre = out@;
            let v = self.operand_pool.get_or_zero(j as u16);
            proof {
                assert(v == self.operand_pool@[j as int]);
            }
            let vb = u64_to_le_bytes(v as u64);
            append_bytes(&mut out, &vb);
            proof {
                assert(self.operand_pool@.take(j + 1).drop_last() =~= self.operand_pool@.take(
                    j as int,
                ));
                assert(self.operand_pool@.take(j + 1).last() == self.operand_pool@[j as int]);
                bs_assoc(header2, enc_pool(self.operand_pool@.take(j as int)),
                    spec_u64_to_le_bytes(self.operand_pool@[j as int] as u64));
            }
            j = j + 1;
        }
        proof {
            assert(self.operand_pool@.take(m as int) =~= self.operand_pool@);
            assert(out@ =~= encode_cache(self.solutions@, self.operand_pool@, self.start_time));
        }
        out
    }

    /// Deserializes a blob; a malformed blob is rejected as corrupt. A
    /// successful read re-encodes to exactly the given bytes.
    #[verifier::rlimit(80)]
    pub fn from_bytes(bytes: &Vec<u8>, file_path: &str) -> (r: Result<BinaryCache, CacheError>)
        ensures
            r matches Ok(c) ==> {
                &&& c.wf()
                &&& c.solutions@.len() <= 0xffff_ffff
                &&& encode_cache(c.solutions@, c.operand_pool@, c.start_time) == bytes@
                &&& c.spec_file_path() == file_path@
            },
            r is Err ==> !(exists|s: Seq<CompactSolution>, p: Seq<i64>, t: u64|
                s.len() <= 0xffff_ffff && p.len() <= 0x10000 && bytes@ == encode_cache(s, p, t)),
    {
        let len = bytes.len();
        if len < 16 {
            proof {
                assert forall|s: Seq<CompactSolution>, p: Seq<i64>, t: u64|
                    !(s.len() <= 0xffff_ffff && p.len() <= 0x10000 && bytes@ == encode_cache(
                        s,
                        p,
                        t,
                    )) by {
                    lemma_encode_len(s, p, t);
                }
            }
            return Err(CacheError::Corrupt);
        }
        let start_time = u64_from_le_bytes(slice_subrange(bytes.as_slice(), 0, 8));
        let n32 = u32_from_le_bytes(slice_subrange(bytes.as_slice(), 8, 12));
        let n = n32 as usize;
        let rec_end_u: u128 = 12 + 13 * (n as u128);
        if (len as u128) < rec_end_u + 4 {
            proof {
                assert forall|s: Seq<CompactSolution>, p: Seq<i64>, t: u64|
                    !(s.len() <= 0xffff_ffff && p.len() <= 0x10000 && bytes@ == encode_cache(
                        s,
                        p,
                        t,
                    )) by {
                    lemma_encode_shape(s, p, t);
                    if s.len() <= 0xffff_ffff && p.len() <= 0x10000 && bytes@ == encode_cache(
                        s,
                        p,
                        t,
                    ) {
                        lemma_auto_spec_u32_to_from_le_bytes();
                        assert(bytes@.subrange(8, 12) == spec_u32_to_le_bytes(s.len() as u32));
                        assert(n32 == s.len() as u32);
                        assert(n == s.len());
                        assert(bytes@.len() >= 12 + 13 * (s.len() as int) + 4);
                    }
                }
            }
            return Err(CacheError::Corrupt);
        }
        proof {
            assert(12 + 13 * (n as int) + 4 <= bytes@.len());
        }
        let rec_end: usize = 12 + 13 * n;
        let m32 = u32_from_le_bytes(slice_subrange(bytes.as_slice(), rec_end, rec_end + 4));
        let m = m32 as usize;
        let total_u: u128 = (rec_end as u128) + 4 + 8 * (m as u128);
        if m > 0x10000 || (len as u128) != total_u {
            proof {
                assert forall|s: Seq<CompactSolution>, p: Seq<i64>, t: u64|
                    !(s.len() <= 0xffff_ffff && p.len() <= 0x10000 && bytes@ == encode_cache(
                        s,
                        p,
                        t,
                    )) by {
                    lemma_encode_shape(s, p, t);
                    if s.len() <= 0xffff_ffff && p.len() <= 0x10000 && bytes@ == encode_cache(
                        s,
                        p,
                        t,
                    ) {
                        lemma_auto_spec_u32_to_from_le_bytes();
                        assert(bytes@.subrange(8, 12) == spec_u32_to_le_bytes(s.len() as u32));
                        assert(n32 == s.len() as u32);
                        assert(n == s.len());
                        assert(bytes@.subrange(12 + 13 * (s.len() as int), 16 + 13 * (
                        s.len() as int)) == spec_u32_to_le_bytes(p.len() as u32));
                        assert(m32 == p.len() as u32);
                        assert(m == p.len());
                        assert(bytes@.len() == 16 + 13 * (s.len() as int) + 8 * (p.len() as int));
                    }
                }
            }
            return Err(CacheError::Corrupt);
        }
        proof {
            assert(bytes@.len() == 16 + 13 * (n as int) + 8 * (m as int));
        }
        let mut sols: Vec<CompactSolution> = Vec::new();
        let mut i: usize = 0;
        while i < n
            invariant
                i <= n,
                n <= 0xffff_ffff,
                bytes@.len() == 16 + 13 * n + 8 * m,
                bytes@.len() <= usize::MAX,
                sols@.len() == i,
                enc_records(sols@) == bytes@.subrange(12, 12 + 13 * (i as int)),
            decreases n - i,
        {
            let off = 12 + 13 * i;
            let r32 = u32_from_le_bytes(slice_subrange(bytes.as_slice(), off, off + 4));
            let result: i32 = r32 as i32;
            let op = bytes[off + 4];
            let o0 = u16_from_le_bytes(slice_subrange(bytes.as_slice(), off + 5, off + 7));
            let o1 = u16_from_le_bytes(slice_subrange(bytes.as_slice(), off + 7, off + 9));
            let o2 = u16_from_le_bytes(slice_subrange(bytes.as_slice(), off + 9, off + 11));
            let delta = u16_from_le_bytes(slice_subrange(bytes.as_slice(), off + 11, off + 13));
            let c = CompactSolution {
                result,
                operation_code: op,
                operands: [o0, o1, o2],
                timestamp_delta: delta,
            };
            let ghost pre = sols@;
            sols.push(c);
            proof {
                lemma_auto_spec_u16_to_from_le_bytes();
                lemma_auto_spec_u32_to_from_le_bytes();
                assert((result as u32) == r32) by (bit_vector)
                    requires
                        result == r32 as i32,
                ;
                assert(c.operands@[0] == o0 && c.operands@[1] == o1 && c.operands@[2] == o2);
                assert(enc_record(c) =~= bytes@.subrange(off as int, off + 13));
                assert(sols@.drop_last() =~= pre);
                bs_assoc(Seq::empty(), enc_records(pre), enc_record(c));
                assert(enc_records(sols@) == enc_records(pre) + enc_record(c));
                assert(enc_records(sols@) =~= bytes@.subrange(12, 12 + 13 * (i + 1)));
            }
            i = i + 1;
        }
        let mut pool = OperandPool::new();
        let pool_off = rec_end + 4;
        let mut j: usize = 0;
        while j < m
            invariant
                j <= m,
                m <= 0x10000,
                n <= 0xffff_ffff,
                pool_off == 12 + 13 * n + 4,
                bytes@.len() == 16 + 13 * n + 8 * m,
                bytes@.len() <= usize::MAX,
                pool@.len() == j,
                enc_pool(pool@) == bytes@.subrange(
                    pool_off as int,
                    pool_off as int + 8 * (j as int),
                ),
            decreases m - j,
        {
            let off = pool_off + 8 * j;
            let v64 = u64_from_le_bytes(slice_subrange(bytes.as_slice(), off, off + 8));
            let v: i64 = v64 as i64;
            let ghost pre = pool@;
            pool.push_raw(v);
            proof {
                lemma_auto_spec_u64_to_from_le_bytes();
                assert((v as u64) == v64) by (bit_vector)
                    requires
                        v == v64 as i64,
                ;
                assert(pool@.drop_last() =~= pre);
                assert(enc_pool(pool@) == enc_pool(pre) + spec_u64_to_le_bytes(v as u64));
                assert(enc_pool(pool@) =~= bytes@.subrange(
                    pool_off as int,
                    pool_off as int + 8 * (j + 1),
                ));
            }
            j = j + 1;
        }
        let cache = BinaryCache {
            solutions: sols,
            operand_pool: pool,
            start_time,
            file_path: file_path.to_owned(),
        };
        proof {
            lemma_auto_spec_u64_to_from_le_bytes();
            lemma_auto_spec_u32_to_from_le_bytes();
            assert(bytes@.subrange(0, 8) =~= spec_u64_to_le_bytes(start_time)) by {
                assert(spec_u64_to_le_bytes(spec_u64_from_le_bytes(bytes@.subrange(0, 8)))
                    =~= bytes@.subrange(0, 8));
            }
            assert((n as u32) == n32);
            assert((m as u32) == m32);
            assert(bytes@.subrange(8, 12) =~= spec_u32_to_le_bytes(n as u32)) by {
                assert(spec_u32_to_le_bytes(spec_u32_from_le_bytes(bytes@.subrange(8, 12)))
                    =~= bytes@.subrange(8, 12));
            }
            assert(bytes@.subrange(rec_end as int, rec_end as int + 4) =~= spec_u32_to_le_bytes(
                m as u32,
            )) by {
                assert(spec_u32_to_le_bytes(
                    spec_u32_from_le_bytes(bytes@.subrange(rec_end as int, rec_end as int + 4)),
                ) =~= bytes@.subrange(rec_end as int, rec_end as int + 4));
            }
            assert(encode_cache(cache.solutions@, cache.operand_pool@, cache.start_time)
                =~= bytes@);
        }
        Ok(cache)
    }
}

/// Appends a byte vector.
fn append_bytes(out: &mut Vec<u8>, part: &Vec<u8>)
    ensures
        final(out)@ == old(out)@ + part@,
{
    let mut i: usize = 0;
    while i < part.len()
        invariant
            i <= part@.len(),
            out@ == old(out)@ + part@.take(i as int),
        decreases part@.len() - i,
    {
        out.push(part[i]);
        proof {
            assert(out@ =~= old(out)@ + part@.take(i + 1));
        }
        i = i + 1;
    }
    proof {
        assert(part@.take(part@.len() as int) =~= part@);
    }
}

/// Appends one record's encoding.
fn append_record(out: &mut Vec<u8>, c: &CompactSolution)
    ensures
        final(out)@ == old(out)@ + enc_record(*c),
{
    let mut part = u32_to_le_bytes(c.result as u32);
    append_bytes(out, &part);
    out.push(c.operation_code);
    part = u16_to_le_bytes(c.operands[0]);
    append_bytes(out, &part);
    part = u16_to_le_bytes(c.operands[1]);
    append_bytes(out, &part);
    part = u16_to_le_bytes(c.operands[2]);
    append_bytes(out, &part);
    part = u16_to_le_bytes(c.timestamp_delta);
    append_bytes(out, &part);
    proof {
        assert(c.operands@[0] == c.operands[0]);
        assert(final(out)@ =~= old(out)@ + enc_record(*c));
    }
}

/// Concatenation of byte sequences is associative.
proof fn bs_assoc(a: Seq<u8>, b: Seq<u8>, c: Seq<u8>)
    ensures
        (a + b) + c == a + (b + c),
{
    assert((a + b) + c =~= a + (b + c));
}

} // verus!
