//! The library's stated laws, each proved once and for all: closure of
//! the expression generator, the division and modulo guards, the
//! ledger's non-repetition, the monotonicity of the solution cache, the
//! partitioned index's coverage, and the injectivity of the cold tier's
//! binary encoding (which makes persistence a faithful round trip).

use vstd::prelude::*;
use crate::fixed::fits_val;
use crate::grammar::{OpShape, shape_ok, cand_ok, all_ok};
use crate::universe::{sanitize, gen_cands, ident_count, occ_count, lemma_sanitize_fits,
    lemma_gen_cands_ok, lemma_gen_cands_ident, lemma_occ_count_distinct};
use crate::math_engine::{OpView, untried_views, tried, attempts_of};
use crate::types::{MathSolution, VariableAttempt};
use crate::memory::compact_solution::CompactSolution;
use crate::memory::partitioned_index::{PartitionedIndex, key_of};
use crate::memory::binary_cache::{BinaryCache, encode_cache, enc_record, enc_records, enc_pool,
    lemma_encode_shape, lemma_enc_records_len, lemma_enc_pool_len, lemma_enc_records_at,
    lemma_enc_pool_at, lemma_enc_record_len};
use vstd::bytes::{spec_u16_to_le_bytes, spec_u32_to_le_bytes, spec_u64_to_le_bytes,
    lemma_auto_spec_u16_to_from_le_bytes, lemma_auto_spec_u32_to_from_le_bytes,
    lemma_auto_spec_u64_to_from_le_bytes, spec_u16_from_le_bytes, spec_u32_from_le_bytes,
    spec_u64_from_le_bytes};

verus! {

/// Generator closure, first half: every candidate the generator produces
/// carries a representable result that is the exact value of its shape.
pub proof fn lemma_generator_closure(inputs: Seq<i64>)
    ensures
        all_ok(gen_cands(sanitize(inputs))),
        forall|k: int|
            0 <= k < gen_cands(sanitize(inputs)).len() ==> fits_val(
                (#[trigger] gen_cands(sanitize(inputs))[k]).result as int,
            ),
{
    lemma_sanitize_fits(inputs);
    lemma_gen_cands_ok(sanitize(inputs));
    assert forall|k: int| 0 <= k < gen_cands(sanitize(inputs)).len() implies fits_val(
        (#[trigger] gen_cands(sanitize(inputs))[k]).result as int,
    ) by {
        assert(cand_ok(gen_cands(sanitize(inputs))[k]));
    }
}

/// Generator closure, second half: the identity expression for a value
/// appears exactly as often as the value occurs among the sanitized
/// inputs — once per distinct input value.
pub proof fn lemma_generator_identity_once(inputs: Seq<i64>, v: i64)
    ensures
        ident_count(gen_cands(sanitize(inputs)), v) == occ_count(sanitize(inputs), v),
{
    lemma_sanitize_fits(inputs);
    lemma_gen_cands_ident(sanitize(inputs), v);
}

/// Generator closure for duplicate-free inputs: a value present among
/// the sanitized inputs yields exactly one identity candidate — once per
/// distinct input value. An input list holding a value twice (such as
/// `[300, 300]`) yields one identity per occurrence instead, as the
/// per-occurrence law above states.
pub proof fn lemma_generator_identity_distinct(inputs: Seq<i64>, v: i64)
    requires
        forall|i: int, j: int|
            0 <= i < j < sanitize(inputs).len() ==> sanitize(inputs)[i] != sanitize(inputs)[j],
        sanitize(inputs).contains(v),
    ensures
        ident_count(gen_cands(sanitize(inputs)), v) == 1,
{
    lemma_generator_identity_once(inputs, v);
    lemma_occ_count_distinct(sanitize(inputs), v);
}

/// Guard correctness: no division or modulo candidate carries a zero
/// denominator, in any operand position.
pub proof fn lemma_division_guards(inputs: Seq<i64>, k: int)
    requires
        0 <= k < gen_cands(sanitize(inputs)).len(),
    ensures
        ({
            let c = gen_cands(sanitize(inputs))[k];
            &&& (c.shape == OpShape::Div2 || c.shape == OpShape::Mod2) ==> c.y != 0
            &&& (c.shape == OpShape::SumDiv || c.shape == OpShape::DiffDiv || c.shape
                == OpShape::ProdDiv) ==> c.z != 0
            &&& c.shape == OpShape::DivDiv ==> c.y != 0 && c.z != 0
        }),
{
    lemma_sanitize_fits(inputs);
    lemma_gen_cands_ok(sanitize(inputs));
    let c = gen_cands(sanitize(inputs))[k];
    assert(cand_ok(c));
    reveal(shape_ok);
}

/// Ledger non-repetition: once an attempt is recorded, no operation with
/// its equation string survives the untried filter.
pub proof fn lemma_ledger_non_repetition(
    ovs: Seq<OpView>,
    attempts: Seq<VariableAttempt>,
    a: VariableAttempt,
    k: int,
)
    requires
        0 <= k < untried_views(ovs, attempts.push(a)).len(),
    ensures
        untried_views(ovs, attempts.push(a))[k].equation != a.equation@,
{
    let atts = attempts.push(a);
    assert(atts[atts.len() - 1] == a);
    assert(tried(atts, a.equation@));
    lemma_untried_not_tried(ovs, atts, k);
}

/// Ledger non-repetition at the engine level: when a variable's ledger
/// is its prior history plus a newly recorded attempt — the shape
/// `solve_target` ensures after every uncached call — the untried list
/// built from that ledger excludes the recorded equation.
pub proof fn lemma_engine_untried_excludes_winner(
    atts: Map<Seq<char>, Vec<VariableAttempt>>,
    var: Seq<char>,
    prior: Seq<VariableAttempt>,
    rec: VariableAttempt,
    ovs: Seq<OpView>,
    k: int,
)
    requires
        attempts_of(atts, var) == prior.push(rec),
        0 <= k < untried_views(ovs, attempts_of(atts, var)).len(),
    ensures
        untried_views(ovs, attempts_of(atts, var))[k].equation != rec.equation@,
{
    lemma_ledger_non_repetition(ovs, prior, rec, k);
}

/// Every operation surviving the untried filter has an equation that was
/// never recorded.
pub proof fn lemma_untried_not_tried(ovs: Seq<OpView>, attempts: Seq<VariableAttempt>, k: int)
    requires
        0 <= k < untried_views(ovs, attempts).len(),
    ensures
        !tried(attempts, untried_views(ovs, attempts)[k].equation),
    decreases ovs.len(),
{
    if ovs.len() > 0 {
        let head = untried_views(ovs.drop_last(), attempts);
        if k < head.len() {
            lemma_untried_not_tried(ovs.drop_last(), attempts, k);
            assert(untried_views(ovs, attempts)[k] == head[k]);
        } else {
            assert(!tried(attempts, ovs.last().equation));
            assert(untried_views(ovs, attempts)[k] == ovs.last());
        }
    }
}

/// Cache monotonicity: the update rule never lets a cached solution's
/// accuracy regress, and a strictly better solution always replaces the
/// cached one.
pub proof fn lemma_cache_monotonic(
    sols: Map<Seq<char>, MathSolution>,
    key: Seq<char>,
    r: MathSolution,
)
    ensures
        ({
            let updated = if !sols.contains_key(key) || r.accuracy > sols[key].accuracy {
                sols.insert(key, r)
            } else {
                sols
            };
            &&& updated.contains_key(key)
            &&& (sols.contains_key(key) ==> updated[key].accuracy >= sols[key].accuracy)
            &&& (sols.contains_key(key) && r.accuracy > sols[key].accuracy ==> updated[key] == r)
            &&& (sols.contains_key(key) && r.accuracy <= sols[key].accuracy ==> updated == sols)
        }),
{
}

/// Partitioned index correctness: a routed lookup for any indexed
/// record's value lands on a record holding exactly that value (the key
/// is injective, so key equality is result equality).
pub proof fn lemma_partitioned_index_correct(
    idx: &PartitionedIndex,
    sols: Seq<CompactSolution>,
    k: int,
)
    requires
        idx.wf_for(sols),
        idx.complete_for(sols, sols.len() as int),
        0 <= k < sols.len(),
    ensures
        ({
            let r = idx.search_spec(sols[k].result);
            &&& r is Some
            &&& r->0 < sols.len()
            &&& sols[r->0 as int].result == sols[k].result
        }),
{
    let v = sols[k].result;
    assert(idx.bucket(idx.routed(v)).contains_key(key_of(v)));
    let j = idx.search_spec(v)->0 as int;
    assert(key_of(sols[j].result) == key_of(v));
    crate::memory::partitioned_index::lemma_key_of_injective(sols[j].result, v);
}

/// The record encoding is injective.
pub proof fn lemma_enc_record_injective(c1: CompactSolution, c2: CompactSolution)
    requires
        enc_record(c1) == enc_record(c2),
    ensures
        c1 == c2,
{
    lemma_auto_spec_u16_to_from_le_bytes();
    lemma_auto_spec_u32_to_from_le_bytes();
    lemma_enc_record_len(c1);
    lemma_enc_record_len(c2);
    let e1 = enc_record(c1);
    let e2 = enc_record(c2);
    assert(e1.subrange(0, 4) =~= spec_u32_to_le_bytes(c1.result as u32));
    assert(e2.subrange(0, 4) =~= spec_u32_to_le_bytes(c2.result as u32));
    assert(spec_u32_from_le_bytes(spec_u32_to_le_bytes(c1.result as u32)) == c1.result as u32);
    assert(c1.result as u32 == c2.result as u32);
    let r1 = c1.result;
    let r2 = c2.result;
    assert(r1 as u32 == r2 as u32 ==> r1 == r2) by (bit_vector);
    assert(e1[4] == c1.operation_code && e2[4] == c2.operation_code);
    assert(e1.subrange(5, 7) =~= spec_u16_to_le_bytes(c1.operands@[0]));
    assert(e2.subrange(5, 7) =~= spec_u16_to_le_bytes(c2.operands@[0]));
    assert(c1.operands@[0] == c2.operands@[0]);
    assert(e1.subrange(7, 9) =~= spec_u16_to_le_bytes(c1.operands@[1]));
    assert(e2.subrange(7, 9) =~= spec_u16_to_le_bytes(c2.operands@[1]));
    assert(c1.operands@[1] == c2.operands@[1]);
    assert(e1.subrange(9, 11) =~= spec_u16_to_le_bytes(c1.operands@[2]));
    assert(e2.subrange(9, 11) =~= spec_u16_to_le_bytes(c2.operands@[2]));
    assert(c1.operands@[2] == c2.operands@[2]);
    assert(e1.subrange(11, 13) =~= spec_u16_to_le_bytes(c1.timestamp_delta));
    assert(e2.subrange(11, 13) =~= spec_u16_to_le_bytes(c2.timestamp_delta));
    assert(c1.timestamp_delta == c2.timestamp_delta);
    assert(c1.operands@ =~= c2.operands@);
    assert(c1.operands == c2.operands);
}

/// The blob encoding is injective over bounded stores.
pub proof fn lemma_encode_injective(
    s1: Seq<CompactSolution>,
    p1: Seq<i64>,
    t1: u64,
    s2: Seq<CompactSolution>,
    p2: Seq<i64>,
    t2: u64,
)
    requires
        encode_cache(s1, p1, t1) == encode_cache(s2, p2, t2),
        s1.len() <= 0xffff_ffff,
        s2.len() <= 0xffff_ffff,
        p1.len() <= 0x10000,
        p2.len() <= 0x10000,
    ensures
        s1 == s2,
        p1 == p2,
        t1 == t2,
{
    lemma_auto_spec_u16_to_from_le_bytes();
    lemma_auto_spec_u32_to_from_le_bytes();
    lemma_auto_spec_u64_to_from_le_bytes();
    lemma_encode_shape(s1, p1, t1);
    lemma_encode_shape(s2, p2, t2);
    let e = encode_cache(s1, p1, t1);
    assert(spec_u64_to_le_bytes(t1) == spec_u64_to_le_bytes(t2));
    assert(t1 == t2);
    assert(spec_u32_to_le_bytes(s1.len() as u32) == spec_u32_to_le_bytes(s2.len() as u32));
    assert(s1.len() as u32 == s2.len() as u32);
    assert(s1.len() == s2.len());
    let ns = s1.len() as int;
    assert(e.subrange(12, 12 + 13 * ns) == enc_records(s1));
    assert(e.subrange(12, 12 + 13 * ns) == enc_records(s2));
    assert forall|i: int| 0 <= i < s1.len() implies s1[i] == s2[i] by {
        lemma_enc_records_at(s1, i);
        lemma_enc_records_at(s2, i);
        assert(enc_record(s1[i]) == enc_record(s2[i]));
        lemma_enc_record_injective(s1[i], s2[i]);
    }
    assert(s1 =~= s2);
    assert(spec_u32_to_le_bytes(p1.len() as u32) == spec_u32_to_le_bytes(p2.len() as u32));
    assert(p1.len() == p2.len());
    let np = p1.len() as int;
    assert(e.subrange(16 + 13 * ns, 16 + 13 * ns + 8 * np) == enc_pool(p1));
    assert(e.subrange(16 + 13 * ns, 16 + 13 * ns + 8 * np) == enc_pool(p2));
    assert forall|i: int| 0 <= i < p1.len() implies p1[i] == p2[i] by {
        lemma_enc_pool_at(p1, i);
        lemma_enc_pool_at(p2, i);
        assert(spec_u64_to_le_bytes(p1[i] as u64) == spec_u64_to_le_bytes(p2[i] as u64));
        assert(p1[i] as u64 == p2[i] as u64);
        let a = p1[i];
        let b = p2[i];
        assert(a as u64 == b as u64 ==> a == b) by (bit_vector);
    }
    assert(p1 =~= p2);
}

/// Round-trip persistence: a store serialized and read back holds the
/// same records, the same operand pool and the same epoch.
pub proof fn lemma_round_trip_persistence(a: &BinaryCache, b: &BinaryCache, bytes: Seq<u8>)
    requires
        a.wf(),
        b.wf(),
        a.solutions@.len() <= 0xffff_ffff,
        b.solutions@.len() <= 0xffff_ffff,
        bytes == encode_cache(a.solutions@, a.operand_pool@, a.start_time),
        bytes == encode_cache(b.solutions@, b.operand_pool@, b.start_time),
    ensures
        b.solutions@ == a.solutions@,
        b.operand_pool@ == a.operand_pool@,
        b.start_time == a.start_time,
{
    lemma_encode_injective(
        a.solutions@,
        a.operand_pool@,
        a.start_time,
        b.solutions@,
        b.operand_pool@,
        b.start_time,
    );
}

} // verus!
