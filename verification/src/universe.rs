//! Enumeration of the candidate universe: the exact sequence of grammar
//! candidates that a list of input values generates, as a specification,
//! and the executable generator that produces it.
//!
//! Inputs are first sanitized: a value outside the representable range is
//! dropped. Then every remaining value contributes the unary shapes, every
//! index pair `(i, j)` with `i < j` the binary shapes (both operand orders
//! where order matters), and every index triple `(i, j, k)` with
//! `i < j < k` the ternary shapes.

use vstd::prelude::*;
use crate::fixed::fits_val;
use crate::grammar::{OpShape, Candidate, shape_ok, cand_of, opt_cand, cand_ok, all_ok,
    lemma_all_ok_concat, lemma_shape_val_fits, eval_shape};

verus! {

/// The input list with every unrepresentable value dropped.
pub open spec fn sanitize(s: Seq<i64>) -> Seq<i64>
    decreases s.len(),
{
    if s.len() == 0 {
        s
    } else {
        sanitize(s.drop_last()) + if fits_val(s.last() as int) {
            seq![s.last()]
        } else {
            Seq::empty()
        }
    }
}

pub proof fn lemma_sanitize_fits(s: Seq<i64>)
    ensures
        forall|k: int| 0 <= k < sanitize(s).len() ==> fits_val(#[trigger] sanitize(s)[k] as int),
    decreases s.len(),
{
    if s.len() > 0 {
        lemma_sanitize_fits(s.drop_last());
        let head = sanitize(s.drop_last());
        assert forall|k: int| 0 <= k < sanitize(s).len() implies fits_val(
            #[trigger] sanitize(s)[k] as int,
        ) by {
            if k < head.len() {
                assert(sanitize(s)[k] == head[k]);
            } else {
                assert(fits_val(s.last() as int));
            }
        }
    }
}

/// Concatenation of sequences is associative.
proof fn seq_assoc(a: Seq<Candidate>, b: Seq<Candidate>, c: Seq<Candidate>)
    ensures
        (a + b) + c == a + (b + c),
{
    assert((a + b) + c =~= a + (b + c));
}

/// The candidate contributed by one shape instance, when its guard holds.
pub open spec fn inst(sh: OpShape, x: i64, y: i64, z: i64) -> Seq<Candidate> {
    opt_cand(shape_ok(sh, x as int, y as int, z as int), cand_of(sh, x, y, z))
}

/// The unary candidates of one value, in generation order.
pub open spec fn unary_cands(n: i64) -> Seq<Candidate> {
    inst(OpShape::Ident, n, 0, 0) + inst(OpShape::Sqrt, n, 0, 0) + inst(OpShape::Abs, n, 0, 0)
        + inst(OpShape::Square, n, 0, 0) + inst(OpShape::Cube, n, 0, 0) + inst(
        OpShape::Fact,
        n,
        0,
        0,
    ) + inst(OpShape::Ceil, n, 0, 0) + inst(OpShape::Floor, n, 0, 0)
}

/// The first eight binary candidates of a pair, in generation order.
pub open spec fn pair_ops_a(a: i64, b: i64) -> Seq<Candidate> {
    inst(OpShape::Add2, a, b, 0) + inst(OpShape::Sub2, a, b, 0) + inst(OpShape::Sub2, b, a, 0) + inst(OpShape::Mul2, a, b, 0) + inst(OpShape::Div2, a, b, 0) + inst(OpShape::Div2, b, a, 0) + inst(OpShape::Pow2, a, b, 0) + inst(OpShape::Pow2, b, a, 0)
}

/// The remaining binary candidates of a pair, in generation order.
pub open spec fn pair_ops_b(a: i64, b: i64) -> Seq<Candidate> {
    inst(OpShape::Mod2, a, b, 0) + inst(OpShape::Mod2, b, a, 0) + inst(OpShape::Max2, a, b, 0) + inst(OpShape::Min2, a, b, 0) + inst(OpShape::Hypot2, a, b, 0) + inst(OpShape::Avg2, a, b, 0) + inst(OpShape::Geo2, a, b, 0)
}

/// The binary candidates of one unordered pair, in generation order.
pub open spec fn pair_cands(a: i64, b: i64) -> Seq<Candidate> {
    pair_ops_a(a, b) + pair_ops_b(a, b)
}

/// The first eight ternary candidates of a triple, in generation order.
pub open spec fn triple_ops_1(a: i64, b: i64, c: i64) -> Seq<Candidate> {
    inst(OpShape::AddAdd, a, b, c) + inst(OpShape::AddSub, a, b, c) + inst(OpShape::SubAdd, a, b, c) + inst(OpShape::SubSub, a, b, c) + inst(OpShape::MulAdd, a, b, c) + inst(OpShape::MulSub, a, b, c) + inst(OpShape::AddMul, a, b, c) + inst(OpShape::SubMul, a, b, c)
}

/// The ninth through sixteenth ternary candidates, in generation order.
pub open spec fn triple_ops_2(a: i64, b: i64, c: i64) -> Seq<Candidate> {
    inst(OpShape::MulAdd, a, c, b) + inst(OpShape::MulSub, a, c, b) + inst(OpShape::MulAdd, b, c, a) + inst(OpShape::MulSub, b, c, a) + inst(OpShape::SumMul, a, b, c) + inst(OpShape::DiffMul, a, b, c) + inst(OpShape::MulSum, a, b, c) + inst(OpShape::MulDiff, a, b, c)
}

/// The seventeenth through twenty-fourth ternary candidates, in generation order.
pub open spec fn triple_ops_3(a: i64, b: i64, c: i64) -> Seq<Candidate> {
    inst(OpShape::SumMul, a, c, b) + inst(OpShape::DiffMul, a, c, b) + inst(OpShape::MulSum, b, a, c) + inst(OpShape::MulDiff, b, a, c) + inst(OpShape::SumDiv, a, b, c) + inst(OpShape::DiffDiv, a, b, c) + inst(OpShape::ProdDiv, a, b, c) + inst(OpShape::SumDiv, a, c, b)
}

/// The twenty-fifth through thirty-second ternary candidates, in generation order.
pub open spec fn triple_ops_4(a: i64, b: i64, c: i64) -> Seq<Candidate> {
    inst(OpShape::DiffDiv, a, c, b) + inst(OpShape::ProdDiv, a, c, b) + inst(OpShape::SumDiv, b, c, a) + inst(OpShape::DiffDiv, b, c, a) + inst(OpShape::ProdDiv, b, c, a) + inst(OpShape::DivDiv, a, b, c) + inst(OpShape::DivDiv, b, a, c) + inst(OpShape::DivDiv, c, a, b)
}

/// The last seven ternary candidates, in generation order.
pub open spec fn triple_ops_5(a: i64, b: i64, c: i64) -> Seq<Candidate> {
    inst(OpShape::MulMul, a, b, c) + inst(OpShape::PowAdd, a, b, c) + inst(OpShape::PowSub, a, b, c) + inst(OpShape::SumPow, a, b, c) + inst(OpShape::DiffPow, a, b, c) + inst(OpShape::Avg3, a, b, c) + inst(OpShape::Geo3, a, b, c)
}

/// The ternary candidates of one index-increasing triple, in generation
/// order.
pub open spec fn triple_cands(a: i64, b: i64, c: i64) -> Seq<Candidate> {
    triple_ops_1(a, b, c) + triple_ops_2(a, b, c) + triple_ops_3(a, b, c) + triple_ops_4(a, b, c)
        + triple_ops_5(a, b, c)
}

/// Unary candidates of every value from index `i` on.
pub open spec fn unary_from(nums: Seq<i64>, i: int) -> Seq<Candidate>
    recommends
        0 <= i <= nums.len(),
    decreases nums.len() - i,
{
    if i < 0 || i >= nums.len() {
        Seq::empty()
    } else {
        unary_cands(nums[i]) + unary_from(nums, i + 1)
    }
}

/// Binary candidates of the pairs `(i, j)` for a fixed `i`, from `j` on.
pub open spec fn pairs_row(nums: Seq<i64>, i: int, j: int) -> Seq<Candidate>
    recommends
        0 <= i < nums.len(),
        i < j,
    decreases nums.len() - j,
{
    if j < 0 || j >= nums.len() {
        Seq::empty()
    } else {
        pair_cands(nums[i], nums[j]) + pairs_row(nums, i, j + 1)
    }
}

/// Binary candidates of all pairs from first index `i` on.
pub open spec fn pairs_from(nums: Seq<i64>, i: int) -> Seq<Candidate>
    recommends
        0 <= i,
    decreases nums.len() - i,
{
    if i < 0 || i >= nums.len() {
        Seq::empty()
    } else {
        pairs_row(nums, i, i + 1) + pairs_from(nums, i + 1)
    }
}

/// Ternary candidates of the triples `(i, j, k)` for fixed `i`, `j`, from
/// `k` on.
pub open spec fn triples_row(nums: Seq<i64>, i: int, j: int, k: int) -> Seq<Candidate>
    recommends
        0 <= i < j < k,
    decreases nums.len() - k,
{
    if k < 0 || k >= nums.len() {
        Seq::empty()
    } else {
        triple_cands(nums[i], nums[j], nums[k]) + triples_row(nums, i, j, k + 1)
    }
}

/// Ternary candidates of the triples `(i, j, k)` for fixed `i`, from `j`
/// on.
pub open spec fn triples_mid(nums: Seq<i64>, i: int, j: int) -> Seq<Candidate>
    recommends
        0 <= i < j,
    decreases nums.len() - j,
{
    if j < 0 || j >= nums.len() {
        Seq::empty()
    } else {
        triples_row(nums, i, j, j + 1) + triples_mid(nums, i, j + 1)
    }
}

/// Ternary candidates of all triples from first index `i` on.
pub open spec fn triples_from(nums: Seq<i64>, i: int) -> Seq<Candidate>
    recommends
        0 <= i,
    decreases nums.len() - i,
{
    if i < 0 || i >= nums.len() {
        Seq::empty()
    } else {
        triples_mid(nums, i, i + 1) + triples_from(nums, i + 1)
    }
}

/// The whole candidate universe of a sanitized value list.
pub open spec fn gen_cands(nums: Seq<i64>) -> Seq<Candidate> {
    unary_from(nums, 0) + pairs_from(nums, 0) + triples_from(nums, 0)
}

/// Drops unrepresentable inputs, keeping order.
pub fn sanitize_inputs(inputs: &Vec<i64>) -> (r: Vec<i64>)
    ensures
        r@ == sanitize(inputs@),
        forall|k: int| 0 <= k < r@.len() ==> fits_val(#[trigger] r@[k] as int),
{
    let mut out: Vec<i64> = Vec::new();
    let mut i: usize = 0;
    while i < inputs.len()
        invariant
            i <= inputs.len(),
            out@ == sanitize(inputs@.take(i as int)),
        decreases inputs.len() - i,
    {
        let v = inputs[i];
        proof {
            assert(inputs@.take(i + 1).drop_last() =~= inputs@.take(i as int));
            assert(inputs@.take(i + 1).last() == inputs@[i as int]);
        }
        if -1_000_000_000_000_000 <= v && v <= 1_000_000_000_000_000 {
            out.push(v);
        }
        i = i + 1;
    }
    proof {
        assert(inputs@.take(inputs@.len() as int) =~= inputs@);
        lemma_sanitize_fits(inputs@);
    }
    out
}

/// Pushes the candidate of one shape instance, if its guard admits it.
fn push_inst(out: &mut Vec<Candidate>, sh: OpShape, x: i64, y: i64, z: i64)
    requires
        fits_val(x as int),
        fits_val(y as int),
        fits_val(z as int),
    ensures
        final(out)@ == old(out)@ + inst(sh, x, y, z),
{
    match eval_shape(sh, x, y, z) {
        Some(v) => {
            out.push(Candidate { shape: sh, x, y, z, result: v });
            proof {
                assert(v == cand_of(sh, x, y, z).result);
                assert(out@ =~= old(out)@ + inst(sh, x, y, z));
            }
        },
        None => {
            proof {
                assert(out@ =~= old(out)@ + inst(sh, x, y, z));
            }
        },
    }
}

/// Pushes the unary candidates of one value.
#[verifier::rlimit(100)]
#[verifier::spinoff_prover]
fn push_unary(out: &mut Vec<Candidate>, n: i64)
    requires
        fits_val(n as int),
    ensures
        final(out)@ == old(out)@ + unary_cands(n),
{
    push_inst(out, OpShape::Ident, n, 0, 0);
    push_inst(out, OpShape::Sqrt, n, 0, 0);
    push_inst(out, OpShape::Abs, n, 0, 0);
    push_inst(out, OpShape::Square, n, 0, 0);
    push_inst(out, OpShape::Cube, n, 0, 0);
    push_inst(out, OpShape::Fact, n, 0, 0);
    push_inst(out, OpShape::Ceil, n, 0, 0);
    push_inst(out, OpShape::Floor, n, 0, 0);
}

/// Pushes the binary candidates of one pair.
#[verifier::rlimit(100)]
#[verifier::spinoff_prover]
fn push_pair_a(out: &mut Vec<Candidate>, a: i64, b: i64)
    requires
        fits_val(a as int),
        fits_val(b as int),
    ensures
        final(out)@ == old(out)@ + pair_ops_a(a, b),
{
    push_inst(out, OpShape::Add2, a, b, 0);
    push_inst(out, OpShape::Sub2, a, b, 0);
    push_inst(out, OpShape::Sub2, b, a, 0);
    push_inst(out, OpShape::Mul2, a, b, 0);
    push_inst(out, OpShape::Div2, a, b, 0);
    push_inst(out, OpShape::Div2, b, a, 0);
    push_inst(out, OpShape::Pow2, a, b, 0);
    push_inst(out, OpShape::Pow2, b, a, 0);
}

#[verifier::rlimit(100)]
#[verifier::spinoff_prover]
fn push_pair_b(out: &mut Vec<Candidate>, a: i64, b: i64)
    requires
        fits_val(a as int),
        fits_val(b as int),
    ensures
        final(out)@ == old(out)@ + pair_ops_b(a, b),
{
    push_inst(out, OpShape::Mod2, a, b, 0);
    push_inst(out, OpShape::Mod2, b, a, 0);
    push_inst(out, OpShape::Max2, a, b, 0);
    push_inst(out, OpShape::Min2, a, b, 0);
    push_inst(out, OpShape::Hypot2, a, b, 0);
    push_inst(out, OpShape::Avg2, a, b, 0);
    push_inst(out, OpShape::Geo2, a, b, 0);
}

fn push_pair(out: &mut Vec<Candidate>, a: i64, b: i64)
    requires
        fits_val(a as int),
        fits_val(b as int),
    ensures
        final(out)@ == old(out)@ + pair_cands(a, b),
{
    push_pair_a(out, a, b);
    push_pair_b(out, a, b);
    proof {
        seq_assoc(old(out)@, pair_ops_a(a, b), pair_ops_b(a, b));
    }
}

/// Pushes the ternary candidates of one triple.
#[verifier::rlimit(100)]
#[verifier::spinoff_prover]
fn push_triple_1(out: &mut Vec<Candidate>, a: i64, b: i64, c: i64)
    requires
        fits_val(a as int),
        fits_val(b as int),
        fits_val(c as int),
    ensures
        final(out)@ == old(out)@ + triple_ops_1(a, b, c),
{
    push_inst(out, OpShape::AddAdd, a, b, c);
    push_inst(out, OpShape::AddSub, a, b, c);
    push_inst(out, OpShape::SubAdd, a, b, c);
    push_inst(out, OpShape::SubSub, a, b, c);
    push_inst(out, OpShape::MulAdd, a, b, c);
    push_inst(out, OpShape::MulSub, a, b, c);
    push_inst(out, OpShape::AddMul, a, b, c);
    push_inst(out, OpShape::SubMul, a, b, c);
}

#[verifier::rlimit(100)]
#[verifier::spinoff_prover]
fn push_triple_2(out: &mut Vec<Candidate>, a: i64, b: i64, c: i64)
    requires
        fits_val(a as int),
        fits_val(b as int),
        fits_val(c as int),
    ensures
        final(out)@ == old(out)@ + triple_ops_2(a, b, c),
{
    push_inst(out, OpShape::MulAdd, a, c, b);
    push_inst(out, OpShape::MulSub, a, c, b);
    push_inst(out, OpShape::MulAdd, b, c, a);
    push_inst(out, OpShape::MulSub, b, c, a);
    push_inst(out, OpShape::SumMul, a, b, c);
    push_inst(out, OpShape::DiffMul, a, b, c);
    push_inst(out, OpShape::MulSum, a, b, c);
    push_inst(out, OpShape::MulDiff, a, b, c);
}

#[verifier::rlimit(100)]
#[verifier::spinoff_prover]
fn push_triple_3(out: &mut Vec<Candidate>, a: i64, b: i64, c: i64)
    requires
        fits_val(a as int),
        fits_val(b as int),
        fits_val(c as int),
    ensures
        final(out)@ == old(out)@ + triple_ops_3(a, b, c),
{
    push_inst(out, OpShape::SumMul, a, c, b);
    push_inst(out, OpShape::DiffMul, a, c, b);
    push_inst(out, OpShape::MulSum, b, a, c);
    push_inst(out, OpShape::MulDiff, b, a, c);
    push_inst(out, OpShape::SumDiv, a, b, c);
    push_inst(out, OpShape::DiffDiv, a, b, c);
    push_inst(out, OpShape::ProdDiv, a, b, c);
    push_inst(out, OpShape::SumDiv, a, c, b);
}

#[verifier::rlimit(100)]
#[verifier::spinoff_prover]
fn push_triple_4(out: &mut Vec<Candidate>, a: i64, b: i64, c: i64)
    requires
        fits_val(a as int),
        fits_val(b as int),
        fits_val(c as int),
    ensures
        final(out)@ == old(out)@ + triple_ops_4(a, b, c),
{
    push_inst(out, OpShape::DiffDiv, a, c, b);
    push_inst(out, OpShape::ProdDiv, a, c, b);
    push_inst(out, OpShape::SumDiv, b, c, a);
    push_inst(out, OpShape::DiffDiv, b, c, a);
    push_inst(out, OpShape::ProdDiv, b, c, a);
    push_inst(out, OpShape::DivDiv, a, b, c);
    push_inst(out, OpShape::DivDiv, b, a, c);
    push_inst(out, OpShape::DivDiv, c, a, b);
}

#[verifier::rlimit(100)]
#[verifier::spinoff_prover]
fn push_triple_5(out: &mut Vec<Candidate>, a: i64, b: i64, c: i64)
    requires
        fits_val(a as int),
        fits_val(b as int),
        fits_val(c as int),
    ensures
        final(out)@ == old(out)@ + triple_ops_5(a, b, c),
{
    push_inst(out, OpShape::MulMul, a, b, c);
    push_inst(out, OpShape::PowAdd, a, b, c);
    push_inst(out, OpShape::PowSub, a, b, c);
    push_inst(out, OpShape::SumPow, a, b, c);
    push_inst(out, OpShape::DiffPow, a, b, c);
    push_inst(out, OpShape::Avg3, a, b, c);
    push_inst(out, OpShape::Geo3, a, b, c);
}

fn push_triple(out: &mut Vec<Candidate>, a: i64, b: i64, c: i64)
    requires
        fits_val(a as int),
        fits_val(b as int),
        fits_val(c as int),
    ensures
        final(out)@ == old(out)@ + triple_cands(a, b, c),
{
    push_triple_1(out, a, b, c);
    push_triple_2(out, a, b, c);
    push_triple_3(out, a, b, c);
    push_triple_4(out, a, b, c);
    push_triple_5(out, a, b, c);
}

/// Generates the whole candidate universe of a sanitized value list, in
/// generation order.
pub fn generate_candidates(nums: &Vec<i64>) -> (r: Vec<Candidate>)
    requires
        forall|k: int| 0 <= k < nums@.len() ==> fits_val(#[trigger] nums@[k] as int),
    ensures
        r@ == gen_cands(nums@),
{
    let mut out: Vec<Candidate> = Vec::new();
    let n = nums.len();

    let mut i: usize = 0;
    while i < n
        invariant
            i <= n,
            n == nums@.len(),
            forall|k: int| 0 <= k < nums@.len() ==> fits_val(#[trigger] nums@[k] as int),
            out@ + unary_from(nums@, i as int) == unary_from(nums@, 0),
        decreases n - i,
    {
        let ghost pre = out@;
        push_unary(&mut out, nums[i]);
        proof {
            seq_assoc(pre, unary_cands(nums@[i as int]), unary_from(nums@, i + 1));
        }
        i = i + 1;
    }
    proof {
        assert(out@ + unary_from(nums@, n as int) =~= out@);
    }

    let ghost base1 = out@;
    let mut i: usize = 0;
    while i < n
        invariant
            i <= n,
            n == nums@.len(),
            forall|k: int| 0 <= k < nums@.len() ==> fits_val(#[trigger] nums@[k] as int),
            out@ + pairs_from(nums@, i as int) == base1 + pairs_from(nums@, 0),
        decreases n - i,
    {
        proof {
            seq_assoc(out@, pairs_row(nums@, i as int, i + 1), pairs_from(nums@, i + 1));
        }
        let mut j: usize = i + 1;
        while j < n
            invariant
                i < j <= n,
                i < n,
                n == nums@.len(),
                forall|k: int| 0 <= k < nums@.len() ==> fits_val(#[trigger] nums@[k] as int),
                out@ + pairs_row(nums@, i as int, j as int) + pairs_from(nums@, i + 1) == base1
                    + pairs_from(nums@, 0),
            decreases n - j,
        {
            let ghost pre = out@;
            push_pair(&mut out, nums[i], nums[j]);
            proof {
                seq_assoc(
                    pre,
                    pair_cands(nums@[i as int], nums@[j as int]),
                    pairs_row(nums@, i as int, j + 1),
                );
            }
            j = j + 1;
        }
        proof {
            assert(out@ + pairs_row(nums@, i as int, n as int) =~= out@);
        }
        i = i + 1;
    }
    proof {
        assert(out@ + pairs_from(nums@, n as int) =~= out@);
    }

    let ghost base2 = out@;
    let mut i: usize = 0;
    while i < n
        invariant
            i <= n,
            n == nums@.len(),
            forall|k: int| 0 <= k < nums@.len() ==> fits_val(#[trigger] nums@[k] as int),
            out@ + triples_from(nums@, i as int) == base2 + triples_from(nums@, 0),
        decreases n - i,
    {
        proof {
            seq_assoc(out@, triples_mid(nums@, i as int, i + 1), triples_from(nums@, i + 1));
        }
        let mut j: usize = i + 1;
        while j < n
            invariant
                i < j <= n,
                i < n,
                n == nums@.len(),
                forall|k: int| 0 <= k < nums@.len() ==> fits_val(#[trigger] nums@[k] as int),
                out@ + triples_mid(nums@, i as int, j as int) + triples_from(nums@, i + 1) == base2
                    + triples_from(nums@, 0),
            decreases n - j,
        {
            proof {
                let tail = triples_mid(nums@, i as int, j + 1);
                seq_assoc(out@, triples_row(nums@, i as int, j as int, j + 1), tail);
                seq_assoc(
                    out@ + triples_row(nums@, i as int, j as int, j + 1),
                    tail,
                    triples_from(nums@, i + 1),
                );
                seq_assoc(
                    out@,
                    triples_mid(nums@, i as int, j as int),
                    triples_from(nums@, i + 1),
                );
            }
            let mut k: usize = j + 1;
            while k < n
                invariant
                    j < k <= n,
                    i < j < n,
                    n == nums@.len(),
                    forall|m: int| 0 <= m < nums@.len() ==> fits_val(#[trigger] nums@[m] as int),
                    out@ + triples_row(nums@, i as int, j as int, k as int) + triples_mid(
                        nums@,
                        i as int,
                        j + 1,
                    ) + triples_from(nums@, i + 1) == base2 + triples_from(nums@, 0),
                decreases n - k,
            {
                let ghost pre = out@;
                push_triple(&mut out, nums[i], nums[j], nums[k]);
                proof {
                    seq_assoc(
                        pre,
                        triple_cands(nums@[i as int], nums@[j as int], nums@[k as int]),
                        triples_row(nums@, i as int, j as int, k + 1),
                    );
                }
                k = k + 1;
            }
            proof {
                assert(out@ + triples_row(nums@, i as int, j as int, n as int) =~= out@);
            }
            j = j + 1;
        }
        proof {
            assert(out@ + triples_mid(nums@, i as int, n as int) =~= out@);
        }
        i = i + 1;
    }
    proof {
        assert(out@ + triples_from(nums@, n as int) =~= out@);
    }
    out
}

// ---------------------------------------------------------------------
// Soundness: every generated candidate is well formed.
// ---------------------------------------------------------------------

proof fn lemma_inst_ok(sh: OpShape, x: i64, y: i64, z: i64)
    requires
        fits_val(x as int),
        fits_val(y as int),
        fits_val(z as int),
    ensures
        all_ok(inst(sh, x, y, z)),
{
    if shape_ok(sh, x as int, y as int, z as int) {
        lemma_shape_val_fits(sh, x as int, y as int, z as int);
        assert(cand_ok(cand_of(sh, x, y, z)));
        assert(forall|k: int| 0 <= k < inst(sh, x, y, z).len() ==> #[trigger] inst(
            sh,
            x,
            y,
            z,
        )[k] == cand_of(sh, x, y, z));
    }
}

proof fn lemma_unary_ok(n: i64)
    requires
        fits_val(n as int),
    ensures
        all_ok(unary_cands(n)),
{
    lemma_inst_ok(OpShape::Ident, n, 0, 0);
    lemma_inst_ok(OpShape::Sqrt, n, 0, 0);
    lemma_inst_ok(OpShape::Abs, n, 0, 0);
    lemma_inst_ok(OpShape::Square, n, 0, 0);
    lemma_inst_ok(OpShape::Cube, n, 0, 0);
    lemma_inst_ok(OpShape::Fact, n, 0, 0);
    lemma_inst_ok(OpShape::Ceil, n, 0, 0);
    lemma_inst_ok(OpShape::Floor, n, 0, 0);
    lemma_all_ok_concat(inst(OpShape::Ident, n, 0, 0), inst(OpShape::Sqrt, n, 0, 0));
    lemma_all_ok_concat(
        inst(OpShape::Ident, n, 0, 0) + inst(OpShape::Sqrt, n, 0, 0),
        inst(OpShape::Abs, n, 0, 0),
    );
    lemma_all_ok_concat(
        inst(OpShape::Ident, n, 0, 0) + inst(OpShape::Sqrt, n, 0, 0) + inst(OpShape::Abs, n, 0, 0),
        inst(OpShape::Square, n, 0, 0),
    );
    lemma_all_ok_concat(
        inst(OpShape::Ident, n, 0, 0) + inst(OpShape::Sqrt, n, 0, 0) + inst(OpShape::Abs, n, 0, 0)
            + inst(OpShape::Square, n, 0, 0),
        inst(OpShape::Cube, n, 0, 0),
    );
    lemma_all_ok_concat(
        inst(OpShape::Ident, n, 0, 0) + inst(OpShape::Sqrt, n, 0, 0) + inst(OpShape::Abs, n, 0, 0)
            + inst(OpShape::Square, n, 0, 0) + inst(OpShape::Cube, n, 0, 0),
        inst(OpShape::Fact, n, 0, 0),
    );
    lemma_all_ok_concat(
        inst(OpShape::Ident, n, 0, 0) + inst(OpShape::Sqrt, n, 0, 0) + inst(OpShape::Abs, n, 0, 0)
            + inst(OpShape::Square, n, 0, 0) + inst(OpShape::Cube, n, 0, 0) + inst(
            OpShape::Fact,
            n,
            0,
            0,
        ),
        inst(OpShape::Ceil, n, 0, 0),
    );
    lemma_all_ok_concat(
        inst(OpShape::Ident, n, 0, 0) + inst(OpShape::Sqrt, n, 0, 0) + inst(OpShape::Abs, n, 0, 0)
            + inst(OpShape::Square, n, 0, 0) + inst(OpShape::Cube, n, 0, 0) + inst(
            OpShape::Fact,
            n,
            0,
            0,
        ) + inst(OpShape::Ceil, n, 0, 0),
        inst(OpShape::Floor, n, 0, 0),
    );
}

proof fn lemma_pair_ok_a(a: i64, b: i64)
    requires
        fits_val(a as int),
        fits_val(b as int),
    ensures
        all_ok(pair_ops_a(a, b)),
{
    lemma_inst_ok(OpShape::Add2, a, b, 0);
    let s1 = inst(OpShape::Add2, a, b, 0);
    lemma_inst_ok(OpShape::Sub2, a, b, 0);
    lemma_all_ok_concat(s1, inst(OpShape::Sub2, a, b, 0));
    let s2 = s1 + inst(OpShape::Sub2, a, b, 0);
    lemma_inst_ok(OpShape::Sub2, b, a, 0);
    lemma_all_ok_concat(s2, inst(OpShape::Sub2, b, a, 0));
    let s3 = s2 + inst(OpShape::Sub2, b, a, 0);
    lemma_inst_ok(OpShape::Mul2, a, b, 0);
    lemma_all_ok_concat(s3, inst(OpShape::Mul2, a, b, 0));
    let s4 = s3 + inst(OpShape::Mul2, a, b, 0);
    lemma_inst_ok(OpShape::Div2, a, b, 0);
    lemma_all_ok_concat(s4, inst(OpShape::Div2, a, b, 0));
    let s5 = s4 + inst(OpShape::Div2, a, b, 0);
    lemma_inst_ok(OpShape::Div2, b, a, 0);
    lemma_all_ok_concat(s5, inst(OpShape::Div2, b, a, 0));
    let s6 = s5 + inst(OpShape::Div2, b, a, 0);
    lemma_inst_ok(OpShape::Pow2, a, b, 0);
    lemma_all_ok_concat(s6, inst(OpShape::Pow2, a, b, 0));
    let s7 = s6 + inst(OpShape::Pow2, a, b, 0);
    lemma_inst_ok(OpShape::Pow2, b, a, 0);
    lemma_all_ok_concat(s7, inst(OpShape::Pow2, b, a, 0));
    let s8 = s7 + inst(OpShape::Pow2, b, a, 0);
    assert(pair_ops_a(a, b) == s8);
}

proof fn lemma_pair_ok_b(a: i64, b: i64)
    requires
        fits_val(a as int),
        fits_val(b as int),
    ensures
        all_ok(pair_ops_b(a, b)),
{
    lemma_inst_ok(OpShape::Mod2, a, b, 0);
    let s1 = inst(OpShape::Mod2, a, b, 0);
    lemma_inst_ok(OpShape::Mod2, b, a, 0);
    lemma_all_ok_concat(s1, inst(OpShape::Mod2, b, a, 0));
    let s2 = s1 + inst(OpShape::Mod2, b, a, 0);
    lemma_inst_ok(OpShape::Max2, a, b, 0);
    lemma_all_ok_concat(s2, inst(OpShape::Max2, a, b, 0));
    let s3 = s2 + inst(OpShape::Max2, a, b, 0);
    lemma_inst_ok(OpShape::Min2, a, b, 0);
    lemma_all_ok_concat(s3, inst(OpShape::Min2, a, b, 0));
    let s4 = s3 + inst(OpShape::Min2, a, b, 0);
    lemma_inst_ok(OpShape::Hypot2, a, b, 0);
    lemma_all_ok_concat(s4, inst(OpShape::Hypot2, a, b, 0));
    let s5 = s4 + inst(OpShape::Hypot2, a, b, 0);
    lemma_inst_ok(OpShape::Avg2, a, b, 0);
    lemma_all_ok_concat(s5, inst(OpShape::Avg2, a, b, 0));
    let s6 = s5 + inst(OpShape::Avg2, a, b, 0);
    lemma_inst_ok(OpShape::Geo2, a, b, 0);
    lemma_all_ok_concat(s6, inst(OpShape::Geo2, a, b, 0));
    let s7 = s6 + inst(OpShape::Geo2, a, b, 0);
    assert(pair_ops_b(a, b) == s7);
}

proof fn lemma_pair_ok(a: i64, b: i64)
    requires
        fits_val(a as int),
        fits_val(b as int),
    ensures
        all_ok(pair_cands(a, b)),
{
    lemma_pair_ok_a(a, b);
    lemma_pair_ok_b(a, b);
    lemma_all_ok_concat(pair_ops_a(a, b), pair_ops_b(a, b));
}

proof fn lemma_triple_ok_1(a: i64, b: i64, c: i64)
    requires
        fits_val(a as int),
        fits_val(b as int),
        fits_val(c as int),
    ensures
        all_ok(triple_ops_1(a, b, c)),
{
    lemma_inst_ok(OpShape::AddAdd, a, b, c);
    let s1 = inst(OpShape::AddAdd, a, b, c);
    lemma_inst_ok(OpShape::AddSub, a, b, c);
    lemma_all_ok_concat(s1, inst(OpShape::AddSub, a, b, c));
    let s2 = s1 + inst(OpShape::AddSub, a, b, c);
    lemma_inst_ok(OpShape::SubAdd, a, b, c);
    lemma_all_ok_concat(s2, inst(OpShape::SubAdd, a, b, c));
    let s3 = s2 + inst(OpShape::SubAdd, a, b, c);
    lemma_inst_ok(OpShape::SubSub, a, b, c);
    lemma_all_ok_concat(s3, inst(OpShape::SubSub, a, b, c));
    let s4 = s3 + inst(OpShape::SubSub, a, b, c);
    lemma_inst_ok(OpShape::MulAdd, a, b, c);
    lemma_all_ok_concat(s4, inst(OpShape::MulAdd, a, b, c));
    let s5 = s4 + inst(OpShape::MulAdd, a, b, c);
    lemma_inst_ok(OpShape::MulSub, a, b, c);
    lemma_all_ok_concat(s5, inst(OpShape::MulSub, a, b, c));
    let s6 = s5 + inst(OpShape::MulSub, a, b, c);
    lemma_inst_ok(OpShape::AddMul, a, b, c);
    lemma_all_ok_concat(s6, inst(OpShape::AddMul, a, b, c));
    let s7 = s6 + inst(OpShape::AddMul, a, b, c);
    lemma_inst_ok(OpShape::SubMul, a, b, c);
    lemma_all_ok_concat(s7, inst(OpShape::SubMul, a, b, c));
    let s8 = s7 + inst(OpShape::SubMul, a, b, c);
    assert(triple_ops_1(a, b, c) == s8);
}

proof fn lemma_triple_ok_2(a: i64, b: i64, c: i64)
    requires
        fits_val(a as int),
        fits_val(b as int),
        fits_val(c as int),
    ensures
        all_ok(triple_ops_2(a, b, c)),
{
    lemma_inst_ok(OpShape::MulAdd, a, c, b);
    let s1 = inst(OpShape::MulAdd, a, c, b);
    lemma_inst_ok(OpShape::MulSub, a, c, b);
    lemma_all_ok_concat(s1, inst(OpShape::MulSub, a, c, b));
    let s2 = s1 + inst(OpShape::MulSub, a, c, b);
    lemma_inst_ok(OpShape::MulAdd, b, c, a);
    lemma_all_ok_concat(s2, inst(OpShape::MulAdd, b, c, a));
    let s3 = s2 + inst(OpShape::MulAdd, b, c, a);
    lemma_inst_ok(OpShape::MulSub, b, c, a);
    lemma_all_ok_concat(s3, inst(OpShape::MulSub, b, c, a));
    let s4 = s3 + inst(OpShape::MulSub, b, c, a);
    lemma_inst_ok(OpShape::SumMul, a, b, c);
    lemma_all_ok_concat(s4, inst(OpShape::SumMul, a, b, c));
    let s5 = s4 + inst(OpShape::SumMul, a, b, c);
    lemma_inst_ok(OpShape::DiffMul, a, b, c);
    lemma_all_ok_concat(s5, inst(OpShape::DiffMul, a, b, c));
    let s6 = s5 + inst(OpShape::DiffMul, a, b, c);
    lemma_inst_ok(OpShape::MulSum, a, b, c);
    lemma_all_ok_concat(s6, inst(OpShape::MulSum, a, b, c));
    let s7 = s6 + inst(OpShape::MulSum, a, b, c);
    lemma_inst_ok(OpShape::MulDiff, a, b, c);
    lemma_all_ok_concat(s7, inst(OpShape::MulDiff, a, b, c));
    let s8 = s7 + inst(OpShape::MulDiff, a, b, c);
    assert(triple_ops_2(a, b, c) == s8);
}

proof fn lemma_triple_ok_3(a: i64, b: i64, c: i64)
    requires
        fits_val(a as int),
        fits_val(b as int),
        fits_val(c as int),
    ensures
        all_ok(triple_ops_3(a, b, c)),
{
    lemma_inst_ok(OpShape::SumMul, a, c, b);
    let s1 = inst(OpShape::SumMul, a, c, b);
    lemma_inst_ok(OpShape::DiffMul, a, c, b);
    lemma_all_ok_concat(s1, inst(OpShape::DiffMul, a, c, b));
    let s2 = s1 + inst(OpShape::DiffMul, a, c, b);
    lemma_inst_ok(OpShape::MulSum, b, a, c);
    lemma_all_ok_concat(s2, inst(OpShape::MulSum, b, a, c));
    let s3 = s2 + inst(OpShape::MulSum, b, a, c);
    lemma_inst_ok(OpShape::MulDiff, b, a, c);
    lemma_all_ok_concat(s3, inst(OpShape::MulDiff, b, a, c));
    let s4 = s3 + inst(OpShape::MulDiff, b, a, c);
    lemma_inst_ok(OpShape::SumDiv, a, b, c);
    lemma_all_ok_concat(s4, inst(OpShape::SumDiv, a, b, c));
    let s5 = s4 + inst(OpShape::SumDiv, a, b, c);
    lemma_inst_ok(OpShape::DiffDiv, a, b, c);
    lemma_all_ok_concat(s5, inst(OpShape::DiffDiv, a, b, c));
    let s6 = s5 + inst(OpShape::DiffDiv, a, b, c);
    lemma_inst_ok(OpShape::ProdDiv, a, b, c);
    lemma_all_ok_concat(s6, inst(OpShape::ProdDiv, a, b, c));
    let s7 = s6 + inst(OpShape::ProdDiv, a, b, c);
    lemma_inst_ok(OpShape::SumDiv, a, c, b);
    lemma_all_ok_concat(s7, inst(OpShape::SumDiv, a, c, b));
    let s8 = s7 + inst(OpShape::SumDiv, a, c, b);
    assert(triple_ops_3(a, b, c) == s8);
}

proof fn lemma_triple_ok_4(a: i64, b: i64, c: i64)
    requires
        fits_val(a as int),
        fits_val(b as int),
        fits_val(c as int),
    ensures
        all_ok(triple_ops_4(a, b, c)),
{
    lemma_inst_ok(OpShape::DiffDiv, a, c, b);
    let s1 = inst(OpShape::DiffDiv, a, c, b);
    lemma_inst_ok(OpShape::ProdDiv, a, c, b);
    lemma_all_ok_concat(s1, inst(OpShape::ProdDiv, a, c, b));
    let s2 = s1 + inst(OpShape::ProdDiv, a, c, b);
    lemma_inst_ok(OpShape::SumDiv, b, c, a);
    lemma_all_ok_concat(s2, inst(OpShape::SumDiv, b, c, a));
    let s3 = s2 + inst(OpShape::SumDiv, b, c, a);
    lemma_inst_ok(OpShape::DiffDiv, b, c, a);
    lemma_all_ok_concat(s3, inst(OpShape::DiffDiv, b, c, a));
    let s4 = s3 + inst(OpShape::DiffDiv, b, c, a);
    lemma_inst_ok(OpShape::ProdDiv, b, c, a);
    lemma_all_ok_concat(s4, inst(OpShape::ProdDiv, b, c, a));
    let s5 = s4 + inst(OpShape::ProdDiv, b, c, a);
    lemma_inst_ok(OpShape::DivDiv, a, b, c);
    lemma_all_ok_concat(s5, inst(OpShape::DivDiv, a, b, c));
    let s6 = s5 + inst(OpShape::DivDiv, a, b, c);
    lemma_inst_ok(OpShape::DivDiv, b, a, c);
    lemma_all_ok_concat(s6, inst(OpShape::DivDiv, b, a, c));
    let s7 = s6 + inst(OpShape::DivDiv, b, a, c);
    lemma_inst_ok(OpShape::DivDiv, c, a, b);
    lemma_all_ok_concat(s7, inst(OpShape::DivDiv, c, a, b));
    let s8 = s7 + inst(OpShape::DivDiv, c, a, b);
    assert(triple_ops_4(a, b, c) == s8);
}

proof fn lemma_triple_ok_5(a: i64, b: i64, c: i64)
    requires
        fits_val(a as int),
        fits_val(b as int),
        fits_val(c as int),
    ensures
        all_ok(triple_ops_5(a, b, c)),
{
    lemma_inst_ok(OpShape::MulMul, a, b, c);
    let s1 = inst(OpShape::MulMul, a, b, c);
    lemma_inst_ok(OpShape::PowAdd, a, b, c);
    lemma_all_ok_concat(s1, inst(OpShape::PowAdd, a, b, c));
    let s2 = s1 + inst(OpShape::PowAdd, a, b, c);
    lemma_inst_ok(OpShape::PowSub, a, b, c);
    lemma_all_ok_concat(s2, inst(OpShape::PowSub, a, b, c));
    let s3 = s2 + inst(OpShape::PowSub, a, b, c);
    lemma_inst_ok(OpShape::SumPow, a, b, c);
    lemma_all_ok_concat(s3, inst(OpShape::SumPow, a, b, c));
    let s4 = s3 + inst(OpShape::SumPow, a, b, c);
    lemma_inst_ok(OpShape::DiffPow, a, b, c);
    lemma_all_ok_concat(s4, inst(OpShape::DiffPow, a, b, c));
    let s5 = s4 + inst(OpShape::DiffPow, a, b, c);
    lemma_inst_ok(OpShape::Avg3, a, b, c);
    lemma_all_ok_concat(s5, inst(OpShape::Avg3, a, b, c));
    let s6 = s5 + inst(OpShape::Avg3, a, b, c);
    lemma_inst_ok(OpShape::Geo3, a, b, c);
    lemma_all_ok_concat(s6, inst(OpShape::Geo3, a, b, c));
    let s7 = s6 + inst(OpShape::Geo3, a, b, c);
    assert(triple_ops_5(a, b, c) == s7);
}

/// Every ternary candidate group is well formed.
proof fn lemma_triple_ok(a: i64, b: i64, c: i64)
    requires
        fits_val(a as int),
        fits_val(b as int),
        fits_val(c as int),
    ensures
        all_ok(triple_cands(a, b, c)),
{
    lemma_triple_ok_1(a, b, c);
    lemma_triple_ok_2(a, b, c);
    lemma_triple_ok_3(a, b, c);
    lemma_triple_ok_4(a, b, c);
    lemma_triple_ok_5(a, b, c);
    lemma_all_ok_concat(triple_ops_1(a, b, c), triple_ops_2(a, b, c));
    lemma_all_ok_concat(triple_ops_1(a, b, c) + triple_ops_2(a, b, c), triple_ops_3(a, b, c));
    lemma_all_ok_concat(
        triple_ops_1(a, b, c) + triple_ops_2(a, b, c) + triple_ops_3(a, b, c),
        triple_ops_4(a, b, c),
    );
    lemma_all_ok_concat(
        triple_ops_1(a, b, c) + triple_ops_2(a, b, c) + triple_ops_3(a, b, c) + triple_ops_4(
            a,
            b,
            c,
        ),
        triple_ops_5(a, b, c),
    );
}

proof fn lemma_unary_from_ok(nums: Seq<i64>, i: int)
    requires
        forall|k: int| 0 <= k < nums.len() ==> fits_val(#[trigger] nums[k] as int),
    ensures
        all_ok(unary_from(nums, i)),
    decreases nums.len() - i,
{
    if 0 <= i < nums.len() {
        lemma_unary_ok(nums[i]);
        lemma_unary_from_ok(nums, i + 1);
        lemma_all_ok_concat(unary_cands(nums[i]), unary_from(nums, i + 1));
    }
}

proof fn lemma_pairs_row_ok(nums: Seq<i64>, i: int, j: int)
    requires
        forall|k: int| 0 <= k < nums.len() ==> fits_val(#[trigger] nums[k] as int),
        0 <= i < nums.len(),
    ensures
        all_ok(pairs_row(nums, i, j)),
    decreases nums.len() - j,
{
    if 0 <= j < nums.len() {
        lemma_pair_ok(nums[i], nums[j]);
        lemma_pairs_row_ok(nums, i, j + 1);
        lemma_all_ok_concat(pair_cands(nums[i], nums[j]), pairs_row(nums, i, j + 1));
    }
}

proof fn lemma_pairs_from_ok(nums: Seq<i64>, i: int)
    requires
        forall|k: int| 0 <= k < nums.len() ==> fits_val(#[trigger] nums[k] as int),
    ensures
        all_ok(pairs_from(nums, i)),
    decreases nums.len() - i,
{
    if 0 <= i < nums.len() {
        lemma_pairs_row_ok(nums, i, i + 1);
        lemma_pairs_from_ok(nums, i + 1);
        lemma_all_ok_concat(pairs_row(nums, i, i + 1), pairs_from(nums, i + 1));
    }
}

proof fn lemma_triples_row_ok(nums: Seq<i64>, i: int, j: int, k: int)
    requires
        forall|m: int| 0 <= m < nums.len() ==> fits_val(#[trigger] nums[m] as int),
        0 <= i < nums.len(),
        0 <= j < nums.len(),
    ensures
        all_ok(triples_row(nums, i, j, k)),
    decreases nums.len() - k,
{
    if 0 <= k < nums.len() {
        lemma_triple_ok(nums[i], nums[j], nums[k]);
        lemma_triples_row_ok(nums, i, j, k + 1);
        lemma_all_ok_concat(
            triple_cands(nums[i], nums[j], nums[k]),
            triples_row(nums, i, j, k + 1),
        );
    }
}

proof fn lemma_triples_mid_ok(nums: Seq<i64>, i: int, j: int)
    requires
        forall|m: int| 0 <= m < nums.len() ==> fits_val(#[trigger] nums[m] as int),
        0 <= i < nums.len(),
    ensures
        all_ok(triples_mid(nums, i, j)),
    decreases nums.len() - j,
{
    if 0 <= j < nums.len() {
        lemma_triples_row_ok(nums, i, j, j + 1);
        lemma_triples_mid_ok(nums, i, j + 1);
        lemma_all_ok_concat(triples_row(nums, i, j, j + 1), triples_mid(nums, i, j + 1));
    }
}

proof fn lemma_triples_from_ok(nums: Seq<i64>, i: int)
    requires
        forall|m: int| 0 <= m < nums.len() ==> fits_val(#[trigger] nums[m] as int),
    ensures
        all_ok(triples_from(nums, i)),
    decreases nums.len() - i,
{
    if 0 <= i < nums.len() {
        lemma_triples_mid_ok(nums, i, i + 1);
        lemma_triples_from_ok(nums, i + 1);
        lemma_all_ok_concat(triples_mid(nums, i, i + 1), triples_from(nums, i + 1));
    }
}

/// Every candidate the universe generates is well formed: its guard held,
/// its stored result is the exact value of its shape, and that result is
/// representable.
pub proof fn lemma_gen_cands_ok(nums: Seq<i64>)
    requires
        forall|k: int| 0 <= k < nums.len() ==> fits_val(#[trigger] nums[k] as int),
    ensures
        all_ok(gen_cands(nums)),
{
    lemma_unary_from_ok(nums, 0);
    lemma_pairs_from_ok(nums, 0);
    lemma_triples_from_ok(nums, 0);
    lemma_all_ok_concat(unary_from(nums, 0), pairs_from(nums, 0));
    lemma_all_ok_concat(unary_from(nums, 0) + pairs_from(nums, 0), triples_from(nums, 0));
}

// ---------------------------------------------------------------------
// The identity candidate appears once per occurrence of a value.
// ---------------------------------------------------------------------

/// How many identity candidates for the value `v` a sequence holds.
pub open spec fn ident_count(s: Seq<Candidate>, v: i64) -> int
    decreases s.len(),
{
    if s.len() == 0 {
        0
    } else {
        ident_count(s.drop_last(), v) + if s.last().shape == OpShape::Ident && s.last().x == v {
            1int
        } else {
            0int
        }
    }
}

/// How many times a value occurs in a list.
pub open spec fn occ_count(s: Seq<i64>, v: i64) -> int
    decreases s.len(),
{
    if s.len() == 0 {
        0
    } else {
        occ_count(s.drop_last(), v) + if s.last() == v {
            1int
        } else {
            0int
        }
    }
}

pub proof fn lemma_ident_count_concat(s1: Seq<Candidate>, s2: Seq<Candidate>, v: i64)
    ensures
        ident_count(s1 + s2, v) == ident_count(s1, v) + ident_count(s2, v),
    decreases s2.len(),
{
    if s2.len() == 0 {
        assert(s1 + s2 =~= s1);
    } else {
        lemma_ident_count_concat(s1, s2.drop_last(), v);
        assert((s1 + s2).drop_last() =~= s1 + s2.drop_last());
        assert((s1 + s2).last() == s2.last());
    }
}

/// A sequence without identity candidates counts zero.
pub proof fn lemma_ident_count_zero(s: Seq<Candidate>, v: i64)
    requires
        forall|k: int| 0 <= k < s.len() ==> (#[trigger] s[k]).shape != OpShape::Ident,
    ensures
        ident_count(s, v) == 0,
    decreases s.len(),
{
    if s.len() > 0 {
        assert(s.last() == s[s.len() - 1]);
        lemma_ident_count_zero(s.drop_last(), v);
    }
}

/// The identity count of a one-element sequence.
proof fn lemma_ident_count_singleton(c: Candidate, v: i64)
    ensures
        ident_count(seq![c], v) == if c.shape == OpShape::Ident && c.x == v {
            1int
        } else {
            0int
        },
{
    let s = seq![c];
    assert(s.len() == 1);
    assert(s.drop_last() =~= Seq::<Candidate>::empty());
    assert(ident_count(s.drop_last(), v) == 0);
    assert(s.last() == c);
}

proof fn lemma_ident_count_unary(n: i64, v: i64)
    requires
        fits_val(n as int),
    ensures
        ident_count(unary_cands(n), v) == if n == v {
            1int
        } else {
            0int
        },
{
    let c = cand_of(OpShape::Ident, n, 0, 0);
    let id = inst(OpShape::Ident, n, 0, 0);
    assert(shape_ok(OpShape::Ident, n as int, 0, 0)) by {
        reveal(shape_ok);
    }
    assert(id == seq![c]);
    lemma_ident_count_singleton(c, v);
    assert(c.shape == OpShape::Ident && c.x == n);
    let rest = inst(OpShape::Sqrt, n, 0, 0) + inst(OpShape::Abs, n, 0, 0) + inst(
        OpShape::Square,
        n,
        0,
        0,
    ) + inst(OpShape::Cube, n, 0, 0) + inst(OpShape::Fact, n, 0, 0) + inst(OpShape::Ceil, n, 0, 0)
        + inst(OpShape::Floor, n, 0, 0);
    assert(forall|k: int| 0 <= k < rest.len() ==> (#[trigger] rest[k]).shape != OpShape::Ident);
    lemma_ident_count_zero(rest, v);
    assert(unary_cands(n) =~= id + rest);
    lemma_ident_count_concat(id, rest, v);
}

proof fn lemma_ident_count_unary_from(nums: Seq<i64>, i: int, v: i64)
    requires
        forall|k: int| 0 <= k < nums.len() ==> fits_val(#[trigger] nums[k] as int),
        0 <= i <= nums.len(),
    ensures
        ident_count(unary_from(nums, i), v) == occ_count(nums.skip(i), v),
    decreases nums.len() - i,
{
    if i >= nums.len() {
        assert(nums.skip(i) =~= Seq::<i64>::empty());
    } else {
        lemma_ident_count_unary(nums[i], v);
        lemma_ident_count_unary_from(nums, i + 1, v);
        lemma_ident_count_concat(unary_cands(nums[i]), unary_from(nums, i + 1), v);
        lemma_occ_count_cons(nums, i, v);
    }
}

/// Unfolds `occ_count` over `skip` from the front.
proof fn lemma_occ_count_cons(nums: Seq<i64>, i: int, v: i64)
    requires
        0 <= i < nums.len(),
    ensures
        occ_count(nums.skip(i), v) == (if nums[i] == v {
            1int
        } else {
            0int
        }) + occ_count(nums.skip(i + 1), v),
{
    lemma_occ_count_first(nums.skip(i), v);
    assert(nums.skip(i).drop_first() =~= nums.skip(i + 1));
    assert(nums.skip(i).first() == nums[i]);
}

/// `occ_count` seen from the front of a non-empty sequence.
proof fn lemma_occ_count_first(s: Seq<i64>, v: i64)
    requires
        s.len() > 0,
    ensures
        occ_count(s, v) == (if s.first() == v {
            1int
        } else {
            0int
        }) + occ_count(s.drop_first(), v),
    decreases s.len(),
{
    if s.len() == 1 {
        assert(s.drop_last() =~= Seq::<i64>::empty());
        assert(s.drop_first() =~= Seq::<i64>::empty());
        assert(s.last() == s.first());
    } else {
        lemma_occ_count_first(s.drop_last(), v);
        assert(s.drop_last().first() == s.first());
        assert(s.drop_last().drop_first() =~= s.drop_first().drop_last());
        assert(s.drop_first().last() == s.last());
    }
}

/// No binary or ternary candidate is an identity.
proof fn lemma_pair_no_ident_a(a: i64, b: i64)
    ensures
        no_ident(pair_ops_a(a, b)),
{
    lemma_inst_no_ident(OpShape::Add2, a, b, 0);
    let s1 = inst(OpShape::Add2, a, b, 0);
    lemma_inst_no_ident(OpShape::Sub2, a, b, 0);
    lemma_no_ident_concat(s1, inst(OpShape::Sub2, a, b, 0));
    let s2 = s1 + inst(OpShape::Sub2, a, b, 0);
    lemma_inst_no_ident(OpShape::Sub2, b, a, 0);
    lemma_no_ident_concat(s2, inst(OpShape::Sub2, b, a, 0));
    let s3 = s2 + inst(OpShape::Sub2, b, a, 0);
    lemma_inst_no_ident(OpShape::Mul2, a, b, 0);
    lemma_no_ident_concat(s3, inst(OpShape::Mul2, a, b, 0));
    let s4 = s3 + inst(OpShape::Mul2, a, b, 0);
    lemma_inst_no_ident(OpShape::Div2, a, b, 0);
    lemma_no_ident_concat(s4, inst(OpShape::Div2, a, b, 0));
    let s5 = s4 + inst(OpShape::Div2, a, b, 0);
    lemma_inst_no_ident(OpShape::Div2, b, a, 0);
    lemma_no_ident_concat(s5, inst(OpShape::Div2, b, a, 0));
    let s6 = s5 + inst(OpShape::Div2, b, a, 0);
    lemma_inst_no_ident(OpShape::Pow2, a, b, 0);
    lemma_no_ident_concat(s6, inst(OpShape::Pow2, a, b, 0));
    let s7 = s6 + inst(OpShape::Pow2, a, b, 0);
    lemma_inst_no_ident(OpShape::Pow2, b, a, 0);
    lemma_no_ident_concat(s7, inst(OpShape::Pow2, b, a, 0));
    let s8 = s7 + inst(OpShape::Pow2, b, a, 0);
    assert(pair_ops_a(a, b) == s8);
}

proof fn lemma_pair_no_ident_b(a: i64, b: i64)
    ensures
        no_ident(pair_ops_b(a, b)),
{
    lemma_inst_no_ident(OpShape::Mod2, a, b, 0);
    let s1 = inst(OpShape::Mod2, a, b, 0);
    lemma_inst_no_ident(OpShape::Mod2, b, a, 0);
    lemma_no_ident_concat(s1, inst(OpShape::Mod2, b, a, 0));
    let s2 = s1 + inst(OpShape::Mod2, b, a, 0);
    lemma_inst_no_ident(OpShape::Max2, a, b, 0);
    lemma_no_ident_concat(s2, inst(OpShape::Max2, a, b, 0));
    let s3 = s2 + inst(OpShape::Max2, a, b, 0);
    lemma_inst_no_ident(OpShape::Min2, a, b, 0);
    lemma_no_ident_concat(s3, inst(OpShape::Min2, a, b, 0));
    let s4 = s3 + inst(OpShape::Min2, a, b, 0);
    lemma_inst_no_ident(OpShape::Hypot2, a, b, 0);
    lemma_no_ident_concat(s4, inst(OpShape::Hypot2, a, b, 0));
    let s5 = s4 + inst(OpShape::Hypot2, a, b, 0);
    lemma_inst_no_ident(OpShape::Avg2, a, b, 0);
    lemma_no_ident_concat(s5, inst(OpShape::Avg2, a, b, 0));
    let s6 = s5 + inst(OpShape::Avg2, a, b, 0);
    lemma_inst_no_ident(OpShape::Geo2, a, b, 0);
    lemma_no_ident_concat(s6, inst(OpShape::Geo2, a, b, 0));
    let s7 = s6 + inst(OpShape::Geo2, a, b, 0);
    assert(pair_ops_b(a, b) == s7);
}

/// No binary candidate is an identity.
proof fn lemma_pair_no_ident_all(a: i64, b: i64)
    ensures
        no_ident(pair_cands(a, b)),
{
    lemma_pair_no_ident_a(a, b);
    lemma_pair_no_ident_b(a, b);
    lemma_no_ident_concat(pair_ops_a(a, b), pair_ops_b(a, b));
}

proof fn lemma_pairs_row_no_ident(nums: Seq<i64>, i: int, j: int, v: i64)
    requires
        0 <= i < nums.len(),
    ensures
        ident_count(pairs_row(nums, i, j), v) == 0,
    decreases nums.len() - j,
{
    if 0 <= j < nums.len() {
        let pc = pair_cands(nums[i], nums[j]);
        lemma_pair_no_ident_all(nums[i], nums[j]);
        lemma_ident_count_zero(pc, v);
        lemma_pairs_row_no_ident(nums, i, j + 1, v);
        lemma_ident_count_concat(pc, pairs_row(nums, i, j + 1), v);
    }
}

proof fn lemma_pairs_from_no_ident(nums: Seq<i64>, i: int, v: i64)
    ensures
        ident_count(pairs_from(nums, i), v) == 0,
    decreases nums.len() - i,
{
    if 0 <= i < nums.len() {
        lemma_pairs_row_no_ident(nums, i, i + 1, v);
        lemma_pairs_from_no_ident(nums, i + 1, v);
        lemma_ident_count_concat(pairs_row(nums, i, i + 1), pairs_from(nums, i + 1), v);
    }
}

/// No element of a sequence is an identity candidate.
pub open spec fn no_ident(s: Seq<Candidate>) -> bool {
    forall|k: int| 0 <= k < s.len() ==> (#[trigger] s[k]).shape != OpShape::Ident
}

proof fn lemma_no_ident_concat(s1: Seq<Candidate>, s2: Seq<Candidate>)
    requires
        no_ident(s1),
        no_ident(s2),
    ensures
        no_ident(s1 + s2),
{
    assert forall|k: int| 0 <= k < (s1 + s2).len() implies (#[trigger] (s1 + s2)[k]).shape
        != OpShape::Ident by {
        if k < s1.len() {
            assert((s1 + s2)[k] == s1[k]);
        } else {
            assert((s1 + s2)[k] == s2[k - s1.len()]);
        }
    }
}

proof fn lemma_inst_no_ident(sh: OpShape, x: i64, y: i64, z: i64)
    requires
        sh != OpShape::Ident,
    ensures
        no_ident(inst(sh, x, y, z)),
{
    if shape_ok(sh, x as int, y as int, z as int) {
        assert(forall|k: int| 0 <= k < inst(sh, x, y, z).len() ==> #[trigger] inst(
            sh,
            x,
            y,
            z,
        )[k] == cand_of(sh, x, y, z));
    }
}

proof fn lemma_triple_no_ident_1(a: i64, b: i64, c: i64)
    ensures
        no_ident(triple_ops_1(a, b, c)),
{
    lemma_inst_no_ident(OpShape::AddAdd, a, b, c);
    let s1 = inst(OpShape::AddAdd, a, b, c);
    lemma_inst_no_ident(OpShape::AddSub, a, b, c);
    lemma_no_ident_concat(s1, inst(OpShape::AddSub, a, b, c));
    let s2 = s1 + inst(OpShape::AddSub, a, b, c);
    lemma_inst_no_ident(OpShape::SubAdd, a, b, c);
    lemma_no_ident_concat(s2, inst(OpShape::SubAdd, a, b, c));
    let s3 = s2 + inst(OpShape::SubAdd, a, b, c);
    lemma_inst_no_ident(OpShape::SubSub, a, b, c);
    lemma_no_ident_concat(s3, inst(OpShape::SubSub, a, b, c));
    let s4 = s3 + inst(OpShape::SubSub, a, b, c);
    lemma_inst_no_ident(OpShape::MulAdd, a, b, c);
    lemma_no_ident_concat(s4, inst(OpShape::MulAdd, a, b, c));
    let s5 = s4 + inst(OpShape::MulAdd, a, b, c);
    lemma_inst_no_ident(OpShape::MulSub, a, b, c);
    lemma_no_ident_concat(s5, inst(OpShape::MulSub, a, b, c));
    let s6 = s5 + inst(OpShape::MulSub, a, b, c);
    lemma_inst_no_ident(OpShape::AddMul, a, b, c);
    lemma_no_ident_concat(s6, inst(OpShape::AddMul, a, b, c));
    let s7 = s6 + inst(OpShape::AddMul, a, b, c);
    lemma_inst_no_ident(OpShape::SubMul, a, b, c);
    lemma_no_ident_concat(s7, inst(OpShape::SubMul, a, b, c));
    let s8 = s7 + inst(OpShape::SubMul, a, b, c);
    assert(triple_ops_1(a, b, c) == s8);
}

proof fn lemma_triple_no_ident_2(a: i64, b: i64, c: i64)
    ensures
        no_ident(triple_ops_2(a, b, c)),
{
    lemma_inst_no_ident(OpShape::MulAdd, a, c, b);
    let s1 = inst(OpShape::MulAdd, a, c, b);
    lemma_inst_no_ident(OpShape::MulSub, a, c, b);
    lemma_no_ident_concat(s1, inst(OpShape::MulSub, a, c, b));
    let s2 = s1 + inst(OpShape::MulSub, a, c, b);
    lemma_inst_no_ident(OpShape::MulAdd, b, c, a);
    lemma_no_ident_concat(s2, inst(OpShape::MulAdd, b, c, a));
    let s3 = s2 + inst(OpShape::MulAdd, b, c, a);
    lemma_inst_no_ident(OpShape::MulSub, b, c, a);
    lemma_no_ident_concat(s3, inst(OpShape::MulSub, b, c, a));
    let s4 = s3 + inst(OpShape::MulSub, b, c, a);
    lemma_inst_no_ident(OpShape::SumMul, a, b, c);
    lemma_no_ident_concat(s4, inst(OpShape::SumMul, a, b, c));
    let s5 = s4 + inst(OpShape::SumMul, a, b, c);
    lemma_inst_no_ident(OpShape::DiffMul, a, b, c);
    lemma_no_ident_concat(s5, inst(OpShape::DiffMul, a, b, c));
    let s6 = s5 + inst(OpShape::DiffMul, a, b, c);
    lemma_inst_no_ident(OpShape::MulSum, a, b, c);
    lemma_no_ident_concat(s6, inst(OpShape::MulSum, a, b, c));
    let s7 = s6 + inst(OpShape::MulSum, a, b, c);
    lemma_inst_no_ident(OpShape::MulDiff, a, b, c);
    lemma_no_ident_concat(s7, inst(OpShape::MulDiff, a, b, c));
    let s8 = s7 + inst(OpShape::MulDiff, a, b, c);
    assert(triple_ops_2(a, b, c) == s8);
}

proof fn lemma_triple_no_ident_3(a: i64, b: i64, c: i64)
    ensures
        no_ident(triple_ops_3(a, b, c)),
{
    lemma_inst_no_ident(OpShape::SumMul, a, c, b);
    let s1 = inst(OpShape::SumMul, a, c, b);
    lemma_inst_no_ident(OpShape::DiffMul, a, c, b);
    lemma_no_ident_concat(s1, inst(OpShape::DiffMul, a, c, b));
    let s2 = s1 + inst(OpShape::DiffMul, a, c, b);
    lemma_inst_no_ident(OpShape::MulSum, b, a, c);
    lemma_no_ident_concat(s2, inst(OpShape::MulSum, b, a, c));
    let s3 = s2 + inst(OpShape::MulSum, b, a, c);
    lemma_inst_no_ident(OpShape::MulDiff, b, a, c);
    lemma_no_ident_concat(s3, inst(OpShape::MulDiff, b, a, c));
    let s4 = s3 + inst(OpShape::MulDiff, b, a, c);
    lemma_inst_no_ident(OpShape::SumDiv, a, b, c);
    lemma_no_ident_concat(s4, inst(OpShape::SumDiv, a, b, c));
    let s5 = s4 + inst(OpShape::SumDiv, a, b, c);
    lemma_inst_no_ident(OpShape::DiffDiv, a, b, c);
    lemma_no_ident_concat(s5, inst(OpShape::DiffDiv, a, b, c));
    let s6 = s5 + inst(OpShape::DiffDiv, a, b, c);
    lemma_inst_no_ident(OpShape::ProdDiv, a, b, c);
    lemma_no_ident_concat(s6, inst(OpShape::ProdDiv, a, b, c));
    let s7 = s6 + inst(OpShape::ProdDiv, a, b, c);
    lemma_inst_no_ident(OpShape::SumDiv, a, c, b);
    lemma_no_ident_concat(s7, inst(OpShape::SumDiv, a, c, b));
    let s8 = s7 + inst(OpShape::SumDiv, a, c, b);
    assert(triple_ops_3(a, b, c) == s8);
}

proof fn lemma_triple_no_ident_4(a: i64, b: i64, c: i64)
    ensures
        no_ident(triple_ops_4(a, b, c)),
{
    lemma_inst_no_ident(OpShape::DiffDiv, a, c, b);
    let s1 = inst(OpShape::DiffDiv, a, c, b);
    lemma_inst_no_ident(OpShape::ProdDiv, a, c, b);
    lemma_no_ident_concat(s1, inst(OpShape::ProdDiv, a, c, b));
    let s2 = s1 + inst(OpShape::ProdDiv, a, c, b);
    lemma_inst_no_ident(OpShape::SumDiv, b, c, a);
    lemma_no_ident_concat(s2, inst(OpShape::SumDiv, b, c, a));
    let s3 = s2 + inst(OpShape::SumDiv, b, c, a);
    lemma_inst_no_ident(OpShape::DiffDiv, b, c, a);
    lemma_no_ident_concat(s3, inst(OpShape::DiffDiv, b, c, a));
    let s4 = s3 + inst(OpShape::DiffDiv, b, c, a);
    lemma_inst_no_ident(OpShape::ProdDiv, b, c, a);
    lemma_no_ident_concat(s4, inst(OpShape::ProdDiv, b, c, a));
    let s5 = s4 + inst(OpShape::ProdDiv, b, c, a);
    lemma_inst_no_ident(OpShape::DivDiv, a, b, c);
    lemma_no_ident_concat(s5, inst(OpShape::DivDiv, a, b, c));
    let s6 = s5 + inst(OpShape::DivDiv, a, b, c);
    lemma_inst_no_ident(OpShape::DivDiv, b, a, c);
    lemma_no_ident_concat(s6, inst(OpShape::DivDiv, b, a, c));
    let s7 = s6 + inst(OpShape::DivDiv, b, a, c);
    lemma_inst_no_ident(OpShape::DivDiv, c, a, b);
    lemma_no_ident_concat(s7, inst(OpShape::DivDiv, c, a, b));
    let s8 = s7 + inst(OpShape::DivDiv, c, a, b);
    assert(triple_ops_4(a, b, c) == s8);
}

proof fn lemma_triple_no_ident_5(a: i64, b: i64, c: i64)
    ensures
        no_ident(triple_ops_5(a, b, c)),
{
    lemma_inst_no_ident(OpShape::MulMul, a, b, c);
    let s1 = inst(OpShape::MulMul, a, b, c);
    lemma_inst_no_ident(OpShape::PowAdd, a, b, c);
    lemma_no_ident_concat(s1, inst(OpShape::PowAdd, a, b, c));
    let s2 = s1 + inst(OpShape::PowAdd, a, b, c);
    lemma_inst_no_ident(OpShape::PowSub, a, b, c);
    lemma_no_ident_concat(s2, inst(OpShape::PowSub, a, b, c));
    let s3 = s2 + inst(OpShape::PowSub, a, b, c);
    lemma_inst_no_ident(OpShape::SumPow, a, b, c);
    lemma_no_ident_concat(s3, inst(OpShape::SumPow, a, b, c));
    let s4 = s3 + inst(OpShape::SumPow, a, b, c);
    lemma_inst_no_ident(OpShape::DiffPow, a, b, c);
    lemma_no_ident_concat(s4, inst(OpShape::DiffPow, a, b, c));
    let s5 = s4 + inst(OpShape::DiffPow, a, b, c);
    lemma_inst_no_ident(OpShape::Avg3, a, b, c);
    lemma_no_ident_concat(s5, inst(OpShape::Avg3, a, b, c));
    let s6 = s5 + inst(OpShape::Avg3, a, b, c);
    lemma_inst_no_ident(OpShape::Geo3, a, b, c);
    lemma_no_ident_concat(s6, inst(OpShape::Geo3, a, b, c));
    let s7 = s6 + inst(OpShape::Geo3, a, b, c);
    assert(triple_ops_5(a, b, c) == s7);
}

/// No ternary candidate is an identity.
proof fn lemma_triple_no_ident_all(a: i64, b: i64, c: i64)
    ensures
        no_ident(triple_cands(a, b, c)),
{
    lemma_triple_no_ident_1(a, b, c);
    lemma_triple_no_ident_2(a, b, c);
    lemma_triple_no_ident_3(a, b, c);
    lemma_triple_no_ident_4(a, b, c);
    lemma_triple_no_ident_5(a, b, c);
    lemma_no_ident_concat(triple_ops_1(a, b, c), triple_ops_2(a, b, c));
    lemma_no_ident_concat(triple_ops_1(a, b, c) + triple_ops_2(a, b, c), triple_ops_3(a, b, c));
    lemma_no_ident_concat(
        triple_ops_1(a, b, c) + triple_ops_2(a, b, c) + triple_ops_3(a, b, c),
        triple_ops_4(a, b, c),
    );
    lemma_no_ident_concat(
        triple_ops_1(a, b, c) + triple_ops_2(a, b, c) + triple_ops_3(a, b, c) + triple_ops_4(
            a,
            b,
            c,
        ),
        triple_ops_5(a, b, c),
    );
}

proof fn lemma_triples_row_no_ident(nums: Seq<i64>, i: int, j: int, k: int, v: i64)
    requires
        0 <= i < nums.len(),
        0 <= j < nums.len(),
    ensures
        ident_count(triples_row(nums, i, j, k), v) == 0,
    decreases nums.len() - k,
{
    if 0 <= k < nums.len() {
        let tc = triple_cands(nums[i], nums[j], nums[k]);
        lemma_triple_no_ident_all(nums[i], nums[j], nums[k]);
        lemma_ident_count_zero(tc, v);
        lemma_triples_row_no_ident(nums, i, j, k + 1, v);
        lemma_ident_count_concat(tc, triples_row(nums, i, j, k + 1), v);
    }
}

proof fn lemma_triples_mid_no_ident(nums: Seq<i64>, i: int, j: int, v: i64)
    requires
        0 <= i < nums.len(),
    ensures
        ident_count(triples_mid(nums, i, j), v) == 0,
    decreases nums.len() - j,
{
    if 0 <= j < nums.len() {
        lemma_triples_row_no_ident(nums, i, j, j + 1, v);
        lemma_triples_mid_no_ident(nums, i, j + 1, v);
        lemma_ident_count_concat(triples_row(nums, i, j, j + 1), triples_mid(nums, i, j + 1), v);
    }
}

proof fn lemma_triples_from_no_ident(nums: Seq<i64>, i: int, v: i64)
    ensures
        ident_count(triples_from(nums, i), v) == 0,
    decreases nums.len() - i,
{
    if 0 <= i < nums.len() {
        lemma_triples_mid_no_ident(nums, i, i + 1, v);
        lemma_triples_from_no_ident(nums, i + 1, v);
        lemma_ident_count_concat(triples_mid(nums, i, i + 1), triples_from(nums, i + 1), v);
    }
}

/// A value absent from a list occurs zero times.
pub proof fn lemma_occ_count_zero(s: Seq<i64>, v: i64)
    requires
        !s.contains(v),
    ensures
        occ_count(s, v) == 0,
    decreases s.len(),
{
    if s.len() > 0 {
        assert(s[s.len() - 1] != v);
        assert(!s.drop_last().contains(v)) by {
            if s.drop_last().contains(v) {
                let k = choose|k: int| 0 <= k < s.drop_last().len() && s.drop_last()[k] == v;
                assert(s[k] == v);
            }
        }
        lemma_occ_count_zero(s.drop_last(), v);
    }
}

/// A value present in a duplicate-free list occurs exactly once.
pub proof fn lemma_occ_count_distinct(s: Seq<i64>, v: i64)
    requires
        forall|i: int, j: int| 0 <= i < j < s.len() ==> s[i] != s[j],
        s.contains(v),
    ensures
        occ_count(s, v) == 1,
    decreases s.len(),
{
    let last = s[s.len() - 1];
    if last == v {
        assert(!s.drop_last().contains(v)) by {
            if s.drop_last().contains(v) {
                let k = choose|k: int| 0 <= k < s.drop_last().len() && s.drop_last()[k] == v;
                assert(s[k] == v && s[s.len() - 1] == v && k < s.len() - 1);
            }
        }
        lemma_occ_count_zero(s.drop_last(), v);
    } else {
        assert(s.drop_last().contains(v)) by {
            let k = choose|k: int| 0 <= k < s.len() && s[k] == v;
            assert(k < s.len() - 1);
            assert(s.drop_last()[k] == v);
        }
        lemma_occ_count_distinct(s.drop_last(), v);
    }
}

/// The universe holds exactly one identity candidate per occurrence of a
/// value in the sanitized input list.
pub proof fn lemma_gen_cands_ident(nums: Seq<i64>, v: i64)
    requires
        forall|k: int| 0 <= k < nums.len() ==> fits_val(#[trigger] nums[k] as int),
    ensures
        ident_count(gen_cands(nums), v) == occ_count(nums, v),
{
    lemma_ident_count_unary_from(nums, 0, v);
    assert(nums.skip(0) =~= nums);
    lemma_pairs_from_no_ident(nums, 0, v);
    lemma_triples_from_no_ident(nums, 0, v);
    lemma_ident_count_concat(unary_from(nums, 0), pairs_from(nums, 0), v);
    lemma_ident_count_concat(unary_from(nums, 0) + pairs_from(nums, 0), triples_from(nums, 0), v);
}

} // verus!
